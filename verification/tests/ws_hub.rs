use tokio::sync::mpsc;
use zeroclaw_sessions::json::Json;
use zeroclaw_sessions::ws_hub::{
    hub_for, is_replayable, HubUse, LiveFrame, PendingApprovals, Registry, SteerRefusal, TurnHub,
};

fn json(text: &str) -> Json {
    Json::parse(text).expect("a document")
}

fn field<'a>(frame: &'a Json, key: &str) -> &'a str {
    frame.text_field(key).unwrap_or("(none)")
}

fn started() -> TurnHub {
    let mut hub = TurnHub::new();
    hub.begin(mpsc::channel(1).0);
    hub
}

#[test]
fn adjacent_chunk_and_thinking_deltas_merge_but_not_across_a_tool_call() {
    let mut hub = started();
    hub.push(&json("{\"type\":\"thinking\",\"content\":\"Let me \"}"));
    hub.push(&json("{\"type\":\"thinking\",\"content\":\"recall (ear\"}"));
    hub.push(&json("{\"type\":\"tool_call\",\"id\":\"c1\",\"name\":\"shell\",\"args\":{\"command\":\"comfy-gen where\"}}"));
    hub.push(&json("{\"type\":\"tool_result\",\"id\":\"c1\",\"name\":\"shell\",\"output\":\"prompt: a lighthouse\"}"));
    hub.push(&json("{\"type\":\"chunk\",\"content\":\"It \"}"));
    hub.push(&json("{\"type\":\"chunk\",\"content\":\"was\"}"));

    let (_, frames) = hub.attach().expect("running");
    assert_eq!(
        frames.len(),
        4,
        "two thinking deltas and two chunk deltas each merged to one"
    );
    assert_eq!(field(&frames[0], "type"), "thinking");
    assert_eq!(field(&frames[0], "content"), "Let me recall (ear");
    assert_eq!(field(&frames[1], "type"), "tool_call");
    assert_eq!(field(&frames[2], "type"), "tool_result");
    assert_eq!(field(&frames[3], "type"), "chunk");
    assert_eq!(field(&frames[3], "content"), "It was");
}

#[test]
fn terminal_and_non_replayable_frames_are_not_buffered() {
    let mut hub = started();
    hub.push(&json("{\"type\":\"chunk\",\"content\":\"hi\"}"));
    // Not a replayable type: ignored by the buffer.
    hub.push(&json("{\"type\":\"history_trimmed\",\"dropped_messages\":1}"));
    let (_, frames) = hub.attach().expect("running");
    assert_eq!(frames.len(), 1);
    assert_eq!(field(&frames[0], "type"), "chunk");
}

#[test]
fn attach_returns_none_after_the_turn_finishes_and_replay_is_cleared() {
    let mut hub = started();
    hub.push(&json("{\"type\":\"chunk\",\"content\":\"hi\"}"));
    assert!(hub.running());
    hub.finish(&json("{\"type\":\"done\",\"full_response\":\"hi\"}"));
    assert!(!hub.running());
    assert!(
        hub.attach().is_none(),
        "a socket arriving after done gets no replay"
    );
}

#[test]
fn an_observer_snapshots_the_past_and_receives_later_frames_live_exactly_once() {
    let mut hub = started();
    hub.push(&json("{\"type\":\"thinking\",\"content\":\"before\"}"));
    let (mut rx, frames) = hub.attach().expect("running");
    // The snapshot has the frame from before...
    assert_eq!(frames.len(), 1);
    assert_eq!(field(&frames[0], "content"), "before");
    // ...and the receiver has none of it yet.
    assert!(rx.try_recv().is_err());
    // A frame pushed afterwards arrives live, and only live.
    hub.push(&json("{\"type\":\"chunk\",\"content\":\"after\"}"));
    let live: LiveFrame = rx.try_recv().unwrap();
    assert!(!live.last);
    let frame = json(&live.text);
    assert_eq!(field(&frame, "type"), "chunk");
    assert_eq!(field(&frame, "content"), "after");
    assert!(rx.try_recv().is_err());
    hub.finish(&json("{\"type\":\"done\"}"));
    let term = rx.try_recv().unwrap();
    assert!(term.last, "the observer detaches after the terminal frame");
    assert_eq!(field(&json(&term.text), "type"), "done");
}

#[test]
fn only_still_pending_approval_requests_are_replayed() {
    let mut hub = started();
    for id in ["answered", "open"] {
        hub.insert_pending(id);
        hub.push(&json(&format!(
            "{{\"type\":\"approval_request\",\"request_id\":\"{id}\",\"tool\":\"shell\"}}"
        )));
    }
    hub.push(&json("{\"type\":\"chunk\",\"content\":\"after\"}"));
    // A request is dropped once it is answered.
    hub.remove_pending("answered");

    let (_, frames) = hub.attach().expect("running");
    let approvals: Vec<&str> = frames
        .iter()
        .filter(|f| field(f, "type") == "approval_request")
        .filter_map(|f| f.text_field("request_id"))
        .collect();
    assert_eq!(
        approvals,
        ["open"],
        "an answered request must not re-open a modal"
    );
    assert_eq!(
        field(frames.last().unwrap(), "type"),
        "chunk",
        "other frames are untouched"
    );
}

#[test]
fn steer_routes_to_the_running_turn_and_stops_after_it_finishes() {
    let (tx, mut rx) = mpsc::channel(4);
    let mut hub = TurnHub::new();
    hub.begin(tx);
    assert!(hub.steer("keep going".into()).is_ok());
    assert_eq!(rx.try_recv().unwrap(), "keep going");
    hub.finish(&json("{\"type\":\"done\"}"));
    assert!(
        hub.steer("too late".into()).is_err(),
        "no steering between turns"
    );
}

#[test]
fn a_refused_steer_hands_the_message_back() {
    let (tx, _rx) = mpsc::channel(1);
    let mut hub = TurnHub::new();
    assert!(
        matches!(hub.steer("no turn".into()), Err(SteerRefusal::Closed(m)) if m == "no turn"),
        "nothing takes steering between turns"
    );
    hub.begin(tx);
    assert!(hub.steer("first".into()).is_ok());
    assert!(
        matches!(hub.steer("second".into()), Err(SteerRefusal::Full(m)) if m == "second"),
        "a full queue refuses and returns the message"
    );
}

#[test]
fn a_turn_that_went_away_refuses_steering() {
    let (tx, rx) = mpsc::channel(1);
    let mut hub = TurnHub::new();
    hub.begin(tx);
    drop(rx);
    assert!(matches!(hub.steer("gone".into()), Err(SteerRefusal::Closed(m)) if m == "gone"));
}

#[test]
fn steering_the_turn_never_read_is_taken_and_later_steering_is_refused() {
    let (tx, mut rx) = mpsc::channel(4);
    let mut hub = TurnHub::new();
    hub.begin(tx);
    assert!(hub.steer("one".into()).is_ok());
    assert!(hub.steer("two".into()).is_ok());
    assert_eq!(hub.take_unread_steering(&mut rx, false), ["one", "two"]);
    assert!(
        matches!(hub.steer("three".into()), Err(SteerRefusal::Closed(m)) if m == "three"),
        "steering closes with the drain, so nothing lands behind it unread"
    );
    assert!(rx.try_recv().is_err());
}

#[test]
fn a_chained_turn_keeps_its_observers_and_its_steering_open() {
    let (tx, mut rx) = mpsc::channel(4);
    let mut hub = TurnHub::new();
    hub.begin(tx.clone());
    let (mut live, _) = hub.attach().expect("running");
    assert!(hub.steer("next".into()).is_ok());

    assert_eq!(hub.take_unread_steering(&mut rx, true), ["next"]);
    assert!(
        hub.steer("between turns".into()).is_ok(),
        "steering stays open for the chained turn"
    );
    hub.finish_chained(&json("{\"type\":\"done\",\"full_response\":\"one\"}"));
    assert!(
        !live.try_recv().unwrap().last,
        "the observer stays for the chained turn"
    );
    assert!(hub.running());
    let (_, frames) = hub
        .attach()
        .expect("a socket arriving between the turns attaches");
    assert!(frames.is_empty(), "the finished turn is not replayed");

    hub.begin(tx);
    assert_eq!(rx.try_recv().unwrap(), "between turns");
    hub.push(&json("{\"type\":\"chunk\",\"content\":\"two\"}"));
    let chunk = json(&live.try_recv().unwrap().text);
    assert_eq!(field(&chunk, "content"), "two");

    assert!(hub.take_unread_steering(&mut rx, true).is_empty());
    hub.finish(&json("{\"type\":\"done\",\"full_response\":\"two\"}"));
    assert!(live.try_recv().unwrap().last);
    assert!(!hub.running());
    assert!(hub.steer("after".into()).is_err());
}

#[test]
fn an_announcement_reaches_observers_but_is_not_replayed() {
    let mut hub = started();
    let (mut live, _) = hub.attach().expect("running");
    hub.announce(&json(
        "{\"type\":\"error\",\"code\":\"STEERING_CLOSED\",\"content\":\"x\"}",
    ));
    let frame = live.try_recv().unwrap();
    assert!(!frame.last);
    assert!(frame.text.contains("STEERING_CLOSED"));
    assert!(hub.attach().expect("running").1.is_empty());
}

/// Asks a registry for a hub; `held` are the sessions whose hubs a socket holds.
fn ask(registry: &mut Registry<TurnHub>, key: &str, names: &mut Vec<String>, held: &[&str]) -> usize {
    let uses: Vec<HubUse> = (0..registry.len())
        .map(|i| HubUse {
            referenced: held.contains(&names[i].as_str()),
            running: registry.hub_at(i).running(),
        })
        .collect();
    let kept: Vec<String> = names
        .iter()
        .zip(&uses)
        .filter(|(n, u)| u.referenced || u.running || *n == key)
        .map(|(n, _)| n.clone())
        .collect();
    *names = kept;
    if !names.iter().any(|n| n == key) {
        names.push(key.to_string());
    }
    let mut fresh = TurnHub::new();
    if key == "gw_reclaim_a" {
        fresh.begin(mpsc::channel(1).0);
    }
    hub_for(registry, key, &uses, fresh)
}

#[test]
fn the_registry_reclaims_unreferenced_idle_sessions_but_keeps_referenced_ones() {
    let mut registry: Registry<TurnHub> = Registry::new();
    let mut names = Vec::new();
    // Nobody holds it, but its turn runs: it must survive a sweep.
    ask(&mut registry, "gw_reclaim_a", &mut names, &[]);
    ask(&mut registry, "gw_reclaim_b", &mut names, &[]);
    ask(&mut registry, "gw_reclaim_c", &mut names, &[]);
    assert!(
        registry.find("gw_reclaim_a").is_some(),
        "a is running, so it is kept"
    );
    assert!(
        registry.find("gw_reclaim_b").is_none(),
        "b is idle and unreferenced, so it is swept"
    );
    assert!(registry.find("gw_reclaim_c").is_some());
    // A hub that a socket holds stays, and is found again under its key.
    let c = ask(&mut registry, "gw_reclaim_c", &mut names, &["gw_reclaim_c"]);
    assert_eq!(registry.find("gw_reclaim_c"), Some(c));
    assert_eq!(registry.len(), 2);
    let a = registry.find("gw_reclaim_a").unwrap();
    assert!(registry.hub_at(a).running());
}

#[test]
fn an_idle_session_that_is_asked_for_again_keeps_its_hub() {
    let mut registry: Registry<TurnHub> = Registry::new();
    let mut waiting = TurnHub::new();
    waiting.insert_pending("id");
    hub_for(&mut registry, "k", &vec![], waiting);
    let idle = || HubUse {
        referenced: false,
        running: false,
    };
    let at = hub_for(&mut registry, "k", &vec![idle()], TurnHub::new());
    assert_eq!(registry.len(), 1);
    assert!(registry.hub_at(at).is_pending("id"));
    // Asking for another session is what reclaims it.
    let other = hub_for(&mut registry, "l", &vec![idle()], TurnHub::new());
    assert_eq!(registry.find("k"), None);
    assert_eq!((registry.len(), registry.find("l")), (1, Some(other)));
}

#[test]
fn a_drain_takes_what_was_accepted_and_not_read_in_order() {
    let (tx, mut rx) = mpsc::channel(3);
    let mut hub = TurnHub::new();
    hub.begin(tx);
    assert!(hub.steer("read".into()).is_ok());
    assert_eq!(rx.try_recv().unwrap(), "read");
    for content in ["one", "two", "three"] {
        assert!(hub.steer(content.into()).is_ok());
    }
    assert!(matches!(hub.steer("refused".into()), Err(SteerRefusal::Full(m)) if m == "refused"));
    assert_eq!(hub.take_unread_steering(&mut rx, true), ["one", "two", "three"]);
    assert!(hub.steer("four".into()).is_ok());
    assert_eq!(hub.take_unread_steering(&mut rx, false), ["four"]);
}

#[test]
fn replayable_types_are_those_that_are_rendered_again() {
    for good in [
        "chunk",
        "thinking",
        "tool_call",
        "tool_result",
        "plan",
        "approval_request",
    ] {
        assert!(is_replayable(good), "{good}");
    }
    for bad in ["done", "aborted", "error", "", "Chunk"] {
        assert!(!is_replayable(bad), "{bad}");
    }
}

#[test]
fn a_delta_without_text_merges_as_nothing() {
    let mut hub = started();
    hub.push(&json("{\"type\":\"chunk\"}"));
    hub.push(&json("{\"type\":\"chunk\",\"content\":\"x\"}"));
    hub.push(&json("{\"type\":\"chunk\",\"content\":7}"));
    let (_, frames) = hub.attach().expect("running");
    assert_eq!(frames.len(), 1);
    assert_eq!(field(&frames[0], "content"), "x");
}

#[test]
fn raw_deltas_are_broadcast_whatever_the_buffer_merges() {
    let mut hub = started();
    let (mut live, _) = hub.attach().expect("running");
    hub.push(&json("{\"type\":\"chunk\",\"content\":\"a\"}"));
    hub.push(&json("{\"type\":\"chunk\",\"content\":\"b\"}"));
    assert_eq!(field(&json(&live.try_recv().unwrap().text), "content"), "a");
    assert_eq!(field(&json(&live.try_recv().unwrap().text), "content"), "b");
}

#[test]
fn each_run_of_deltas_is_replayed_as_its_first_frame() {
    let mut hub = started();
    let (mut live, _) = hub.attach().expect("running");
    let frames = [
        "{\"type\":\"chunk\",\"content\":\"a\",\"n\":1}",
        "{\"type\":\"chunk\",\"content\":\"b\",\"n\":2}",
        "{\"type\":\"ping\"}",
        "{\"type\":\"chunk\",\"content\":\"c\",\"n\":3}",
        "{\"type\":\"thinking\",\"content\":\"d\"}",
        "{\"type\":\"tool_call\",\"id\":\"1\"}",
        "{\"type\":\"tool_call\",\"id\":\"2\"}",
        "{\"type\":\"thinking\",\"content\":\"e\"}",
        "{\"type\":\"thinking\"}",
        "{\"type\":\"chunk\"}",
    ];
    for frame in frames {
        hub.push(&json(frame));
    }
    let (_, shown) = hub.attach().expect("running");
    let shown: Vec<String> = shown.iter().map(|f| f.render()).collect();
    assert_eq!(
        shown,
        [
            "{\"content\":\"abc\",\"n\":1,\"type\":\"chunk\"}",
            "{\"content\":\"d\",\"type\":\"thinking\"}",
            "{\"id\":\"1\",\"type\":\"tool_call\"}",
            "{\"id\":\"2\",\"type\":\"tool_call\"}",
            "{\"content\":\"e\",\"type\":\"thinking\"}",
            "{\"type\":\"chunk\"}",
        ]
    );
    for frame in frames.iter().filter(|f| !f.contains("ping")) {
        let got = live.try_recv().unwrap();
        assert_eq!((got.text, got.last), (json(frame).render(), false));
    }
    assert!(live.try_recv().is_err());
}

#[test]
fn pending_requests_come_and_go() {
    let mut pending = PendingApprovals::new();
    assert!(!pending.contains("a"));
    pending.insert("a");
    pending.insert("a");
    pending.insert("b");
    assert!(pending.contains("a") && pending.contains("b"));
    pending.remove("a");
    assert!(!pending.contains("a") && pending.contains("b"));
    let mut hub = TurnHub::new();
    hub.insert_pending("a");
    hub.insert_pending("b");
    hub.remove_pending("a");
    assert!(!hub.is_pending("a") && hub.is_pending("b"));
}
