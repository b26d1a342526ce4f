use zeroclaw_sessions::render_delivery::{
    authoritative_files, image_markers, is_marker_payload, is_servable_file, lookup_since,
    lookup_wanted, needs_reconcile, reconcile, rewrite, rewrite_with, ChatMessage, ConversationMessage, Rewrite,
    ToolResultMessage,
};
use zeroclaw_sessions::session_jobs::Deliverable;

fn owned(texts: &[&str]) -> Vec<String> {
    texts.iter().map(|t| t.to_string()).collect()
}

fn chat(role: &str, content: &str) -> ConversationMessage {
    ConversationMessage::Chat(ChatMessage {
        role: role.to_string(),
        content: content.to_string(),
    })
}

fn tool(content: &str) -> ConversationMessage {
    ConversationMessage::ToolResults(vec![ToolResultMessage {
        tool_call_id: "1".into(),
        content: content.into(),
        tool_name: "shell".into(),
    }])
}

fn render(path: &str, kind: &str) -> Deliverable {
    Deliverable {
        job: "cg-1".into(),
        index: 0,
        label: "cg_one".into(),
        kind: kind.into(),
        path: path.into(),
        source: "cache".into(),
    }
}

fn content(messages: &[ConversationMessage], i: usize) -> String {
    match &messages[i] {
        ConversationMessage::Chat(c) => c.content.clone(),
        _ => unreachable!(),
    }
}

#[test]
fn a_fabricated_marker_is_replaced_by_the_receipt_render() {
    let real = "/renders/cg-job-0.png".to_string();
    let files = vec![real.clone()];
    let reply = "[IMAGE:/home/x/.zeroclaw/agents/comfy/workspace/renders/output/cg_078d349a.png]\n\nThere's your taste.";
    let r = rewrite(reply, &vec![real.clone()], &files);
    assert_eq!(r.text, format!("[IMAGE:{real}]\n\nThere's your taste."));
    assert_eq!(r.added, vec![real]);
    assert_eq!(
        r.dropped,
        vec!["/home/x/.zeroclaw/agents/comfy/workspace/renders/output/cg_078d349a.png"]
    );
    assert!(r.kept.is_empty());
}

#[test]
fn an_existing_but_wrong_marker_is_still_replaced_when_a_render_happened() {
    let stale = "/renders/cg_silvermoon_grip.png".to_string();
    let fresh = "/renders/cg-fresh-0.png".to_string();
    let files = vec![stale.clone(), fresh.clone()];
    let r = rewrite(
        &format!("[IMAGE:{stale}]\nLook at her."),
        &vec![fresh.clone()],
        &files,
    );
    assert_eq!(r.text, format!("[IMAGE:{fresh}]\n\nLook at her."));
    assert_eq!(r.dropped, vec![stale]);
}

#[test]
fn two_renders_become_two_lines_in_receipt_order_without_duplicates() {
    let a = "/renders/a.png".to_string();
    let b = "/renders/b.png".to_string();
    let files = vec![a.clone(), b.clone()];
    let r = rewrite(
        "Three variants.",
        &vec![a.clone(), b.clone(), a.clone()],
        &files,
    );
    assert_eq!(
        r.text,
        format!("[IMAGE:{a}]\n[IMAGE:{b}]\n\nThree variants.")
    );
    assert_eq!(r.added, vec![a, b]);
}

#[test]
fn without_a_render_only_unservable_markers_are_dropped() {
    let real = "/renders/old.png".to_string();
    let missing = "/renders/gone.png".to_string();
    let files = vec![real.clone()];
    let reply = format!(
        "[IMAGE:{real}]\n[IMAGE:{missing}]\n[image:relative/x.png]\n\nEarlier render, as asked."
    );
    let r = rewrite(&reply, &vec![], &files);
    assert_eq!(
        r.text,
        format!("[IMAGE:{real}]\n\nEarlier render, as asked.")
    );
    assert_eq!(r.kept, vec![real]);
    assert_eq!(r.dropped, vec![missing, "relative/x.png".to_string()]);
    assert!(r.added.is_empty());
}

#[test]
fn a_reply_with_nothing_to_change_is_returned_verbatim() {
    let r = rewrite("Just words.\n\nTwo paragraphs.", &vec![], &vec![]);
    assert_eq!(r.text, "Just words.\n\nTwo paragraphs.");
    assert_eq!(
        r,
        Rewrite {
            text: "Just words.\n\nTwo paragraphs.".into(),
            ..Default::default()
        }
    );
    // Video markers are not this module's business.
    let r = rewrite("[VIDEO:/nowhere/clip.mp4]\nDone.", &vec![], &vec![]);
    assert_eq!(r.text, "[VIDEO:/nowhere/clip.mp4]\nDone.");
}

#[test]
fn a_marker_inside_a_sentence_is_removed_without_eating_the_sentence() {
    let r = rewrite("Saved it as [IMAGE:/nope/x.png] for you.", &vec![], &vec![]);
    assert_eq!(r.text, "Saved it as  for you.");
    assert_eq!(r.dropped, vec!["/nope/x.png"]);
}

#[test]
fn prose_about_the_marker_syntax_is_left_alone() {
    let real = "/renders/r.png".to_string();
    let files = vec![real.clone()];
    let reply = "No `[IMAGE:…]` marker was emitted this turn, and [IMAGE:<path>] is the shape. [IMAGE:] too.";
    let r = rewrite(reply, &vec![real.clone()], &files);
    assert_eq!(r.text, format!("[IMAGE:{real}]\n\n{reply}"));
    assert!(r.dropped.is_empty());
    // A bare file name or a relative path is still a (bad) reference, not prose.
    let r = rewrite(
        "[IMAGE:cg_x.png] and [image:renders/cg_y.jpeg]",
        &vec![],
        &vec![],
    );
    assert_eq!(r.dropped, vec!["cg_x.png", "renders/cg_y.jpeg"]);
}

#[test]
fn reconcile_is_only_triggered_by_image_talk_or_a_render_line() {
    assert!(needs_reconcile("[IMAGE:/x.png]", &vec![]));
    assert!(needs_reconcile(
        "",
        &vec![tool("render: prompt_id=abc seed=1\n[IMAGE:/ws/cg_x.png]")]
    ));
    assert!(needs_reconcile(
        "",
        &vec![tool("review: OK\nrender: prompt_id=abc seed=1")]
    ));
    assert!(!needs_reconcile("hello", &vec![tool("$ ls\nfoo.txt")]));
    assert!(!needs_reconcile(
        "hello",
        &vec![chat("assistant", "[IMAGE:/x.png]")]
    ));
}

#[test]
fn non_final_assistant_messages_lose_markers_and_only_the_last_gains_them() {
    let fresh = "/renders/fresh.png".to_string();
    let files = vec![fresh.clone()];
    let mut messages = vec![
        chat("assistant", "[IMAGE:/bogus/one.png]\nFirst pass."),
        chat("user", "again"),
        chat("assistant", "[IMAGE:/bogus/two.png]\nSecond pass."),
    ];
    let authoritative = vec![fresh.clone()];
    let last = messages
        .iter()
        .rposition(|m| matches!(m, ConversationMessage::Chat(c) if c.role == "assistant"));
    for (index, message) in messages.iter_mut().enumerate() {
        let ConversationMessage::Chat(chat) = message else {
            continue;
        };
        if chat.role != "assistant" {
            continue;
        }
        chat.content =
            rewrite_with(&chat.content, &authoritative, Some(index) == last, &files).text;
    }
    assert_eq!(content(&messages, 0), "First pass.");
    assert_eq!(
        content(&messages, 2),
        format!("[IMAGE:{fresh}]\n\nSecond pass.")
    );
}

#[test]
fn a_turn_is_reconciled_from_the_receipts() {
    let fresh = "/renders/fresh.png".to_string();
    let files = vec![fresh.clone()];
    let mut response = "[IMAGE:/bogus/two.png]\nSecond pass.".to_string();
    let mut messages = vec![
        chat("assistant", "[IMAGE:/bogus/one.png]\nFirst pass."),
        chat("user", "[IMAGE:/mine.png] again"),
        tool("[IMAGE:/bogus/two.png]"),
        chat("assistant", "[IMAGE:/bogus/two.png]\nSecond pass."),
        ConversationMessage::Other,
    ];
    let lookup = Ok(vec![
        render(&fresh, "image"),
        render("/renders/clip.mp4", "video"),
    ]);
    let r = reconcile(&mut response, &mut messages, &lookup, &files);
    assert_eq!(r.added, vec![fresh.clone()]);
    assert_eq!(response, format!("[IMAGE:{fresh}]\n\nSecond pass."));
    assert_eq!(content(&messages, 0), "First pass.");
    assert_eq!(content(&messages, 1), "[IMAGE:/mine.png] again");
    assert_eq!(
        content(&messages, 3),
        format!("[IMAGE:{fresh}]\n\nSecond pass.")
    );
}

#[test]
fn without_receipts_a_servable_marker_stays_and_the_reply_with_it() {
    let old = "/renders/old.png".to_string();
    let files = vec![old.clone()];
    let mut response = format!("[IMAGE:{old}]\nAs asked.");
    let before = response.clone();
    let mut messages = vec![chat("assistant", &before)];
    let r = reconcile(
        &mut response,
        &mut messages,
        &Err("observer timed out".to_string()),
        &files,
    );
    assert_eq!(response, before);
    assert_eq!(content(&messages, 0), before);
    assert_eq!(r.kept, vec![old]);
    assert!(r.added.is_empty() && r.dropped.is_empty());
}

#[test]
fn only_image_receipts_are_authoritative() {
    let lookup = Ok(vec![
        render("/r/a.png", "image"),
        render("/r/b.mp4", "video"),
        render("/r/c.png", "image"),
    ]);
    assert_eq!(authoritative_files(&lookup), owned(&["/r/a.png", "/r/c.png"]));
    assert!(authoritative_files(&Err("no".to_string())).is_empty());
}

#[test]
fn the_lookup_begins_a_second_before_the_turn() {
    assert_eq!(lookup_since(1_789_535_401), 1_789_535_400);
    assert_eq!(lookup_since(0), 0);
}

#[test]
fn receipts_are_looked_up_only_for_a_turn_that_speaks_of_an_image() {
    let none = Vec::new();
    assert_eq!(lookup_wanted(true, "[IMAGE:/x.png]", &none, 8), Some(7));
    assert_eq!(lookup_wanted(true, "[IMAGE:/x.png]", &none, 0), Some(0));
    assert_eq!(lookup_wanted(false, "[IMAGE:/x.png]", &none, 8), None);
    assert_eq!(lookup_wanted(true, "hello", &none, 8), None);
    let rendered = vec![tool("render: prompt_id=abc seed=1")];
    assert_eq!(lookup_wanted(true, "hello", &rendered, 8), Some(7));
    assert_eq!(lookup_wanted(false, "hello", &rendered, 8), None);
}

#[test]
fn the_line_that_a_removed_marker_owned_is_not_left_behind() {
    let renders = owned(&["/r.png"]);
    let left = |text: &str| rewrite_with(text, &renders, false, &vec![]).text;
    assert_eq!(left("A\n[IMAGE:/x.png]\nB"), "A\nB");
    assert_eq!(left("A\r\n  [IMAGE:/x.png] \r\nB"), "A\nB");
    assert_eq!(left("A\n[IMAGE:/x.png] [IMAGE:/y.png]\nB\n[IMAGE:/z.png]"), "A\nB");
    // Blank lines that no marker stood in stay, one for each run.
    assert_eq!(left("A\n\n[IMAGE:/x.png]\n\nB"), "A\n\nB");
    assert_eq!(left("A\n[IMAGE:/x.png]\n\nB"), "A\n\nB");
    assert_eq!(left("A [IMAGE:/x.png]\n\n\nB"), "A \n\nB");
    // A line that says something else too stays.
    assert_eq!(left("A\nsee [IMAGE:/x.png]\nB"), "A\nsee \nB");
    assert_eq!(left("[IMAGE:/x.png]"), "");
}

#[test]
fn a_carriage_return_goes_only_in_front_of_a_line_feed() {
    let left = |text: &str| rewrite_with(text, &vec![], false, &vec![]).text;
    assert_eq!(left("B[IMAGE:/x.png]\r"), "B\r");
    assert_eq!(left("B[IMAGE:/x.png]\r\n"), "B");
    assert_eq!(left("A\r\nB[IMAGE:/x.png]\r\r\nC\r"), "A\nB\r\nC\r");
}

#[test]
fn payloads_that_name_a_resource() {
    for good in [
        "/a/b",
        "~/x",
        "DATA:image/png;base64,AA",
        "comfy-job:1",
        "https://example.org/x",
        "a.PNG",
        "b.jpg",
        "c.jpeg",
        "d.webp",
        "e.gif",
        "f.bmp",
    ] {
        assert!(is_marker_payload(good), "{good}");
    }
    for bad in ["", "…", "<path>", "a.mp4", "path/to/x"] {
        assert!(!is_marker_payload(bad), "{bad}");
    }
}

#[test]
fn markers_are_found_in_any_case_and_in_order() {
    let found = image_markers("é[image: /a.png ] and [IMAGE:/b.png] [IMAGE:/open.png");
    let payloads: Vec<&str> = found.iter().map(|m| m.payload.as_str()).collect();
    assert_eq!(payloads, vec!["/a.png", "/b.png"]);
    assert_eq!((found[0].start, found[0].end), (1, 17));
}

#[test]
fn a_servable_file_is_a_clean_path_to_a_file() {
    let files = owned(&["/a/b.png", "/a/../c.png", "d.png"]);
    assert!(is_servable_file("/a/b.png", &files));
    assert!(!is_servable_file("/a/../c.png", &files));
    assert!(!is_servable_file("d.png", &files));
    assert!(!is_servable_file("/a/x.png", &files));
}
