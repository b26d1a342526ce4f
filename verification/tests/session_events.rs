use zeroclaw_sessions::json::Json;
use zeroclaw_sessions::session_events::{
    build_session_event, build_session_event_at, fields_from_backend, session_id,
    SessionEventFields, SessionEventKind, SessionRow,
};

fn full_fields() -> SessionEventFields {
    SessionEventFields {
        agent_alias: Some("default".into()),
        name: Some("release-check".into()),
        message_count: Some(7),
        state: Some("idle".into()),
    }
}

fn text<'a>(frame: &'a Json, key: &str) -> &'a str {
    frame.text_field(key).unwrap_or("(none)")
}

#[test]
fn gateway_key_is_stripped_to_display_id() {
    let frame = build_session_event(
        SessionEventKind::Created,
        "gw_abc-123",
        &SessionEventFields::default(),
    );
    assert_eq!(text(&frame, "type"), "session_created");
    assert_eq!(text(&frame, "source"), "sessions");
    assert_eq!(text(&frame, "session_key"), "gw_abc-123");
    assert_eq!(text(&frame, "session_id"), "abc-123");
    assert!(frame.text_field("timestamp").is_some());
}

#[test]
fn channel_composite_key_is_display_id_verbatim() {
    let frame = build_session_event(
        SessionEventKind::Update,
        "discord.clamps_room1_alice",
        &SessionEventFields::default(),
    );
    assert_eq!(text(&frame, "session_id"), "discord.clamps_room1_alice");
    assert_eq!(text(&frame, "session_key"), "discord.clamps_room1_alice");
}

#[test]
fn frames_carry_metadata_only_never_content() {
    let allowed = [
        "type",
        "source",
        "session_key",
        "session_id",
        "timestamp",
        "agent_alias",
        "name",
        "message_count",
        "state",
    ];
    for kind in [
        SessionEventKind::Created,
        SessionEventKind::Update,
        SessionEventKind::Closed,
    ] {
        let frame = build_session_event(kind, "gw_abc", &full_fields());
        assert!(
            frame.get("content").is_none(),
            "lifecycle frames must never carry message content"
        );
        let Json::Object(fields) = &frame else {
            panic!("frame is an object");
        };
        for i in 0..fields.len() {
            let key = fields.name_at(i);
            assert!(
                allowed.contains(&key),
                "unexpected key `{key}` on lifecycle frame"
            );
        }
    }
}

#[test]
fn optional_fields_are_included_when_set() {
    let frame = build_session_event(SessionEventKind::Update, "gw_abc", &full_fields());
    assert_eq!(text(&frame, "agent_alias"), "default");
    assert_eq!(text(&frame, "name"), "release-check");
    assert_eq!(frame.get("message_count").unwrap().as_u64(), Some(7));
    assert_eq!(text(&frame, "state"), "idle");
}

#[test]
fn a_frame_for_a_known_moment_is_exact() {
    let frame = build_session_event_at(
        SessionEventKind::Closed,
        "gw_gone",
        &full_fields(),
        "2026-08-17T10:00:00+00:00",
    );
    assert_eq!(
        frame.render(),
        "{\"agent_alias\":\"default\",\"message_count\":7,\"name\":\"release-check\",\
         \"session_id\":\"gone\",\"session_key\":\"gw_gone\",\"source\":\"sessions\",\
         \"state\":\"idle\",\"timestamp\":\"2026-08-17T10:00:00+00:00\",\
         \"type\":\"session_closed\"}"
    );
}

#[test]
fn a_frame_is_stamped_with_a_time_of_this_century() {
    let frame = build_session_event(
        SessionEventKind::Created,
        "k",
        &SessionEventFields::default(),
    );
    let stamp = text(&frame, "timestamp");
    assert!(stamp.starts_with("20"), "{stamp}");
    assert!(stamp.ends_with("+00:00"), "{stamp}");
    assert_eq!(stamp.as_bytes()[10], b'T');
}

#[test]
fn fields_come_from_the_rows_that_are_there() {
    let none = fields_from_backend(None, None);
    assert!(none.agent_alias.is_none() && none.name.is_none());
    assert!(none.message_count.is_none() && none.state.is_none());
    let some = fields_from_backend(
        Some(SessionRow {
            agent_alias: Some("comfy".into()),
            name: None,
            message_count: 3,
        }),
        Some("running".into()),
    );
    assert_eq!(some.agent_alias.as_deref(), Some("comfy"));
    assert_eq!(some.name, None);
    assert_eq!(some.message_count, Some(3));
    assert_eq!(some.state.as_deref(), Some("running"));
}

#[test]
fn only_the_gateway_prefix_is_stripped() {
    assert_eq!(session_id("gw_"), "");
    assert_eq!(session_id("gw"), "gw");
    assert_eq!(session_id("rpc_1"), "rpc_1");
    assert_eq!(session_id("gw_gw_1"), "gw_1");
}
