use zeroclaw_sessions::clock::Moment;
use zeroclaw_sessions::json::Json;
use zeroclaw_sessions::sessions_cli::{
    candidates, confirmed, deleted, handle_sessions, is_jsonl_backend, loaded, metadata_json,
    metadata_row, render_table, renamed, resolve_session_key, select, Problem, Report,
    SessionMetadata, SessionsCommands, SessionsStep, StoredMessage,
};

fn moment(seconds: i64) -> Moment {
    Moment::new(seconds, 0).expect("a moment")
}

fn session(key: &str, agent: Option<&str>, channel: Option<&str>, active: i64) -> SessionMetadata {
    SessionMetadata {
        key: key.into(),
        name: None,
        created_at: moment(0),
        last_activity: moment(active),
        message_count: 7,
        agent_alias: agent.map(str::to_string),
        channel_id: channel.map(str::to_string),
        room_id: None,
        sender_id: Some("alice".into()),
    }
}

fn keys(sessions: &[SessionMetadata]) -> Vec<&str> {
    sessions.iter().map(|m| m.key.as_str()).collect()
}

fn message(role: &str, at: Option<i64>) -> StoredMessage {
    StoredMessage {
        role: role.into(),
        content: format!("said by {role}"),
        created_at: at.map(moment),
    }
}

#[test]
fn resolve_session_key_tries_verbatim_then_gw_then_rpc() {
    let existing = vec![
        "discord.clamps_room_alice".to_string(),
        "gw_1234".to_string(),
        "rpc_abcd".to_string(),
    ];
    assert_eq!(
        resolve_session_key(&existing, "discord.clamps_room_alice").as_deref(),
        Some("discord.clamps_room_alice")
    );
    // Verbatim match wins for already-prefixed ids.
    assert_eq!(
        resolve_session_key(&existing, "gw_1234").as_deref(),
        Some("gw_1234")
    );
    assert_eq!(
        resolve_session_key(&existing, "1234").as_deref(),
        Some("gw_1234")
    );
    assert_eq!(
        resolve_session_key(&existing, "abcd").as_deref(),
        Some("rpc_abcd")
    );
    assert_eq!(resolve_session_key(&existing, "missing"), None);
    assert_eq!(candidates("x"), ["x", "gw_x", "rpc_x", "cc_x"]);
}

#[test]
fn the_gateway_form_wins_over_the_rpc_form() {
    let existing = vec!["rpc_1".to_string(), "gw_1".to_string()];
    assert_eq!(resolve_session_key(&existing, "1").as_deref(), Some("gw_1"));
}

#[test]
fn the_form_of_the_coding_hooks_is_tried_last() {
    let mut existing = vec!["cc_9".to_string()];
    assert_eq!(resolve_session_key(&existing, "9").as_deref(), Some("cc_9"));
    assert_eq!(resolve_session_key(&existing, "cc_9").as_deref(), Some("cc_9"));
    assert_eq!(resolve_session_key(&existing, "8"), None);
    existing.push("rpc_9".to_string());
    assert_eq!(resolve_session_key(&existing, "9").as_deref(), Some("rpc_9"));
}

#[test]
fn render_table_aligns_columns_and_trims_trailing_space() {
    let headers = [
        "key".to_string(),
        "name".to_string(),
        "agent".to_string(),
        "channel".to_string(),
        "msgs".to_string(),
        "last activity".to_string(),
    ];
    let rows = vec![
        [
            "gw_1234".to_string(),
            "-".to_string(),
            "default".to_string(),
            "-".to_string(),
            "7".to_string(),
            "2026-08-17 10:00:00".to_string(),
        ],
        [
            "discord.clamps_room_alice".to_string(),
            "triage".to_string(),
            "-".to_string(),
            "discord.clamps".to_string(),
            "12".to_string(),
            "2026-08-16 09:30:00".to_string(),
        ],
    ];
    let lines = render_table(&headers, &rows);
    assert_eq!(lines.len(), 3);
    // Widest key is 25 chars + 2-space gap → the name column starts at 27
    // on every line.
    assert_eq!(lines[0].find("name"), Some(27));
    assert_eq!(lines[1].find('-'), Some(27)); // row 1 name cell is "-"
    assert_eq!(lines[2].find("triage"), Some(27));
    // No trailing padding on any line.
    for line in &lines {
        assert_eq!(line.trim_end(), line);
    }
    assert_eq!(
        lines[0],
        "key                        name    agent    channel         msgs  last activity"
    );
}

#[test]
fn columns_are_measured_in_characters() {
    let cell = |s: &str| s.to_string();
    let headers = [cell("a"), cell("b"), cell("c"), cell("d"), cell("e"), cell("f")];
    let rows = vec![[cell("éé"), cell("x"), cell(""), cell(""), cell(""), cell("")]];
    let lines = render_table(&headers, &rows);
    assert_eq!(lines[0], "a   b  c  d  e  f");
    assert_eq!(lines[1], "éé  x");
    assert_eq!(render_table(&headers, &vec![]).len(), 1);
}

#[test]
fn only_one_name_selects_json_lines() {
    assert!(is_jsonl_backend("jsonl"));
    assert!(!is_jsonl_backend("sqlite") && !is_jsonl_backend("JSONL") && !is_jsonl_backend(""));
}

#[test]
fn metadata_is_written_as_a_document_and_as_a_row() {
    let mut m = session("gw_1", Some("comfy"), None, 1_786_960_800);
    m.name = Some("triage".into());
    assert_eq!(
        metadata_json(&m).render(),
        "{\"agent_alias\":\"comfy\",\"channel_id\":null,\"created_at\":\"1970-01-01T00:00:00+00:00\",\
         \"key\":\"gw_1\",\"last_activity\":\"2026-08-17T10:00:00+00:00\",\"message_count\":7,\
         \"name\":\"triage\",\"room_id\":null,\"sender_id\":\"alice\"}"
    );
    assert_eq!(
        metadata_row(&m),
        ["gw_1", "triage", "comfy", "-", "7", "2026-08-17 10:00:00"]
    );
}

#[test]
fn sessions_are_filtered_newest_first_and_limited() {
    let all = || {
        vec![
            session("a", Some("x"), Some("discord.one"), 10),
            session("b", Some("y"), Some("discord.two"), 30),
            session("c", Some("x"), None, 20),
            session("d", Some("x"), Some("discord.two"), 10),
            session("e", None, Some("slack"), 30),
        ]
    };
    assert_eq!(keys(&select(all(), &None, &None, 10)), ["b", "e", "c", "a", "d"]);
    assert_eq!(
        keys(&select(all(), &Some("x".into()), &None, 2)),
        ["c", "a"]
    );
    assert_eq!(
        keys(&select(all(), &None, &Some("discord".into()), 10)),
        ["b", "a", "d"]
    );
    assert_eq!(
        keys(&select(all(), &Some("x".into()), &Some("discord.t".into()), 10)),
        ["d"]
    );
    assert!(select(all(), &None, &None, 0).is_empty());
}

#[test]
fn a_listing_is_a_table_or_a_document() {
    let list = |json| {
        let SessionsStep::List(query) = handle_sessions(
            SessionsCommands::List {
                agent: None,
                channel: None,
                limit: 1,
                json,
            },
            "sqlite",
        ) else {
            panic!("lists");
        };
        let SessionsStep::Done(Ok(report)) =
            query.listed(vec![session("a", None, None, 1), session("b", None, None, 2)])
        else {
            panic!("done");
        };
        report
    };
    let Report::Table { rows } = list(false) else {
        panic!("a table");
    };
    assert_eq!(rows.len(), 1);
    assert_eq!(rows[0][0], "b");
    let Report::Json { text, unsearchable } = list(true) else {
        panic!("a document");
    };
    assert!(!unsearchable);
    assert!(text.starts_with("[\n  {\n    \"agent_alias\": null"), "{text}");
    let parsed = Json::parse(&text).unwrap();
    assert_eq!(parsed.as_array().unwrap().len(), 1);
}

#[test]
fn a_transcript_shows_its_last_messages() {
    let messages = vec![message("user", Some(1)), message("assistant", None)];
    let Report::Transcript {
        key,
        total,
        messages: shown,
    } = loaded("gw_1".into(), 1, false, &messages)
    else {
        panic!("a transcript");
    };
    assert_eq!((key.as_str(), total, shown.len()), ("gw_1", 2, 1));
    assert_eq!(shown[0].role, "assistant");
    assert_eq!(shown[0].timestamp, "-");
    for limit in [0, 2, 9] {
        let Report::Transcript { messages: all, .. } = loaded("k".into(), limit, false, &messages)
        else {
            panic!("a transcript");
        };
        assert_eq!(all.len(), 2);
        assert_eq!(all[0].timestamp, "1970-01-01T00:00:01+00:00");
    }
    let Report::Json { text, .. } = loaded("gw_1".into(), 1, true, &messages) else {
        panic!("a document");
    };
    assert_eq!(
        Json::parse(&text).unwrap().render(),
        "{\"key\":\"gw_1\",\"message_count\":2,\"messages\":[{\"content\":\"said by assistant\",\"created_at\":null,\"role\":\"assistant\"}]}"
    );
}

#[test]
fn a_search_needs_the_database() {
    let search = |json, backend: &str| {
        let SessionsStep::Search(search) = handle_sessions(
            SessionsCommands::Search {
                keyword: "lamp".into(),
                limit: 5,
                json,
            },
            backend,
        ) else {
            panic!("searches");
        };
        assert_eq!((search.keyword.as_str(), search.limit), ("lamp", 5));
        search
    };
    let none = vec![];
    let some = vec![session("a", None, None, 1)];
    assert!(matches!(
        search(false, "jsonl").found(&none),
        Report::Unsearchable
    ));
    assert!(matches!(
        search(true, "jsonl").found(&none),
        Report::Json { text, unsearchable: true } if text == "[]"
    ));
    assert!(matches!(
        search(false, "sqlite").found(&none),
        Report::NoMatch { keyword } if keyword == "lamp"
    ));
    assert!(matches!(
        search(false, "sqlite").found(&some),
        Report::Table { rows } if rows.len() == 1
    ));
}

fn delete_step(yes: bool, existing: &[&str]) -> SessionsStep {
    let SessionsStep::Resolve(lookup) = handle_sessions(
        SessionsCommands::Delete {
            id: "1".into(),
            yes,
        },
        "sqlite",
    ) else {
        panic!("resolves first");
    };
    assert_eq!(lookup.candidates(), ["1", "gw_1", "rpc_1", "cc_1"]);
    let existing: Vec<String> = existing.iter().map(|k| k.to_string()).collect();
    lookup.resolved(&existing)
}

#[test]
fn a_session_is_deleted_only_with_a_yes() {
    assert!(matches!(
        delete_step(true, &["gw_1"]),
        SessionsStep::Delete { key } if key == "gw_1"
    ));
    assert!(matches!(
        delete_step(false, &["gw_1"]),
        SessionsStep::Confirm { key } if key == "gw_1"
    ));
    assert!(matches!(
        delete_step(true, &["gw_2"]),
        SessionsStep::Done(Err(Problem::NotFound { id })) if id == "1"
    ));
    for yes in ["y\n", " YES ", "Yes"] {
        assert!(matches!(
            confirmed("gw_1".into(), yes),
            SessionsStep::Delete { .. }
        ));
    }
    for no in ["", "n", "yess", "\n"] {
        assert!(matches!(
            confirmed("gw_1".into(), no),
            SessionsStep::Done(Ok(Report::Aborted))
        ));
    }
}

#[test]
fn what_the_store_did_is_reported() {
    assert!(matches!(
        deleted("k".into(), Ok(true)),
        Ok(Report::Deleted { key }) if key == "k"
    ));
    assert!(matches!(
        deleted("k".into(), Ok(false)),
        Ok(Report::NothingDeleted { key }) if key == "k"
    ));
    assert!(matches!(
        deleted("k".into(), Err("io".into())),
        Err(Problem::Failed { context: "delete session", reason }) if reason == "io"
    ));
    assert!(matches!(
        renamed("k".into(), "n".into(), Ok(())),
        Ok(Report::Renamed { key, name }) if key == "k" && name == "n"
    ));
    assert!(matches!(
        renamed("k".into(), "n".into(), Err("io".into())),
        Err(Problem::Failed { context: "set session name", .. })
    ));
}

#[test]
fn showing_and_renaming_resolve_the_key_first() {
    let existing = vec!["rpc_1".to_string()];
    let SessionsStep::Resolve(lookup) = handle_sessions(
        SessionsCommands::Show {
            id: "1".into(),
            limit: 3,
            json: true,
        },
        "sqlite",
    ) else {
        panic!("resolves first");
    };
    assert!(matches!(
        lookup.resolved(&existing),
        SessionsStep::Load { key, limit: 3, json: true } if key == "rpc_1"
    ));
    let SessionsStep::Resolve(lookup) = handle_sessions(
        SessionsCommands::Rename {
            id: "1".into(),
            name: "n".into(),
        },
        "sqlite",
    ) else {
        panic!("resolves first");
    };
    assert!(matches!(
        lookup.resolved(&existing),
        SessionsStep::Rename { key, name } if key == "rpc_1" && name == "n"
    ));
}
