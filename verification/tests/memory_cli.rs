use zeroclaw_sessions::memory::{MemoryCategory, MemoryEntry};
use zeroclaw_sessions::memory_cli::{
    batch_prompt, handle_clear, handle_command, handle_get, handle_list, handle_stats,
    match_prefix, parse_category, reindexed, truncate_content, BatchStep, ClearOutcome, ClearStep,
    GetStep, Listing, Match, MemoryBackendKind, MemoryCommands, Refusal, Scope, Target, Task,
};

fn entry(key: &str, category: &str, alias: Option<&str>, id: Option<&str>) -> MemoryEntry {
    MemoryEntry {
        id: format!("id-{key}"),
        key: key.into(),
        content: format!("content of {key}"),
        category: category.into(),
        timestamp: "2026-08-17".into(),
        session_id: None,
        agent_alias: alias.map(str::to_string),
        agent_id: id.map(str::to_string),
        superseded_by: None,
    }
}

fn two_agents_sharing_user_msg() -> Vec<MemoryEntry> {
    let user_msg = |alias: &str, id: &str, content: &str| MemoryEntry {
        content: content.into(),
        ..entry("user_msg", "conversation", Some(alias), Some(id))
    };
    vec![
        user_msg("comfy", "u1", "a real request"),
        entry("other", "core", Some("comfy"), Some("u1")),
        user_msg("coder", "u2", "a probe prompt"),
    ]
}

/// Runs a deletion by key against some rows, saying `answer` when asked.
fn clear_key(
    rows: &mut Vec<MemoryEntry>,
    key: &str,
    agent: Option<&str>,
    yes: bool,
    answer: bool,
) -> Result<ClearOutcome, String> {
    let mut step = ClearStep::Look(Target {
        key: key.into(),
        agent: agent.map(str::to_string),
        yes,
    });
    loop {
        let all = || -> Vec<MemoryEntry> { rows.iter().map(|e| e.copy()).collect() };
        step = match step {
            ClearStep::Look(target) => {
                let there = rows.iter().any(|e| e.key == target.key);
                target.looked_for(Ok(there))
            }
            ClearStep::Search(target) => target.searched(Ok(all())),
            ClearStep::Holders(target) => target.listed(Ok(all())),
            ClearStep::Confirm(deletion) => {
                assert!(deletion.prompt().starts_with("  Delete '"));
                deletion.confirmed(Ok(answer))
            }
            ClearStep::Forget(deletion) => {
                let before = rows.len();
                rows.retain(|e| {
                    e.key != deletion.target
                        || match &deletion.scope {
                            Scope::Everyone => false,
                            Scope::Agent { id, .. } => e.agent_id.as_ref() != Some(id),
                        }
                });
                let gone = rows.len() < before;
                deletion.forgotten(Ok(gone))
            }
            ClearStep::Done(outcome) => return outcome,
        };
    }
}

#[test]
fn parse_category_known_variants() {
    assert_eq!(parse_category("core"), MemoryCategory::Core);
    assert_eq!(parse_category("daily"), MemoryCategory::Daily);
    assert_eq!(parse_category("conversation"), MemoryCategory::Conversation);
    assert_eq!(parse_category("CORE"), MemoryCategory::Core);
    assert_eq!(parse_category("  Daily  "), MemoryCategory::Daily);
}

#[test]
fn parse_category_custom_fallback() {
    assert_eq!(
        parse_category("project_notes"),
        MemoryCategory::Custom("project_notes".into())
    );
}

#[test]
fn truncate_content_short_text_unchanged() {
    assert_eq!(truncate_content("hello", 10), "hello");
}

#[test]
fn truncate_content_long_text_truncated() {
    let result = truncate_content("this is a very long string", 10);
    assert!(result.ends_with("..."));
    assert!(result.chars().count() <= 10);
    assert_eq!(result, "this is...");
}

#[test]
fn truncate_content_multiline_uses_first_line() {
    assert_eq!(truncate_content("first\nsecond", 20), "first");
}

#[test]
fn truncate_content_empty_string() {
    assert_eq!(truncate_content("", 10), "");
}

#[test]
fn truncate_content_counts_bytes_and_cuts_characters() {
    assert_eq!(truncate_content("éééé", 8), "éééé");
    assert_eq!(truncate_content("éééé", 7), "éééé...");
    assert_eq!(truncate_content("ééééé", 7), "éééé...");
    assert_eq!(truncate_content("abcdef", 2), "...");
    assert_eq!(truncate_content("line\r\nnext", 80), "line");
    assert_eq!(truncate_content("\nnext", 80), "");
}

#[test]
fn clear_by_key_refuses_when_more_than_one_agent_holds_it() {
    let mut rows = two_agents_sharing_user_msg();
    let outcome = clear_key(&mut rows, "user_msg", None, true, true).unwrap();
    assert!(matches!(
        outcome,
        ClearOutcome::HeldByMany { key, holders } if key == "user_msg" && holders == ["comfy", "coder"]
    ));
    assert_eq!(
        rows.iter().filter(|e| e.key == "user_msg").count(),
        2,
        "an ambiguous key must delete nothing at all"
    );
}

#[test]
fn clear_by_key_with_agent_deletes_only_that_agents_row() {
    let mut rows = two_agents_sharing_user_msg();
    let outcome = clear_key(&mut rows, "user_msg", Some("coder"), true, true).unwrap();
    assert!(matches!(outcome, ClearOutcome::Deleted(_)));
    let left: Vec<&MemoryEntry> = rows.iter().filter(|e| e.key == "user_msg").collect();
    assert_eq!(left.len(), 1, "the sibling row must survive");
    assert_eq!(left[0].agent_alias.as_deref(), Some("comfy"));
    assert!(left[0].content.contains("a real request"));
}

#[test]
fn clear_by_key_for_an_agent_that_does_not_hold_it_deletes_nothing() {
    let mut rows = two_agents_sharing_user_msg();
    let outcome = clear_key(&mut rows, "user_msg", Some("voice"), true, true).unwrap();
    assert!(matches!(
        outcome,
        ClearOutcome::NotHeld { agent, holders, .. } if agent == "voice" && holders.len() == 2
    ));
    assert_eq!(rows.len(), 3);
}

#[test]
fn an_unattributed_row_cannot_be_addressed_by_agent() {
    let mut rows = vec![entry("k", "core", Some("comfy"), None)];
    assert_eq!(
        clear_key(&mut rows, "k", Some("comfy"), true, true).unwrap_err(),
        "Backend does not attribute 'k' to an agent, so --agent cannot target it safely."
    );
    assert_eq!(rows.len(), 1);
}

#[test]
fn a_prefix_stands_for_the_one_key_that_begins_with_it() {
    let mut rows = two_agents_sharing_user_msg();
    let outcome = clear_key(&mut rows, "oth", None, true, true).unwrap();
    assert!(matches!(outcome, ClearOutcome::Deleted(d) if d.target == "other"));
    assert_eq!(rows.len(), 2);
    let many = clear_key(&mut rows, "user", None, true, true).unwrap();
    assert!(matches!(many, ClearOutcome::Many { key, entries } if key == "user" && entries.len() == 2));
    let none = clear_key(&mut rows, "zzz", None, true, true).unwrap();
    assert!(matches!(none, ClearOutcome::NotFound { key } if key == "zzz"));
    assert_eq!(rows.len(), 2);
}

#[test]
fn a_no_deletes_nothing() {
    let mut rows = two_agents_sharing_user_msg();
    let outcome = clear_key(&mut rows, "other", None, false, false).unwrap();
    assert!(matches!(outcome, ClearOutcome::Aborted));
    assert_eq!(rows.len(), 3);
    let outcome = clear_key(&mut rows, "other", None, false, true).unwrap();
    assert!(matches!(outcome, ClearOutcome::Deleted(_)));
    assert_eq!(rows.len(), 2);
}

#[test]
fn the_operator_is_asked_about_the_very_deletion() {
    let target = Target {
        key: "user_msg".into(),
        agent: Some("coder".into()),
        yes: false,
    };
    let ClearStep::Confirm(deletion) = target.listed(Ok(two_agents_sharing_user_msg())) else {
        panic!("asks first");
    };
    assert_eq!(
        deletion.prompt(),
        "  Delete 'user_msg' for agent 'coder'?"
    );
    assert!(matches!(
        deletion.forgotten(Ok(false)),
        ClearStep::Done(Ok(ClearOutcome::NothingDeleted))
    ));
}

fn refusal(backend: &str, kind: MemoryBackendKind) -> Refusal {
    handle_command(
        MemoryCommands::Clear {
            key: None,
            agent: None,
            category: None,
            yes: true,
        },
        backend,
        kind,
    )
    .unwrap_err()
}

#[test]
fn clear_rejects_append_only_markdown_backend() {
    let msg = refusal("markdown", MemoryBackendKind::Markdown).text();
    assert!(msg.contains("'markdown'"), "got: {msg}");
}

#[test]
fn clear_rejects_qdrant_backend_constructed_as_markdown() {
    let msg = refusal("qdrant", MemoryBackendKind::Qdrant).text();
    assert!(msg.contains("'qdrant'"), "got: {msg}");
}

#[test]
fn a_disabled_memory_has_nothing_to_manage() {
    for command in [
        MemoryCommands::Stats,
        MemoryCommands::Reindex,
        MemoryCommands::Get { key: "k".into() },
    ] {
        let refused = handle_command(command, "none", MemoryBackendKind::Disabled).unwrap_err();
        assert_eq!(
            refused.text(),
            "Memory backend is 'none' (disabled). No entries to manage."
        );
    }
    assert!(matches!(
        refusal("none", MemoryBackendKind::Disabled),
        Refusal::Disabled
    ));
}

#[test]
fn commands_become_tasks() {
    let task = handle_command(
        MemoryCommands::List {
            category: Some(" Daily".into()),
            session: None,
            limit: 5,
            offset: 1,
        },
        "sqlite",
        MemoryBackendKind::Other,
    )
    .unwrap();
    assert!(matches!(
        task,
        Task::List { category: Some(MemoryCategory::Daily), session: None, limit: 5, offset: 1 }
    ));
    // Listing works on files that are only appended to.
    assert!(handle_command(
        MemoryCommands::Stats,
        "markdown",
        MemoryBackendKind::Markdown
    )
    .is_ok());
    let task = handle_command(
        MemoryCommands::Clear {
            key: None,
            agent: None,
            category: None,
            yes: false,
        },
        "sqlite",
        MemoryBackendKind::Other,
    )
    .unwrap();
    assert!(matches!(
        task,
        Task::Clear { category: None, scope, yes: false } if scope == "all categories"
    ));
    let task = handle_command(
        MemoryCommands::Clear {
            key: Some("k".into()),
            agent: None,
            category: Some("core".into()),
            yes: false,
        },
        "sqlite",
        MemoryBackendKind::Other,
    )
    .unwrap();
    assert!(matches!(task, Task::ClearKey(ClearStep::Look(t)) if t.key == "k"));
}

#[test]
fn listings_are_paged() {
    let rows: Vec<MemoryEntry> = (0..5)
        .map(|i| entry(&format!("k{i}"), "core", None, None))
        .collect();
    assert!(matches!(handle_list(&vec![], 10, 0), Listing::Empty));
    assert!(matches!(
        handle_list(&rows, 2, 5),
        Listing::NoneAtOffset { offset: 5, total: 5 }
    ));
    assert!(matches!(
        handle_list(&rows, 0, 0),
        Listing::NoneAtOffset { offset: 0, total: 5 }
    ));
    let mut keys = Vec::new();
    let mut offset = 0;
    loop {
        let Listing::Page {
            total,
            from,
            to,
            entries,
            next,
        } = handle_list(&rows, 2, offset)
        else {
            panic!("a page");
        };
        assert_eq!((total, from, to), (5, offset + 1, offset + entries.len()));
        keys.extend(entries.iter().map(|e| e.key.clone()));
        match next {
            Some(n) => offset = n,
            None => break,
        }
    }
    assert_eq!(keys, ["k0", "k1", "k2", "k3", "k4"]);
    assert!(matches!(
        handle_list(&rows, usize::MAX, 1),
        Listing::Page { from: 2, to: 5, next: None, .. }
    ));
}

#[test]
fn a_listing_shows_the_beginning_of_the_content() {
    let mut one = entry("k", "core", None, None);
    one.content = "x".repeat(81);
    let Listing::Page { entries, .. } = handle_list(&vec![one], 1, 0) else {
        panic!("a page");
    };
    assert_eq!(entries[0].content, format!("{}...", "x".repeat(77)));
}

#[test]
fn an_entry_is_found_by_its_key_or_by_a_prefix() {
    let rows = two_agents_sharing_user_msg();
    assert!(matches!(
        handle_get(Some(rows[0].copy())),
        GetStep::Done(e) if e.key == "user_msg"
    ));
    assert!(matches!(handle_get(None), GetStep::List));
    assert!(matches!(match_prefix(&rows, "o"), Match::One(e) if e.key == "other"));
    assert!(matches!(match_prefix(&rows, "x"), Match::Missing));
    let Match::Many(many) = match_prefix(&rows, "") else {
        panic!("many");
    };
    assert_eq!(many.len(), 3);
    assert_eq!(many[1].category, "core");
}

#[test]
fn a_batch_is_confirmed_and_counted() {
    let rows = || two_agents_sharing_user_msg();
    assert!(matches!(handle_clear(Ok(vec![]), false), BatchStep::Empty));
    assert!(matches!(
        handle_clear(Err("locked".into()), true),
        BatchStep::Failed(e) if e == "locked"
    ));
    let BatchStep::Confirm(batch) = handle_clear(Ok(rows()), false) else {
        panic!("asks first");
    };
    assert_eq!(batch_prompt(batch.total()), "  Delete 3 entries?");
    assert!(matches!(batch.confirmed(Ok(false)), BatchStep::Aborted));
    let mut step = handle_clear(Ok(rows()), true);
    let mut asked = Vec::new();
    let (deleted, total) = loop {
        step = match step {
            BatchStep::Forget(batch) => {
                let key = batch.next_key().unwrap().to_string();
                let again = asked.contains(&key);
                asked.push(key);
                batch.forgotten(Ok(!again))
            }
            BatchStep::Cleared { deleted, total } => break (deleted, total),
            _ => panic!("deletes"),
        };
    };
    assert_eq!(asked, ["user_msg", "other", "user_msg"]);
    assert_eq!((deleted, total), (2, 3));
}

#[test]
fn categories_are_counted_and_ranked() {
    let rows = vec![
        entry("a", "core", None, None),
        entry("b", "daily", None, None),
        entry("c", "daily", None, None),
        entry("d", "notes", None, None),
        entry("e", "daily", None, None),
        entry("f", "notes", None, None),
    ];
    let counts = handle_stats(&rows);
    let said: Vec<(&str, usize)> = counts
        .iter()
        .map(|c| (c.category.as_str(), c.count))
        .collect();
    assert_eq!(said, [("daily", 3), ("notes", 2), ("core", 1)]);
    assert!(handle_stats(&vec![]).is_empty());
}

#[test]
fn a_new_index_is_reported() {
    assert!(reindexed(0).starts_with("FTS rebuilt. No embeddings to fill in"));
    assert_eq!(reindexed(1), "FTS rebuilt. Re-embedded 1 entry.");
    assert_eq!(reindexed(12), "FTS rebuilt. Re-embedded 12 entries.");
}
