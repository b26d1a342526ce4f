use zeroclaw_sessions::clock::{Moment, FIRST_SECOND, LAST_SECOND};
use zeroclaw_sessions::json::{Fields, Json};
use zeroclaw_sessions::memory::MemoryEntry;
use zeroclaw_sessions::memory_learning::{
    applied_report, check_expected, curate, expected_key, is_fixture_directory, plan_records,
    plan_target, remaining, resume, validated_report, write_key, CurateFailure, CurateStep,
    Unanswered,
};
use zeroclaw_sessions::text;

fn json(text: &str) -> Json {
    Json::parse(text).expect("a document")
}

fn entry(id: &str, content: &str, superseded: bool) -> MemoryEntry {
    MemoryEntry {
        id: id.into(),
        key: "k".into(),
        content: content.into(),
        category: "core".into(),
        timestamp: "t".into(),
        session_id: None,
        agent_alias: None,
        agent_id: None,
        superseded_by: if superseded { Some("w".to_string()) } else { None },
    }
}

#[test]
fn documents_are_parsed_and_spelled() {
    let value = json(" {\"b\":[1,-2,2.5,true,null],\"a\":\"x\\n\",\"b\":{}} ");
    assert_eq!(value.render(), "{\"a\":\"x\\n\",\"b\":{}}");
    let value = json("[1,-2,2.5,true,null,\"é\"]");
    assert_eq!(value.render(), "[1,-2,2.5,true,null,\"é\"]");
    assert_eq!(json("{\"a\":[1]}").render_pretty(), "{\n  \"a\": [\n    1\n  ]\n}");
    assert!(Json::parse("{").is_none());
    assert!(Json::parse_bytes(b"\xff").is_none());
    assert_eq!(Json::parse_bytes(b"[]").unwrap().render(), "[]");
    assert_eq!(value.copy().render(), value.render());
    assert_eq!(
        Json::from_value(&value.to_value()).render(),
        value.render()
    );
}

#[test]
fn numbers_read_as_what_they_are() {
    assert_eq!(Json::number(u64::MAX).as_u64(), Some(u64::MAX));
    assert_eq!(Json::number(u64::MAX).as_i64(), None);
    assert_eq!(Json::number(7).as_i64(), Some(7));
    assert_eq!(json("-1").as_u64(), None);
    assert_eq!(json("-1").as_i64(), Some(-1));
    assert_eq!(json("1.0").as_u64(), None);
    assert_eq!(json("\"1\"").as_u64(), None);
}

#[test]
fn fields_hold_each_name_once() {
    let mut fields = Fields::new();
    fields.insert("a", Json::number(1));
    fields.insert("b", Json::Bool(false));
    fields.insert("a", Json::text("x"));
    assert_eq!(fields.len(), 2);
    assert_eq!(fields.get("a").unwrap().as_str(), Some("x"));
    assert!(fields.get("c").is_none());
    let mut value = Json::Object(fields);
    value.set("b", Json::Null);
    assert_eq!(value.render(), "{\"a\":\"x\",\"b\":null}");
    let mut list = Json::Array(vec![]);
    list.set("b", Json::Null);
    assert_eq!(list.render(), "[]");
}

#[test]
fn lists_of_texts_are_told_from_other_values() {
    assert_eq!(json("[\"a\",\"b\"]").texts().unwrap(), ["a", "b"]);
    assert!(json("[]").texts().unwrap().is_empty());
    assert_eq!(
        json("null").texts().unwrap_err(),
        "invalid type: null, expected a sequence"
    );
    assert!(json("[\"a\",2]").texts().is_err());
}

#[test]
fn texts_are_lowered_trimmed_and_cut() {
    assert_eq!(text::lower_text("AbÉz"), "abÉz");
    assert_eq!(text::trim("\u{2003} a b\t\n"), "a b");
    assert_eq!(text::trim_end(" a \u{a0}"), " a");
    assert_eq!(text::head_text("héllo", 2), "hé");
    assert_eq!(text::decimal_text(0), "0");
    assert_eq!(text::decimal_text(u64::MAX), u64::MAX.to_string());
    let lines = text::lines_of(&"a\r\n\nb\r".chars().collect());
    assert_eq!(lines, "a\r\n\nb\r".lines().collect::<Vec<_>>());
    assert!(text::fits("é", 2) && !text::fits("é", 1));
}

#[test]
fn moments_are_written_in_utc() {
    let m = Moment::new(1_786_960_800, 5_000_000).unwrap();
    assert_eq!(m.to_rfc3339(), "2026-08-17T10:00:00.005+00:00");
    assert_eq!(m.to_table_text(), "2026-08-17 10:00:00");
    assert_eq!(
        Moment::new(-1, 0).unwrap().to_table_text(),
        "1969-12-31 23:59:59"
    );
}

#[test]
fn moments_are_those_that_have_a_date() {
    assert!(Moment::new(FIRST_SECOND - 1, 0).is_none());
    assert!(Moment::new(LAST_SECOND + 1, 0).is_none());
    assert_eq!(
        Moment::new(FIRST_SECOND, 0).unwrap().to_table_text(),
        "-262143-01-01 00:00:00"
    );
    assert_eq!(
        Moment::new(LAST_SECOND, 0).unwrap().to_table_text(),
        "+262142-12-31 23:59:59"
    );
    assert!(Moment::new(0, 1_000_000_000).is_none());
    assert!(Moment::new(59, 2_000_000_000).is_none());
    assert_eq!(
        Moment::new(-1, 1_000_000_000).unwrap().to_rfc3339(),
        "1969-12-31T23:59:60+00:00"
    );
    assert!(Moment::new(1, 2).unwrap().before(&Moment::new(1, 3).unwrap()));
    assert!(Moment::new(1, 2).unwrap().before(&Moment::new(2, 0).unwrap()));
    assert!(!Moment::new(1, 2).unwrap().before(&Moment::new(1, 2).unwrap()));
    assert!(Moment::new(1_600_000_000, 0).unwrap().before(&Moment::now()));
}

#[test]
fn a_plan_says_what_it_lacks() {
    let full = "{\"data_dir\":\"/d\",\"agent\":\"comfy\",\"embedding\":{\"url\":\"u\",\"model\":\"m\",\"dimensions\":768},\"writes\":[{}],\"expected\":[]}";
    let target = plan_target(&json(full)).unwrap();
    assert_eq!(
        (target.data_dir.as_str(), target.embedding_dimensions),
        ("/d", 768)
    );
    for (part, missing) in [
        ("\"data_dir\":\"/d\"", "data_dir missing"),
        ("\"agent\":\"comfy\"", "agent missing"),
        ("\"url\":\"u\"", "embedding url missing"),
        ("\"model\":\"m\"", "embedding model missing"),
        ("\"dimensions\":768", "embedding dimensions missing"),
    ] {
        let plan = json(&full.replace(part, "\"x\":0"));
        assert_eq!(plan_target(&plan).unwrap_err(), missing);
    }
    let plan = json(full);
    let records = plan_records(&plan).ok().unwrap();
    assert_eq!((records.writes.len(), records.expected.len()), (1, 0));
    assert_eq!(plan_records(&json("{}")).err(), Some("writes missing"));
    assert_eq!(
        plan_records(&json("{\"writes\":[]}")).err(),
        Some("expected records missing")
    );
}

#[test]
fn a_record_is_the_one_that_was_reviewed() {
    let old = json("{\"key\":\"k\",\"id\":\"1\",\"content\":\"c\"}");
    assert_eq!(expected_key(&old).unwrap(), "k");
    assert_eq!(expected_key(&json("{}")).unwrap_err(), "expected key missing");
    assert_eq!(check_expected(&old, Some(&entry("1", "c", false))), Ok(()));
    assert_eq!(check_expected(&old, None), Err("expected record missing"));
    let changed = Err("source changed since the curation plan was reviewed");
    assert_eq!(check_expected(&old, Some(&entry("2", "c", false))), changed);
    assert_eq!(check_expected(&old, Some(&entry("1", "d", false))), changed);
    assert_eq!(
        check_expected(&json("{}"), Some(&entry("1", "c", false))),
        Err("expected ID missing")
    );
    assert_eq!(
        check_expected(&json("{\"id\":\"1\"}"), Some(&entry("1", "c", false))),
        Err("expected content missing")
    );
}

#[test]
fn an_interrupted_write_is_resumed() {
    let write = json("{\"key\":\"k\",\"content\":\"c\",\"supersedes\":[\"1\",\"2\",\"3\"]}");
    assert_eq!(write_key(&write).unwrap(), "k");
    assert_eq!(write_key(&json("{}")).unwrap_err(), "key missing");
    let ids = resume(&write, &entry("9", "c", false)).unwrap().unwrap();
    let rows = vec![
        entry("1", "a", true),
        entry("2", "a", false),
        entry("4", "a", false),
        entry("3", "a", false),
    ];
    assert_eq!(remaining(&ids, &rows), ["2", "3"]);
    assert_eq!(
        resume(&write, &entry("9", "other", false)).unwrap_err(),
        "replacement key changed"
    );
    assert_eq!(
        resume(&json("{}"), &entry("9", "c", false)).unwrap_err(),
        "content missing"
    );
    assert_eq!(
        resume(&json("{\"content\":\"c\"}"), &entry("9", "c", false)),
        Ok(None)
    );
    assert_eq!(
        resume(&json("{\"content\":\"c\",\"supersedes\":[]}"), &entry("9", "c", false)),
        Ok(Some(vec![]))
    );
    assert_eq!(
        resume(&json("{\"content\":\"c\",\"supersedes\":true}"), &entry("9", "c", false))
            .unwrap_err(),
        "invalid type: boolean `true`, expected a sequence"
    );
}

#[test]
fn evaluation_facts_stay_out_of_live_memories() {
    assert!(is_fixture_directory(Some("comfy-learning-eval-7")));
    assert!(!is_fixture_directory(Some("data")));
    assert!(!is_fixture_directory(None));
    assert_eq!(
        validated_report(2).render(),
        "{\"applied\":false,\"validated_writes\":2}"
    );
    assert_eq!(
        applied_report(3, "comfy").render(),
        "{\"agent\":\"comfy\",\"applied\":3}"
    );
}

/// Runs a plan on some entries, by key; tells what it did and what it said.
fn run_plan(plan: &str, apply: bool, rows: &[(&str, MemoryEntry)]) -> (Vec<String>, String) {
    let plan = json(plan);
    let mut log = Vec::new();
    let under = |key: &str| rows.iter().find(|(k, _)| *k == key).map(|(_, e)| e.copy());
    let mut step = curate(&plan, "comfy", apply);
    loop {
        step = match step {
            CurateStep::Check(checking) => {
                log.push(format!("check {}", checking.key()));
                let found = under(checking.key());
                checking.looked_up(Ok(found))
            }
            CurateStep::Look(writing) => {
                log.push(format!("look {}", writing.key()));
                let found = under(writing.key());
                writing.looked_up(Ok(found))
            }
            CurateStep::Export(writing, ids) => {
                log.push(format!("export for {ids:?}"));
                let all = rows.iter().map(|(_, e)| e.copy()).collect();
                writing.exported(&ids, Ok(all))
            }
            CurateStep::Supersede(writing, ids) => {
                log.push(format!("supersede {ids:?} by {}", writing.key()));
                writing.superseded(Ok(()))
            }
            CurateStep::Execute(writing) => {
                log.push(format!("execute {}", writing.write().render()));
                let good = writing.key() != "bad";
                let error = if good { None } else { Some("no".to_string()) };
                writing.executed(Ok((good, error)))
            }
            CurateStep::Done(Ok(report)) => return (log, report.render()),
            CurateStep::Done(Err(CurateFailure::Refused(words))) => return (log, words),
            CurateStep::Done(Err(failure)) => return (log, format!("{failure:?}")),
        };
    }
}

const REVIEWED: &str = "\"expected\":[{\"key\":\"a\",\"id\":\"1\",\"content\":\"x\"},{\"key\":\"b\",\"id\":\"2\",\"content\":\"y\"}]";

#[test]
fn a_plan_checks_the_whole_corpus_before_any_write() {
    let plan = format!("{{\"writes\":[{{\"key\":\"new\",\"content\":\"n\"}}],{REVIEWED}}}");
    let rows = [("a", entry("1", "x", false)), ("b", entry("2", "y", false))];
    let (log, said) = run_plan(&plan, false, &rows);
    assert_eq!(log, ["check a", "check b"]);
    assert_eq!(said, "{\"applied\":false,\"validated_writes\":1}");
    let (log, said) = run_plan(&plan, true, &rows);
    assert_eq!(
        log,
        ["check a", "check b", "look new", "execute {\"content\":\"n\",\"key\":\"new\"}"]
    );
    assert_eq!(said, "{\"agent\":\"comfy\",\"applied\":1}");
    // The last record has changed: nothing is written.
    let changed = [("a", entry("1", "x", false)), ("b", entry("2", "z", false))];
    let (log, said) = run_plan(&plan, true, &changed);
    assert_eq!(log, ["check a", "check b"]);
    assert_eq!(said, "source changed since the curation plan was reviewed");
    let (log, said) = run_plan(&plan, true, &[]);
    assert_eq!((log.len(), said.as_str()), (1, "expected record missing"));
}

#[test]
fn a_plan_resumes_what_is_there_and_executes_what_is_not() {
    let plan = "{\"writes\":[{\"key\":\"k1\",\"content\":\"c\",\"supersedes\":[\"1\",\"2\"]},{\"key\":\"k2\",\"content\":\"c\",\"supersedes\":[]},{\"key\":\"k3\",\"content\":\"c\"},{\"key\":\"bad\"},{}],\"expected\":[]}";
    let rows = [
        ("o1", entry("1", "x", true)),
        ("o2", entry("2", "y", false)),
        ("k1", entry("3", "c", false)),
        ("k2", entry("4", "c", false)),
        ("k3", entry("5", "c", false)),
    ];
    let (log, said) = run_plan(plan, true, &rows);
    assert_eq!(
        log,
        [
            "look k1",
            "export for [\"1\", \"2\"]",
            "supersede [\"2\"] by k1",
            "look k2",
            "export for []",
            "look k3",
            "look bad",
            "execute {\"key\":\"bad\"}",
        ]
    );
    assert_eq!(said, "ToolFailed(Some(\"no\"))");
}

#[test]
fn a_plan_stops_with_what_it_lacks() {
    for (plan, words) in [
        ("{}", "writes missing"),
        ("{\"writes\":[]}", "expected records missing"),
        ("{\"writes\":[],\"expected\":[{}]}", "expected key missing"),
        ("{\"writes\":[{}],\"expected\":[]}", "key missing"),
    ] {
        let (log, said) = run_plan(plan, true, &[]);
        assert!(log.is_empty());
        assert_eq!(said, words);
    }
    let rows = [("k", entry("1", "other", false))];
    let (log, said) = run_plan("{\"writes\":[{\"key\":\"k\",\"content\":\"c\"}],\"expected\":[]}", true, &rows);
    assert_eq!(log, ["look k"]);
    assert_eq!(said, "replacement key changed");
}

#[test]
fn a_plan_stops_where_the_memory_gives_no_answer() {
    let plan = json("{\"writes\":[{\"key\":\"k\",\"content\":\"c\",\"supersedes\":[\"1\"]}],\"expected\":[{\"key\":\"a\",\"id\":\"1\",\"content\":\"x\"}]}");
    let stopped = |step: CurateStep<'_>| {
        matches!(step, CurateStep::Done(Err(CurateFailure::Unanswered)))
    };
    let CurateStep::Check(checking) = curate(&plan, "comfy", true) else {
        panic!("a record to check")
    };
    assert!(stopped(checking.looked_up(Err(Unanswered))));
    let look = || {
        let CurateStep::Check(checking) = curate(&plan, "comfy", true) else {
            panic!("a record to check")
        };
        let CurateStep::Look(writing) = checking.looked_up(Ok(Some(entry("1", "x", false)))) else {
            panic!("a write to look for")
        };
        writing
    };
    assert!(stopped(look().looked_up(Err(Unanswered))));
    let CurateStep::Execute(writing) = look().looked_up(Ok(None)) else {
        panic!("a write to execute")
    };
    assert!(stopped(writing.executed(Err(Unanswered))));
    let export = || {
        let CurateStep::Export(writing, ids) = look().looked_up(Ok(Some(entry("2", "c", false))))
        else {
            panic!("an export")
        };
        (writing, ids)
    };
    let (writing, ids) = export();
    assert!(stopped(writing.exported(&ids, Err(Unanswered))));
    let (writing, ids) = export();
    let CurateStep::Supersede(writing, _) = writing.exported(&ids, Ok(vec![entry("1", "x", false)]))
    else {
        panic!("ids to supersede")
    };
    assert!(stopped(writing.superseded(Err(Unanswered))));
}
