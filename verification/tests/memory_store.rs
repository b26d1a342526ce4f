use zeroclaw_sessions::json::Json;
use zeroclaw_sessions::memory::{MemoryCategory, MemoryEntry};
use zeroclaw_sessions::memory_store::{Failure, MemoryStoreTool, Said, Step, ToolResult};

fn json(text: &str) -> Json {
    Json::parse(text).expect("a document")
}

/// A memory of one agent that can read the entries of a peer.
#[derive(Default)]
struct FakeMemory {
    rows: Vec<(MemoryEntry, bool)>,
    supersede_does_nothing: bool,
    store_fails: bool,
    verdict: Option<String>,
}

fn entry(id: &str, key: &str, content: &str, agent: Option<&str>) -> MemoryEntry {
    MemoryEntry {
        id: id.into(),
        key: key.into(),
        content: content.into(),
        category: "core".into(),
        timestamp: "t".into(),
        session_id: None,
        agent_alias: agent.map(str::to_string),
        agent_id: agent.map(str::to_string),
        superseded_by: None,
    }
}

impl FakeMemory {
    fn add(&mut self, id: &str, key: &str, content: &str, own: bool) {
        let agent = if own { "artist" } else { "peer" };
        self.rows.push((entry(id, key, content, Some(agent)), own));
    }

    fn get(&self, key: &str) -> Option<&MemoryEntry> {
        self.rows.iter().map(|(e, _)| e).find(|e| e.key == key)
    }

    /// Answers the steps of a call until it is done.
    fn run(&mut self, args: &str) -> Result<ToolResult, Failure> {
        let mut step = MemoryStoreTool::new().execute(&json(args));
        loop {
            step = match step {
                Step::Enforce(request) => request.enforced(match &self.verdict {
                    Some(e) => Err(e.clone()),
                    None => Ok(()),
                }),
                Step::Export(work) => {
                    work.exported(Ok(self.rows.iter().map(|(e, _)| e.copy()).collect()))
                }
                Step::Probe(work) => {
                    let taken = self.get(&work.key).is_some();
                    work.probed(Ok(taken))
                }
                Step::Store(work) => {
                    if self.store_fails {
                        work.stored(Err("disk full".into()))
                    } else {
                        let id = format!("id-{}", self.rows.len());
                        let mut stored = entry(&id, &work.key, &work.content, Some("artist"));
                        stored.category = match &work.category {
                            MemoryCategory::Core => "core".into(),
                            MemoryCategory::Daily => "daily".into(),
                            MemoryCategory::Conversation => "conversation".into(),
                            MemoryCategory::Custom(name) => name.clone(),
                        };
                        self.rows.push((stored, true));
                        work.stored(Ok(()))
                    }
                }
                Step::Supersede(work) => {
                    let winner = self.get(&work.key).unwrap().id.clone();
                    if !self.supersede_does_nothing {
                        for (row, own) in &mut self.rows {
                            if *own && work.ids.contains(&row.id) {
                                row.superseded_by = Some(winner.clone());
                            }
                        }
                    }
                    work.superseded(Ok(()))
                }
                Step::LookUp(check) => {
                    let wanted = check.wanted().unwrap();
                    let found = self
                        .rows
                        .iter()
                        .map(|(e, _)| e)
                        .find(|e| e.key == wanted.key && e.agent_id == wanted.agent_id)
                        .map(|e| e.copy());
                    check.looked_up(Ok(found))
                }
                Step::Done(outcome) => return outcome,
            };
        }
    }
}

fn message_key(said: &Said) -> &'static str {
    match said {
        Said::Message(m) => m.key,
        _ => "(no message)",
    }
}

#[test]
fn name_and_schema() {
    let tool = MemoryStoreTool::new();
    assert_eq!(tool.name(), "memory_store");
    assert!(tool.description().starts_with("Store a fact"));
    let schema = tool.parameters_schema("Ids of corrected memories");
    let properties = schema.get("properties").unwrap();
    assert!(matches!(properties.get("key"), Some(Json::Object(_))));
    assert!(matches!(properties.get("content"), Some(Json::Object(_))));
    assert_eq!(schema.text_field("type"), Some("object"));
    let supersedes = properties.get("supersedes").unwrap();
    assert_eq!(supersedes.get("maxItems").unwrap().as_u64(), Some(20));
    assert_eq!(
        supersedes.text_field("description"),
        Some("Ids of corrected memories")
    );
    let required = schema.get("required").unwrap().texts().unwrap();
    assert_eq!(required, ["key", "content"]);
}

#[test]
fn store_core() {
    let mut mem = FakeMemory::default();
    let result = mem
        .run("{\"key\": \"lang\", \"content\": \"Prefers Rust\"}")
        .unwrap();
    assert!(result.success);
    assert!(matches!(&result.output, Said::Text(t) if t == "Stored memory: lang"));
    assert_eq!(mem.get("lang").unwrap().content, "Prefers Rust");
    assert_eq!(mem.get("lang").unwrap().category, "core");
}

#[test]
fn explicit_correction_keeps_history_and_compatible_facts() {
    let mut mem = FakeMemory::default();
    mem.add("old", "backend@old", "Rendering uses the old host", true);
    mem.add("ok", "compatible", "Rendering keeps PNG originals", true);
    for i in 0..1001 {
        mem.add(&format!("s{i}"), &format!("scratch/{i}"), "Temporary", true);
    }
    let same_key = mem
        .run("{\"key\":\"backend@old\", \"content\":\"Overwrite\", \"supersedes\":[\"old\"]}");
    assert!(matches!(same_key, Err(Failure::DistinctKey)));
    assert_eq!(
        mem.get("backend@old").unwrap().content,
        "Rendering uses the old host"
    );
    let result = mem
        .run("{\"key\":\"backend@new\", \"content\":\"Source: explicit user correction; rendering uses the new host\", \"supersedes\":[\"old\"]}")
        .unwrap();
    assert!(result.success, "{:?}", result.error);
    assert_eq!(message_key(&result.output), "tool-memory-store-corrected");
    let winner = mem.get("backend@new").unwrap().id.clone();
    let archived = mem.get("backend@old").unwrap();
    assert_eq!(archived.content, "Rendering uses the old host");
    assert_eq!(archived.superseded_by.as_deref(), Some(winner.as_str()));
    assert!(mem.get("compatible").unwrap().superseded_by.is_none());
}

#[test]
fn correction_cannot_retire_a_readable_peer_memory() {
    let mut mem = FakeMemory::default();
    mem.add("p1", "peer-fact", "Peer likes blue", false);
    let result = mem
        .run("{\"key\":\"untrusted-replacement\", \"content\":\"Peer likes red\", \"supersedes\":[\"p1\"]}")
        .unwrap();
    assert!(!result.success);
    assert_eq!(
        message_key(&result.output),
        "tool-memory-store-correction-incomplete"
    );
    assert!(mem.get("peer-fact").unwrap().superseded_by.is_none());
}

#[test]
fn a_memory_that_supersedes_nothing_completes_no_correction() {
    let mut mem = FakeMemory {
        supersede_does_nothing: true,
        ..Default::default()
    };
    mem.add("old", "a", "x", true);
    let result = mem
        .run("{\"key\":\"b\",\"content\":\"y\",\"supersedes\":[\"old\"]}")
        .unwrap();
    assert!(!result.success);
    let Said::Message(m) = &result.output else {
        panic!("a message");
    };
    assert_eq!(m.args[0].value, "b");
    assert_eq!(m.args[1].value, "1");
    assert_eq!((m.args[0].name, m.args[1].name), ("key", "count"));
}

#[test]
fn store_with_category() {
    let mut mem = FakeMemory::default();
    let result = mem
        .run("{\"key\": \"note\", \"content\": \"Fixed bug\", \"category\": \"daily\"}")
        .unwrap();
    assert!(result.success);
    assert_eq!(mem.get("note").unwrap().category, "daily");
}

#[test]
fn store_with_custom_category() {
    let mut mem = FakeMemory::default();
    let result = mem
        .run("{\"key\": \"proj_note\", \"content\": \"Uses async runtime\", \"category\": \"project\"}")
        .unwrap();
    assert!(result.success);
    let stored = mem.get("proj_note").unwrap();
    assert_eq!(stored.content, "Uses async runtime");
    assert_eq!(stored.category, "project");
}

#[test]
fn store_missing_key() {
    let result = FakeMemory::default().run("{\"content\": \"no key\"}");
    assert!(matches!(result, Err(Failure::MissingKey)));
}

#[test]
fn store_missing_content() {
    let result = FakeMemory::default().run("{\"key\": \"no_content\"}");
    assert!(matches!(result, Err(Failure::MissingContent)));
}

#[test]
fn store_blocked_in_readonly_mode() {
    let mut mem = FakeMemory {
        verdict: Some("cannot act in read-only mode".into()),
        ..Default::default()
    };
    let result = mem
        .run("{\"key\": \"lang\", \"content\": \"Prefers Rust\"}")
        .unwrap();
    assert!(!result.success);
    assert!(result
        .error
        .as_deref()
        .unwrap_or("")
        .contains("read-only mode"));
    assert!(matches!(result.output, Said::Nothing));
    assert!(mem.get("lang").is_none());
}

#[test]
fn store_blocked_when_rate_limited() {
    let mut mem = FakeMemory {
        verdict: Some("Rate limit exceeded".into()),
        ..Default::default()
    };
    // What is superseded is not even looked at.
    let result = mem
        .run("{\"key\": \"lang\", \"content\": \"Prefers Rust\", \"supersedes\": 7}")
        .unwrap();
    assert!(!result.success);
    assert!(result
        .error
        .as_deref()
        .unwrap_or("")
        .contains("Rate limit exceeded"));
    assert!(mem.get("lang").is_none());
}

#[test]
fn predecessors_are_named_once_and_are_not_too_many() {
    let mut mem = FakeMemory::default();
    mem.add("a", "ka", "x", true);
    let twice = mem.run("{\"key\":\"n\",\"content\":\"c\",\"supersedes\":[\"a\",\"a\"]}");
    assert!(matches!(twice, Err(Failure::InvalidPredecessors)));
    let ids: Vec<String> = (0..21).map(|i| format!("\"i{i}\"")).collect();
    let many = mem.run(&format!(
        "{{\"key\":\"n\",\"content\":\"c\",\"supersedes\":[{}]}}",
        ids.join(",")
    ));
    assert!(matches!(many, Err(Failure::InvalidPredecessors)));
    let missing = mem.run("{\"key\":\"n\",\"content\":\"c\",\"supersedes\":[\"zz\"]}");
    assert!(matches!(missing, Err(Failure::MissingPredecessor)));
    let taken = mem.run("{\"key\":\"ka\",\"content\":\"c\",\"supersedes\":[\"zz\"]}");
    assert!(matches!(taken, Err(Failure::MissingPredecessor)));
    mem.add("b", "kb", "y", true);
    let other_taken = mem.run("{\"key\":\"kb\",\"content\":\"c\",\"supersedes\":[\"a\"]}");
    assert!(matches!(other_taken, Err(Failure::DistinctKey)));
    assert_eq!(mem.rows.len(), 2);
}

#[test]
fn twenty_predecessors_can_be_superseded() {
    let mut mem = FakeMemory::default();
    let mut ids = Vec::new();
    for i in 0..20 {
        mem.add(&format!("i{i}"), &format!("k{i}"), "x", true);
        ids.push(format!("\"i{i}\""));
    }
    let result = mem
        .run(&format!(
            "{{\"key\":\"n\",\"content\":\"c\",\"supersedes\":[{}]}}",
            ids.join(",")
        ))
        .unwrap();
    assert!(result.success);
}

#[test]
fn predecessors_are_a_list_of_texts() {
    let result = FakeMemory::default().run("{\"key\":\"n\",\"content\":\"c\",\"supersedes\":[1]}");
    let Err(failure) = result else {
        panic!("refused");
    };
    let Said::Text(words) = failure.said() else {
        panic!("words");
    };
    assert_eq!(words, "invalid type: integer `1`, expected a string");
    assert!(matches!(
        Failure::MissingKey.said(),
        Said::Text(t) if t == "Missing 'key' parameter"
    ));
    assert!(matches!(
        Failure::MissingContent.said(),
        Said::Text(t) if t == "Missing 'content' parameter"
    ));
    assert_eq!(
        message_key(&Failure::DistinctKey.said()),
        "tool-memory-store-distinct-key"
    );
    assert_eq!(
        message_key(&Failure::MissingPredecessor.said()),
        "tool-memory-store-missing-predecessor"
    );
    assert_eq!(
        message_key(&Failure::InvalidPredecessors.said()),
        "tool-memory-store-invalid-predecessors"
    );
}

#[test]
fn failures_of_the_memory_are_passed_on() {
    let mut mem = FakeMemory {
        store_fails: true,
        ..Default::default()
    };
    let result = mem.run("{\"key\":\"n\",\"content\":\"c\"}").unwrap();
    assert!(!result.success);
    assert_eq!(
        result.error.as_deref(),
        Some("Failed to store memory: disk full")
    );

    let tool = MemoryStoreTool::new();
    let args = json("{\"key\":\"n\",\"content\":\"c\",\"supersedes\":[\"a\"]}");
    let Step::Enforce(request) = tool.execute(&args) else {
        panic!("enforce first");
    };
    let Step::Export(work) = request.enforced(Ok(())) else {
        panic!("then export");
    };
    let step = work.exported(Err("locked".into()));
    assert!(matches!(step, Step::Done(Err(Failure::Backend(e))) if e == "locked"));
}

#[test]
fn a_supersede_that_fails_is_reported_as_incomplete() {
    let tool = MemoryStoreTool::new();
    let args = json("{\"key\":\"n\",\"content\":\"c\",\"supersedes\":[\"a\"]}");
    let Step::Enforce(request) = tool.execute(&args) else {
        panic!("enforce first");
    };
    let Step::Export(work) = request.enforced(Ok(())) else {
        panic!("then export");
    };
    let Step::Probe(work) = work.exported(Ok(vec![entry("a", "k", "x", None)])) else {
        panic!("then probe");
    };
    let Step::Store(work) = work.probed(Ok(false)) else {
        panic!("then store");
    };
    let Step::Supersede(work) = work.stored(Ok(())) else {
        panic!("then supersede");
    };
    let Step::Done(Ok(result)) = work.superseded(Err("unsupported".into())) else {
        panic!("then done");
    };
    assert!(!result.success);
    assert_eq!(result.error.as_deref(), Some("unsupported"));
}
