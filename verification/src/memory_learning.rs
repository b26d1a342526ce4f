//! Operator curation of memories: a reviewed plan of writes, checked against the
//! memory before the first of them, and resumed where it was interrupted.
use vstd::prelude::*;

use crate::json;
use crate::json::{Fields, Json};
use crate::memory;
use crate::memory::MemoryEntry;
use crate::text;

verus! {

/// Whether a directory, by its name, is one that evaluation facts may be written
/// to: never that of a live memory.
pub fn is_fixture_directory(name: Option<&str>) -> (out: bool)
    ensures
        out == (match text::option_str_view(name) {
            Some(n) => text::starts_with(n, "comfy-learning-eval-"@),
            None => false,
        }),
{
    match name {
        Some(n) => text::starts_with_text(n, "comfy-learning-eval-"),
        None => false,
    }
}

/// The memory that a plan is about.
#[derive(Debug)]
pub struct PlanTarget {
    pub data_dir: String,
    pub agent: String,
    pub embedding_url: String,
    pub embedding_model: String,
    pub embedding_dimensions: u64,
}

/// What a [`PlanTarget`] says.
pub struct PlanTargetView {
    pub data_dir: Seq<char>,
    pub agent: Seq<char>,
    pub embedding_url: Seq<char>,
    pub embedding_model: Seq<char>,
    pub embedding_dimensions: u64,
}

impl PlanTarget {
    pub open spec fn view(&self) -> PlanTargetView {
        PlanTargetView {
            data_dir: self.data_dir@,
            agent: self.agent@,
            embedding_url: self.embedding_url@,
            embedding_model: self.embedding_model@,
            embedding_dimensions: self.embedding_dimensions,
        }
    }
}

/// The memory that a plan is about, or what the plan lacks.
pub open spec fn plan_target_spec(plan: json::Document) -> Result<PlanTargetView, Seq<char>> {
    let embedding = plan.at("embedding"@);
    match plan.at("data_dir"@).as_text() {
        None => Err("data_dir missing"@),
        Some(data_dir) => match plan.at("agent"@).as_text() {
            None => Err("agent missing"@),
            Some(agent) => match embedding.at("url"@).as_text() {
                None => Err("embedding url missing"@),
                Some(embedding_url) => match embedding.at("model"@).as_text() {
                    None => Err("embedding model missing"@),
                    Some(embedding_model) => match embedding.at("dimensions"@).as_u64() {
                        None => Err("embedding dimensions missing"@),
                        Some(embedding_dimensions) => Ok(
                            PlanTargetView {
                                data_dir,
                                agent,
                                embedding_url,
                                embedding_model,
                                embedding_dimensions,
                            },
                        ),
                    },
                },
            },
        },
    }
}

/// The text in a field, or what is said where there is none.
fn required_text<'a>(value: &'a Json, key: &str, missing: &'static str) -> (out: Result<
    &'a str,
    &'static str,
>)
    ensures
        match out {
            Ok(s) => value@.at(key@) == json::Document::Text(s@),
            Err(e) => !(value@.at(key@) is Text) && e@ == missing@,
        },
{
    match value.text_field(key) {
        Some(s) => Ok(s),
        None => Err(missing),
    }
}

/// The memory that a plan is about, or what the plan lacks.
pub fn plan_target(plan: &Json) -> (out: Result<PlanTarget, &'static str>)
    ensures
        plan_target_spec(plan@) == (match out {
            Ok(target) => Ok(target@),
            Err(e) => Err(e@),
        }),
{
    let data_dir: &str = match required_text(plan, "data_dir", "data_dir missing") {
        Ok(s) => s,
        Err(e) => return Err(e),
    };
    let agent: &str = match required_text(plan, "agent", "agent missing") {
        Ok(s) => s,
        Err(e) => return Err(e),
    };
    let embedding: &Json = match plan.get("embedding") {
        Some(embedding) => embedding,
        None => return Err("embedding url missing"),
    };
    let url: &str = match required_text(embedding, "url", "embedding url missing") {
        Ok(s) => s,
        Err(e) => return Err(e),
    };
    let model: &str = match required_text(embedding, "model", "embedding model missing") {
        Ok(s) => s,
        Err(e) => return Err(e),
    };
    let dimensions: Option<u64> = match embedding.get("dimensions") {
        Some(n) => n.as_u64(),
        None => None,
    };
    match dimensions {
        Some(embedding_dimensions) => Ok(
            PlanTarget {
                data_dir: data_dir.to_owned(),
                agent: agent.to_owned(),
                embedding_url: url.to_owned(),
                embedding_model: model.to_owned(),
                embedding_dimensions,
            },
        ),
        None => Err("embedding dimensions missing"),
    }
}

/// The records of a plan: what it writes, and what it expects to find.
pub struct PlanRecords<'a> {
    pub writes: &'a Vec<Json>,
    pub expected: &'a Vec<Json>,
}

/// The records of a plan, or what the plan lacks.
pub fn plan_records(plan: &Json) -> (out: Result<PlanRecords<'_>, &'static str>)
    ensures
        match out {
            Ok(records) => plan@.at("writes"@) == json::Document::Array(
                json::documents_of(records.writes@),
            ) && plan@.at("expected"@) == json::Document::Array(
                json::documents_of(records.expected@),
            ),
            Err(e) => if plan@.at("writes"@) is Array {
                !(plan@.at("expected"@) is Array) && e@ == "expected records missing"@
            } else {
                e@ == "writes missing"@
            },
        },
{
    let writes: &Vec<Json> = match plan.get("writes") {
        Some(value) => match value.as_array() {
            Some(items) => items,
            None => return Err("writes missing"),
        },
        None => return Err("writes missing"),
    };
    match plan.get("expected") {
        Some(value) => match value.as_array() {
            Some(expected) => Ok(PlanRecords { writes, expected }),
            None => Err("expected records missing"),
        },
        None => Err("expected records missing"),
    }
}

/// The key under which a record is expected.
pub fn expected_key(old: &Json) -> (out: Result<&str, &'static str>)
    ensures
        match out {
            Ok(key) => old@.at("key"@) == json::Document::Text(key@),
            Err(e) => !(old@.at("key"@) is Text) && e@ == "expected key missing"@,
        },
{
    required_text(old, "key", "expected key missing")
}

/// Whether a record is the one that was reviewed. An id alone is no evidence:
/// the content must be the same too.
pub open spec fn expected_spec(old: json::Document, entry: Option<memory::EntryView>) -> Result<
    (),
    Seq<char>,
> {
    match entry {
        None => Err("expected record missing"@),
        Some(found) => match old.at("id"@).as_text() {
            None => Err("expected ID missing"@),
            Some(id) => if found.id != id {
                Err("source changed since the curation plan was reviewed"@)
            } else {
                match old.at("content"@).as_text() {
                    None => Err("expected content missing"@),
                    Some(content) => if found.content != content {
                        Err("source changed since the curation plan was reviewed"@)
                    } else {
                        Ok(())
                    },
                }
            },
        },
    }
}

/// Whether a record is the one that was reviewed.
pub fn check_expected(old: &Json, entry: Option<&MemoryEntry>) -> (out: Result<(), &'static str>)
    ensures
        expected_spec(
            old@,
            match entry {
                Some(found) => Some(found@),
                None => None,
            },
        ) == (match out {
            Ok(()) => Ok(()),
            Err(e) => Err(e@),
        }),
{
    let found: &MemoryEntry = match entry {
        Some(found) => found,
        None => return Err("expected record missing"),
    };
    let id: &str = match required_text(old, "id", "expected ID missing") {
        Ok(id) => id,
        Err(e) => return Err(e),
    };
    if !text::same(found.id.as_str(), id) {
        return Err("source changed since the curation plan was reviewed");
    }
    let content: &str = match required_text(old, "content", "expected content missing") {
        Ok(content) => content,
        Err(e) => return Err(e),
    };
    if !text::same(found.content.as_str(), content) {
        return Err("source changed since the curation plan was reviewed");
    }
    Ok(())
}

/// The key of a write.
pub fn write_key(write: &Json) -> (out: Result<&str, &'static str>)
    ensures
        match out {
            Ok(key) => write@.at("key"@) == json::Document::Text(key@),
            Err(e) => !(write@.at("key"@) is Text) && e@ == "key missing"@,
        },
{
    required_text(write, "key", "key missing")
}

/// The ids that an interrupted write names as superseded, where it names any; or
/// why it cannot be resumed.
pub open spec fn resumed(write: json::Document, content: Seq<char>) -> Result<
    Option<Seq<Seq<char>>>,
    Seq<char>,
> {
    match write.at("content"@).as_text() {
        None => Err("content missing"@),
        Some(planned) => if planned != content {
            Err("replacement key changed"@)
        } else {
            match write.get("supersedes"@) {
                None => Ok(None),
                Some(ids) => match ids.as_texts() {
                    Some(ids) => Ok(Some(ids)),
                    None => Err(json::texts_error(ids)),
                },
            }
        },
    }
}

/// Resumes a write whose entry is there already, without erasing it or writing
/// it twice: the ids that it names as superseded, where it names any.
pub fn resume(write: &Json, existing: &MemoryEntry) -> (out: Result<Option<Vec<String>>, String>)
    ensures
        resumed(write@, existing@.content) == (match out {
            Ok(Some(ids)) => Ok(Some(text::views(ids@))),
            Ok(None) => Ok(None),
            Err(e) => Err(e@),
        }),
{
    match required_text(write, "content", "content missing") {
        Err(e) => Err(e.to_owned()),
        Ok(planned) => {
            if !text::same(existing.content.as_str(), planned) {
                return Err("replacement key changed".to_owned());
            }
            match write.get("supersedes") {
                None => Ok(None),
                Some(ids) => match ids.texts() {
                    Ok(ids) => Ok(Some(ids)),
                    Err(e) => Err(e),
                },
            }
        },
    }
}

/// The ids of the entries among those named that are still recalled.
pub open spec fn remaining_ids(ids: Seq<Seq<char>>, entries: Seq<memory::EntryView>) -> Seq<
    Seq<char>,
> {
    entries.filter(
        |e: memory::EntryView| ids.contains(e.id) && e.superseded_by is None,
    ).map_values(|e: memory::EntryView| e.id)
}

/// The ids of the entries among those named that are still recalled.
pub fn remaining(ids: &Vec<String>, entries: &Vec<MemoryEntry>) -> (out: Vec<String>)
    ensures
        text::views(out@) == remaining_ids(text::views(ids@), memory::entry_views(entries@)),
{
    let ghost all = memory::entry_views(entries@);
    let ghost named = text::views(ids@);
    let ghost keep = |e: memory::EntryView| named.contains(e.id) && e.superseded_by is None;
    let ghost show = |e: memory::EntryView| e.id;
    let mut out: Vec<String> = Vec::new();
    let mut i: usize = 0;
    proof {
        reveal(Seq::filter);
        assert(all.take(0).filter(keep) =~= Seq::<memory::EntryView>::empty());
        assert(text::views(out@) =~= all.take(0).filter(keep).map_values(show));
    }
    while i < entries.len()
        invariant
            i <= entries@.len(),
            all == memory::entry_views(entries@),
            named == text::views(ids@),
            keep == (|e: memory::EntryView| named.contains(e.id) && e.superseded_by is None),
            show == (|e: memory::EntryView| e.id),
            text::views(out@) == all.take(i as int).filter(keep).map_values(show),
        decreases entries@.len() - i,
    {
        let entry: &MemoryEntry = &entries[i];
        let ghost before = text::views(out@);
        let ghost kept = all.take(i as int).filter(keep);
        proof {
            reveal(Seq::filter);
            assert(all.take(i + 1).drop_last() =~= all.take(i as int));
            assert(all.take(i + 1).last() == entry@);
        }
        if text::any_same(ids, entry.id.as_str()) && entry.superseded_by.is_none() {
            out.push(entry.id.clone());
            proof {
                assert(text::views(out@) =~= before.push(entry@.id));
                assert(kept.push(entry@).map_values(show) =~= before.push(entry@.id));
            }
        }
        i += 1;
    }
    proof {
        assert(all.take(i as int) =~= all);
    }
    out
}

/// What is said of a plan that has been checked and not applied.
pub open spec fn validated_document(writes: nat) -> json::Document {
    json::Document::Object(
        Map::<Seq<char>, json::Document>::empty().insert(
            "validated_writes"@,
            json::Document::Number(json::number_of(writes as u64)),
        ).insert("applied"@, json::Document::Bool(false)),
    )
}

/// What is said of a plan that has been checked and not applied.
pub fn validated_report(writes: usize) -> (out: Json)
    ensures
        out@ == validated_document(writes as nat),
{
    let mut fields: Fields = Fields::new();
    fields.insert("validated_writes", Json::number(writes as u64));
    fields.insert("applied", Json::Bool(false));
    Json::Object(fields)
}

/// What is said of a plan that has been applied.
pub open spec fn applied_document(applied: nat, agent: Seq<char>) -> json::Document {
    json::Document::Object(
        Map::<Seq<char>, json::Document>::empty().insert(
            "applied"@,
            json::Document::Number(json::number_of(applied as u64)),
        ).insert("agent"@, json::Document::Text(agent)),
    )
}

/// What is said of a plan that has been applied.
pub fn applied_report(applied: usize, agent: &str) -> (out: Json)
    ensures
        out@ == applied_document(applied as nat, agent@),
{
    let mut fields: Fields = Fields::new();
    fields.insert("applied", Json::number(applied as u64));
    fields.insert("agent", Json::text(agent));
    Json::Object(fields)
}

/// The memory, or the tool on it, gave no answer.
#[derive(Clone, Copy, Debug, PartialEq, Eq, Structural)]
pub struct Unanswered;

/// Why a curation stopped.
#[derive(Debug)]
pub enum CurateFailure {
    /// The plan lacks something, or the memory is not as it was reviewed.
    Refused(String),
    /// The memory, or the tool on it, gave no answer.
    Unanswered,
    /// The tool refused a write, and what it said.
    ToolFailed(Option<String>),
}

/// What a [`CurateFailure`] says.
pub enum CurateFailureView {
    Refused(Seq<char>),
    Unanswered,
    ToolFailed(Option<Seq<char>>),
}

impl CurateFailure {
    pub open spec fn view(&self) -> CurateFailureView {
        match self {
            CurateFailure::Refused(words) => CurateFailureView::Refused(words@),
            CurateFailure::Unanswered => CurateFailureView::Unanswered,
            CurateFailure::ToolFailed(error) => CurateFailureView::ToolFailed(
                text::option_view(*error),
            ),
        }
    }
}

/// A plan under way: what it writes, what it expects to find, for which agent,
/// and whether it is applied or only checked.
#[derive(Clone, Copy)]
pub struct Curation<'a> {
    writes: &'a Vec<Json>,
    expected: &'a Vec<Json>,
    agent: &'a str,
    apply: bool,
}

/// What a [`Curation`] says.
pub struct CurationView {
    pub writes: Seq<json::Document>,
    pub expected: Seq<json::Document>,
    pub agent: Seq<char>,
    pub apply: bool,
}

impl<'a> Curation<'a> {
    pub closed spec fn view(&self) -> CurationView {
        CurationView {
            writes: json::documents_of(self.writes@),
            expected: json::documents_of(self.expected@),
            agent: self.agent@,
            apply: self.apply,
        }
    }
}

/// An expected record that is to be looked up.
pub struct Checking<'a> {
    curation: Curation<'a>,
    at: usize,
    key: &'a str,
}

/// A write that is under way.
pub struct Writing<'a> {
    curation: Curation<'a>,
    at: usize,
    key: &'a str,
}

/// One record of a plan: which one, and its key.
pub struct PlaceView {
    pub curation: CurationView,
    pub at: int,
    pub key: Seq<char>,
}

impl<'a> Checking<'a> {
    #[verifier::type_invariant]
    spec fn is_in_plan(self) -> bool {
        self.at < self.curation.expected.len()
    }

    pub closed spec fn view(&self) -> PlaceView {
        PlaceView { curation: self.curation@, at: self.at as int, key: self.key@ }
    }
}

impl<'a> Writing<'a> {
    #[verifier::type_invariant]
    spec fn is_in_plan(self) -> bool {
        self.at < self.curation.writes.len()
    }

    pub closed spec fn view(&self) -> PlaceView {
        PlaceView { curation: self.curation@, at: self.at as int, key: self.key@ }
    }
}

/// What a curation does next.
pub enum CurateStep<'a> {
    /// Get the entry under the key of an expected record.
    Check(Checking<'a>),
    /// Get the entry under the key of a write.
    Look(Writing<'a>),
    /// Export all entries, to see which of the ids are still recalled.
    Export(Writing<'a>, Vec<String>),
    /// Have the ids superseded by the key of the write.
    Supersede(Writing<'a>, Vec<String>),
    /// Have the tool execute the write.
    Execute(Writing<'a>),
    /// Say what was done, or why not.
    Done(Result<Json, CurateFailure>),
}

/// What a [`CurateStep`] says.
pub enum CurateStepView {
    Check(PlaceView),
    Look(PlaceView),
    Export(PlaceView, Seq<Seq<char>>),
    Supersede(PlaceView, Seq<Seq<char>>),
    Execute(PlaceView),
    Done(Result<json::Document, CurateFailureView>),
}

impl<'a> CurateStep<'a> {
    pub open spec fn view(&self) -> CurateStepView {
        match self {
            CurateStep::Check(place) => CurateStepView::Check(place@),
            CurateStep::Look(place) => CurateStepView::Look(place@),
            CurateStep::Export(place, ids) => CurateStepView::Export(place@, text::views(ids@)),
            CurateStep::Supersede(place, ids) => CurateStepView::Supersede(
                place@,
                text::views(ids@),
            ),
            CurateStep::Execute(place) => CurateStepView::Execute(place@),
            CurateStep::Done(Ok(report)) => CurateStepView::Done(Ok(report@)),
            CurateStep::Done(Err(failure)) => CurateStepView::Done(Err(failure@)),
        }
    }
}

/// A curation that stops with some words.
pub open spec fn refused(words: Seq<char>) -> CurateStepView {
    CurateStepView::Done(Err(CurateFailureView::Refused(words)))
}

/// A curation that stops for want of an answer.
pub open spec fn unanswered() -> CurateStepView {
    CurateStepView::Done(Err(CurateFailureView::Unanswered))
}

/// What comes before write number `at`; behind the last one, the plan has been
/// applied.
pub open spec fn next_write(curation: CurationView, at: int) -> CurateStepView {
    if at < curation.writes.len() {
        match curation.writes[at].at("key"@).as_text() {
            None => refused("key missing"@),
            Some(key) => CurateStepView::Look(PlaceView { curation, at, key }),
        }
    } else {
        CurateStepView::Done(Ok(applied_document(curation.writes.len(), curation.agent)))
    }
}

/// What comes before expected record number `at`; behind the last one, the
/// writes, where the plan is to be applied.
pub open spec fn next_check(curation: CurationView, at: int) -> CurateStepView {
    if at < curation.expected.len() {
        match curation.expected[at].at("key"@).as_text() {
            None => refused("expected key missing"@),
            Some(key) => CurateStepView::Check(PlaceView { curation, at, key }),
        }
    } else if curation.apply {
        next_write(curation, 0)
    } else {
        CurateStepView::Done(Ok(validated_document(curation.writes.len())))
    }
}

/// The first step of a plan.
pub open spec fn first_step(plan: json::Document, agent: Seq<char>, apply: bool) -> CurateStepView {
    match plan.at("writes"@) {
        json::Document::Array(writes) => match plan.at("expected"@) {
            json::Document::Array(expected) => next_check(
                CurationView { writes, expected, agent, apply },
                0,
            ),
            _ => refused("expected records missing"@),
        },
        _ => refused("writes missing"@),
    }
}

/// After an expected record was looked up.
pub open spec fn after_check(
    place: PlaceView,
    found: Result<Option<memory::EntryView>, Unanswered>,
) -> CurateStepView {
    match found {
        Err(_) => unanswered(),
        Ok(entry) => match expected_spec(place.curation.expected[place.at], entry) {
            Err(words) => refused(words),
            Ok(()) => next_check(place.curation, place.at + 1),
        },
    }
}

/// After the key of a write was looked up: a write whose entry is not there yet
/// is executed, another is resumed.
pub open spec fn after_look(
    place: PlaceView,
    found: Result<Option<memory::EntryView>, Unanswered>,
) -> CurateStepView {
    match found {
        Err(_) => unanswered(),
        Ok(None) => CurateStepView::Execute(place),
        Ok(Some(existing)) => match resumed(place.curation.writes[place.at], existing.content) {
            Err(words) => refused(words),
            Ok(None) => next_write(place.curation, place.at + 1),
            Ok(Some(ids)) => CurateStepView::Export(place, ids),
        },
    }
}

/// After the export: the ids that are still recalled are superseded.
pub open spec fn after_export(
    place: PlaceView,
    ids: Seq<Seq<char>>,
    entries: Result<Seq<memory::EntryView>, Unanswered>,
) -> CurateStepView {
    match entries {
        Err(_) => unanswered(),
        Ok(entries) => {
            let left = remaining_ids(ids, entries);
            if left.len() == 0 {
                next_write(place.curation, place.at + 1)
            } else {
                CurateStepView::Supersede(place, left)
            }
        },
    }
}

/// After ids were superseded.
pub open spec fn after_supersede(
    place: PlaceView,
    superseded: Result<(), Unanswered>,
) -> CurateStepView {
    match superseded {
        Err(_) => unanswered(),
        Ok(()) => next_write(place.curation, place.at + 1),
    }
}

/// After the tool was asked to execute a write: whether it did, and its error.
pub open spec fn after_execute(
    place: PlaceView,
    result: Result<(bool, Option<Seq<char>>), Unanswered>,
) -> CurateStepView {
    match result {
        Err(_) => unanswered(),
        Ok((success, error)) => if success {
            next_write(place.curation, place.at + 1)
        } else {
            CurateStepView::Done(Err(CurateFailureView::ToolFailed(error)))
        },
    }
}

fn refuse<'a>(words: &str) -> (out: CurateStep<'a>)
    ensures
        out@ == refused(words@),
{
    CurateStep::Done(Err(CurateFailure::Refused(words.to_owned())))
}

fn stop<'a>() -> (out: CurateStep<'a>)
    ensures
        out@ == unanswered(),
{
    CurateStep::Done(Err(CurateFailure::Unanswered))
}

fn write_next<'a>(curation: Curation<'a>, at: usize) -> (out: CurateStep<'a>)
    ensures
        out@ == next_write(curation@, at as int),
{
    if at < curation.writes.len() {
        match write_key(&curation.writes[at]) {
            Ok(key) => CurateStep::Look(Writing { curation, at, key }),
            Err(e) => refuse(e),
        }
    } else {
        CurateStep::Done(Ok(applied_report(curation.writes.len(), curation.agent)))
    }
}

fn check_next<'a>(curation: Curation<'a>, at: usize) -> (out: CurateStep<'a>)
    ensures
        out@ == next_check(curation@, at as int),
{
    if at < curation.expected.len() {
        match expected_key(&curation.expected[at]) {
            Ok(key) => CurateStep::Check(Checking { curation, at, key }),
            Err(e) => refuse(e),
        }
    } else if curation.apply {
        write_next(curation, 0)
    } else {
        CurateStep::Done(Ok(validated_report(curation.writes.len())))
    }
}

/// Begins a plan: the whole old corpus is checked before any write, and where
/// `apply` is false nothing is written at all.
pub fn curate<'a>(plan: &'a Json, agent: &'a str, apply: bool) -> (out: CurateStep<'a>)
    ensures
        out@ == first_step(plan@, agent@, apply),
{
    match plan_records(plan) {
        Ok(records) => check_next(
            Curation { writes: records.writes, expected: records.expected, agent, apply },
            0,
        ),
        Err(e) => refuse(e),
    }
}

impl<'a> Checking<'a> {
    /// The key to be looked up.
    pub fn key(&self) -> (out: &'a str)
        ensures
            out@ == self@.key,
    {
        self.key
    }

    /// Goes on with what is under the key.
    pub fn looked_up(self, found: Result<Option<MemoryEntry>, Unanswered>) -> (out: CurateStep<'a>)
        ensures
            out@ == after_check(self@, found_view(found)),
    {
        proof {
            use_type_invariant(&self);
        }
        match found {
            Err(_) => stop(),
            Ok(entry) => {
                let old: &Json = &self.curation.expected[self.at];
                match check_expected(old, entry.as_ref()) {
                    Err(e) => refuse(e),
                    Ok(()) => check_next(self.curation, self.at + 1),
                }
            },
        }
    }
}

impl<'a> Writing<'a> {
    /// The key of the write.
    pub fn key(&self) -> (out: &'a str)
        ensures
            out@ == self@.key,
    {
        self.key
    }

    /// The write itself, which the tool takes as its arguments.
    pub fn write(&self) -> (out: &'a Json)
        ensures
            out@ == self@.curation.writes[self@.at],
    {
        proof {
            use_type_invariant(self);
        }
        &self.curation.writes[self.at]
    }

    /// Goes on with what is under the key.
    pub fn looked_up(self, found: Result<Option<MemoryEntry>, Unanswered>) -> (out: CurateStep<'a>)
        ensures
            out@ == after_look(self@, found_view(found)),
    {
        proof {
            use_type_invariant(&self);
        }
        match found {
            Err(_) => stop(),
            Ok(None) => CurateStep::Execute(self),
            Ok(Some(existing)) => match resume(&self.curation.writes[self.at], &existing) {
                Err(e) => refuse(e.as_str()),
                Ok(None) => write_next(self.curation, self.at + 1),
                Ok(Some(ids)) => CurateStep::Export(self, ids),
            },
        }
    }

    /// Goes on with all entries, to supersede those of the ids that are still
    /// recalled.
    pub fn exported(
        self,
        ids: &Vec<String>,
        entries: Result<Vec<MemoryEntry>, Unanswered>,
    ) -> (out: CurateStep<'a>)
        ensures
            out@ == after_export(
                self@,
                text::views(ids@),
                match entries {
                    Ok(entries) => Ok(memory::entry_views(entries@)),
                    Err(e) => Err(e),
                },
            ),
    {
        proof {
            use_type_invariant(&self);
        }
        match entries {
            Err(_) => stop(),
            Ok(entries) => {
                let left: Vec<String> = remaining(ids, &entries);
                proof {
                    assert(text::views(left@).len() == left@.len());
                }
                if left.len() == 0 {
                    write_next(self.curation, self.at + 1)
                } else {
                    CurateStep::Supersede(self, left)
                }
            },
        }
    }

    /// Goes on once the ids have been superseded.
    pub fn superseded(self, answer: Result<(), Unanswered>) -> (out: CurateStep<'a>)
        ensures
            out@ == after_supersede(self@, answer),
    {
        proof {
            use_type_invariant(&self);
        }
        match answer {
            Err(_) => stop(),
            Ok(()) => write_next(self.curation, self.at + 1),
        }
    }

    /// Goes on with what the tool said: whether it succeeded, and its error.
    pub fn executed(self, answer: Result<(bool, Option<String>), Unanswered>) -> (out: CurateStep<
        'a,
    >)
        ensures
            out@ == after_execute(
                self@,
                match answer {
                    Ok((success, error)) => Ok((success, text::option_view(error))),
                    Err(e) => Err(e),
                },
            ),
    {
        proof {
            use_type_invariant(&self);
        }
        match answer {
            Err(_) => stop(),
            Ok((success, error)) => if success {
                write_next(self.curation, self.at + 1)
            } else {
                CurateStep::Done(Err(CurateFailure::ToolFailed(error)))
            },
        }
    }
}

/// What an entry that was looked up says.
pub open spec fn found_view(found: Result<Option<MemoryEntry>, Unanswered>) -> Result<
    Option<memory::EntryView>,
    Unanswered,
> {
    match found {
        Ok(Some(entry)) => Ok(Some(entry@)),
        Ok(None) => Ok(None),
        Err(e) => Err(e),
    }
}

/// Resuming a write retires nothing but entries that it names and that are
/// still recalled, and leaves none of them out.
pub proof fn law_resuming_retires_what_is_left(
    ids: Seq<Seq<char>>,
    entries: Seq<memory::EntryView>,
    id: Seq<char>,
)
    ensures
        remaining_ids(ids, entries).contains(id) <==> ids.contains(id) && exists|i: int|
            0 <= i < entries.len() && (#[trigger] entries[i]).id == id
                && entries[i].superseded_by is None,
    decreases entries.len(),
{
    reveal(Seq::filter);
    let keep = |e: memory::EntryView| ids.contains(e.id) && e.superseded_by is None;
    let show = |e: memory::EntryView| e.id;
    if entries.len() == 0 {
        assert(remaining_ids(ids, entries) =~= Seq::<Seq<char>>::empty());
    } else {
        let front = entries.drop_last();
        let last = entries.last();
        law_resuming_retires_what_is_left(ids, front, id);
        let kept = remaining_ids(ids, front);
        let all = remaining_ids(ids, entries);
        if keep(last) {
            assert(all =~= kept.push(last.id));
            assert(all[kept.len() as int] == last.id);
            if kept.contains(id) {
                let k = choose|k: int| 0 <= k < kept.len() && kept[k] == id;
                assert(all[k] == id);
            }
            if all.contains(id) && id != last.id {
                let k = choose|k: int| 0 <= k < all.len() && all[k] == id;
                assert(kept[k] == id);
            }
        } else {
            assert(all =~= kept);
        }
        if exists|i: int|
            0 <= i < front.len() && (#[trigger] front[i]).id == id
                && front[i].superseded_by is None {
            let i = choose|i: int|
                0 <= i < front.len() && (#[trigger] front[i]).id == id
                    && front[i].superseded_by is None;
            assert(entries[i] == front[i]);
        }
        if exists|i: int|
            0 <= i < entries.len() && (#[trigger] entries[i]).id == id
                && entries[i].superseded_by is None {
            let i = choose|i: int|
                0 <= i < entries.len() && (#[trigger] entries[i]).id == id
                    && entries[i].superseded_by is None;
            if i < front.len() {
                assert(front[i] == entries[i]);
            } else {
                assert(entries[i] == last);
            }
        }
        assert(entries[entries.len() - 1] == last);
    }
}


/// All answers that a curation can be given, each list by the place of the
/// record that it is about.
pub struct CurateAnswers {
    pub found: Seq<Result<Option<memory::EntryView>, Unanswered>>,
    pub looked: Seq<Result<Option<memory::EntryView>, Unanswered>>,
    pub exported: Seq<Result<Seq<memory::EntryView>, Unanswered>>,
    pub superseded: Seq<Result<(), Unanswered>>,
    pub executed: Seq<Result<(bool, Option<Seq<char>>), Unanswered>>,
}

/// The step that follows a step under some answers.
pub open spec fn next_step(step: CurateStepView, answers: CurateAnswers) -> CurateStepView {
    match step {
        CurateStepView::Check(place) => after_check(place, answers.found[place.at]),
        CurateStepView::Look(place) => after_look(place, answers.looked[place.at]),
        CurateStepView::Export(place, ids) => after_export(place, ids, answers.exported[place.at]),
        CurateStepView::Supersede(place, _) => after_supersede(
            place,
            answers.superseded[place.at],
        ),
        CurateStepView::Execute(place) => after_execute(place, answers.executed[place.at]),
        CurateStepView::Done(_) => step,
    }
}

/// Where a curation has come to after `n` answers.
pub open spec fn step_after(
    plan: json::Document,
    agent: Seq<char>,
    apply: bool,
    answers: CurateAnswers,
    n: nat,
) -> CurateStepView
    decreases n,
{
    if n == 0 {
        first_step(plan, agent, apply)
    } else {
        next_step(step_after(plan, agent, apply, answers, (n - 1) as nat), answers)
    }
}

/// Whether the first `n` expected records were found as they were reviewed.
pub open spec fn are_as_reviewed(
    expected: Seq<json::Document>,
    answers: CurateAnswers,
    n: int,
) -> bool {
    forall|i: int|
        0 <= i < n ==> (#[trigger] answers.found[i]) is Ok && expected_spec(
            expected[i],
            answers.found[i]->Ok_0,
        ) is Ok
}

/// Whether a write is in the memory: the tool executed it; or its entry was there
/// already, and of the ids that it names none is still recalled or those that
/// were have been superseded.
pub open spec fn is_written(write: json::Document, answers: CurateAnswers, i: int) -> bool {
    match answers.looked[i] {
        Err(_) => false,
        Ok(None) => answers.executed[i] is Ok && answers.executed[i]->Ok_0.0,
        Ok(Some(existing)) => match resumed(write, existing.content) {
            Err(_) => false,
            Ok(None) => true,
            Ok(Some(ids)) => answers.exported[i] is Ok && (remaining_ids(
                ids,
                answers.exported[i]->Ok_0,
            ).len() == 0 || answers.superseded[i] is Ok),
        },
    }
}

/// Whether the first `n` writes are in the memory.
pub open spec fn are_written(writes: Seq<json::Document>, answers: CurateAnswers, n: int) -> bool {
    forall|i: int| 0 <= i < n ==> #[trigger] is_written(writes[i], answers, i)
}

/// Whether a plan is applied, its whole old corpus was found as it was reviewed,
/// and the writes before a place are in the memory.
pub open spec fn may_write(
    plan: json::Document,
    apply: bool,
    answers: CurateAnswers,
    place: PlaceView,
) -> bool {
    &&& apply
    &&& plan.at("writes"@) == json::Document::Array(place.curation.writes)
    &&& plan.at("expected"@) == json::Document::Array(place.curation.expected)
    &&& are_as_reviewed(
        place.curation.expected,
        answers,
        place.curation.expected.len() as int,
    )
    &&& 0 <= place.at < place.curation.writes.len()
    &&& place.curation.writes[place.at].at("key"@) == json::Document::Text(place.key)
    &&& are_written(place.curation.writes, answers, place.at)
}

/// What holds of a curation wherever it has come to.
spec fn is_sound(
    step: CurateStepView,
    plan: json::Document,
    agent: Seq<char>,
    apply: bool,
    answers: CurateAnswers,
) -> bool {
    match step {
        CurateStepView::Check(place) => {
            &&& plan.at("writes"@) == json::Document::Array(place.curation.writes)
            &&& plan.at("expected"@) == json::Document::Array(place.curation.expected)
            &&& place.curation.agent == agent
            &&& place.curation.apply == apply
            &&& 0 <= place.at < place.curation.expected.len()
            &&& are_as_reviewed(place.curation.expected, answers, place.at)
        },
        CurateStepView::Look(place) => {
            &&& may_write(plan, apply, answers, place)
            &&& place.curation.agent == agent
        },
        CurateStepView::Export(place, ids) => {
            &&& may_write(plan, apply, answers, place)
            &&& place.curation.agent == agent
            &&& resumes(place, answers, ids)
        },
        CurateStepView::Supersede(place, ids) => {
            &&& may_write(plan, apply, answers, place)
            &&& place.curation.agent == agent
            &&& retires(place, answers, ids)
        },
        CurateStepView::Execute(place) => {
            &&& may_write(plan, apply, answers, place)
            &&& place.curation.agent == agent
            &&& answers.looked[place.at] == Ok::<Option<memory::EntryView>, Unanswered>(None)
        },
        CurateStepView::Done(Ok(report)) => reports(report, plan, agent, apply, answers),
        CurateStepView::Done(Err(_)) => true,
    }
}

/// Whether a write is resumed, and names some ids as superseded.
pub open spec fn resumes(place: PlaceView, answers: CurateAnswers, ids: Seq<Seq<char>>) -> bool {
    match answers.looked[place.at] {
        Ok(Some(existing)) => resumed(place.curation.writes[place.at], existing.content) == Ok::<
            Option<Seq<Seq<char>>>,
            Seq<char>,
        >(Some(ids)),
        _ => false,
    }
}

/// Whether a write is resumed, and some ids are those that it names and that are
/// still recalled.
pub open spec fn retires(place: PlaceView, answers: CurateAnswers, ids: Seq<Seq<char>>) -> bool {
    exists|named: Seq<Seq<char>>| #[trigger]
        resumes(place, answers, named) && answers.exported[place.at] is Ok && ids == remaining_ids(
            named,
            answers.exported[place.at]->Ok_0,
        )
}

/// Whether a report tells what became of a plan: its whole old corpus was found
/// as it was reviewed, and where the plan is applied, all its writes are in the
/// memory.
pub open spec fn reports(
    report: json::Document,
    plan: json::Document,
    agent: Seq<char>,
    apply: bool,
    answers: CurateAnswers,
) -> bool {
    match (plan.at("writes"@), plan.at("expected"@)) {
        (json::Document::Array(writes), json::Document::Array(expected)) => {
            &&& are_as_reviewed(expected, answers, expected.len() as int)
            &&& if apply {
                are_written(writes, answers, writes.len() as int) && report == applied_document(
                    writes.len(),
                    agent,
                )
            } else {
                report == validated_document(writes.len())
            }
        },
        _ => false,
    }
}

proof fn lemma_next_write(
    plan: json::Document,
    agent: Seq<char>,
    answers: CurateAnswers,
    curation: CurationView,
    at: int,
)
    requires
        curation.apply,
        curation.agent == agent,
        plan.at("writes"@) == json::Document::Array(curation.writes),
        plan.at("expected"@) == json::Document::Array(curation.expected),
        are_as_reviewed(curation.expected, answers, curation.expected.len() as int),
        0 <= at <= curation.writes.len(),
        are_written(curation.writes, answers, at),
    ensures
        is_sound(next_write(curation, at), plan, agent, true, answers),
{
}

proof fn lemma_next_check(
    plan: json::Document,
    agent: Seq<char>,
    answers: CurateAnswers,
    curation: CurationView,
    at: int,
)
    requires
        curation.agent == agent,
        plan.at("writes"@) == json::Document::Array(curation.writes),
        plan.at("expected"@) == json::Document::Array(curation.expected),
        0 <= at <= curation.expected.len(),
        are_as_reviewed(curation.expected, answers, at),
    ensures
        is_sound(next_check(curation, at), plan, agent, curation.apply, answers),
{
    if at == curation.expected.len() && curation.apply {
        lemma_next_write(plan, agent, answers, curation, 0);
    }
}

proof fn lemma_sound(
    plan: json::Document,
    agent: Seq<char>,
    apply: bool,
    answers: CurateAnswers,
    n: nat,
)
    ensures
        is_sound(step_after(plan, agent, apply, answers, n), plan, agent, apply, answers),
        match step_after(plan, agent, apply, answers, n) {
            CurateStepView::Look(place) => place.curation.apply,
            CurateStepView::Export(place, _) => place.curation.apply,
            CurateStepView::Supersede(place, _) => place.curation.apply,
            CurateStepView::Execute(place) => place.curation.apply,
            _ => true,
        },
    decreases n,
{
    if n == 0 {
        if let (json::Document::Array(writes), json::Document::Array(expected)) = (
            plan.at("writes"@),
            plan.at("expected"@),
        ) {
            let curation = CurationView { writes, expected, agent, apply };
            lemma_next_check(plan, agent, answers, curation, 0);
        }
    } else {
        lemma_sound(plan, agent, apply, answers, (n - 1) as nat);
        let step = step_after(plan, agent, apply, answers, (n - 1) as nat);
        match step {
            CurateStepView::Check(place) => {
                if answers.found[place.at] is Ok && expected_spec(
                    place.curation.expected[place.at],
                    answers.found[place.at]->Ok_0,
                ) is Ok {
                    lemma_next_check(plan, agent, answers, place.curation, place.at + 1);
                }
            },
            CurateStepView::Look(place) => {
                if is_written(place.curation.writes[place.at], answers, place.at) {
                    lemma_next_write(plan, agent, answers, place.curation, place.at + 1);
                }
            },
            CurateStepView::Export(place, ids) => {
                if is_written(place.curation.writes[place.at], answers, place.at) {
                    lemma_next_write(plan, agent, answers, place.curation, place.at + 1);
                }
            },
            CurateStepView::Supersede(place, ids) => {
                if is_written(place.curation.writes[place.at], answers, place.at) {
                    lemma_next_write(plan, agent, answers, place.curation, place.at + 1);
                }
            },
            CurateStepView::Execute(place) => {
                if is_written(place.curation.writes[place.at], answers, place.at) {
                    lemma_next_write(plan, agent, answers, place.curation, place.at + 1);
                }
            },
            CurateStepView::Done(_) => {},
        }
    }
}

/// Whatever the memory answers, a curation writes only where it is applied and
/// its whole old corpus was found as it was reviewed; it has the tool execute
/// only a write whose key is free, supersedes only what a resumed write names and
/// what is still recalled; and it reports success only where the plan was checked
/// and, if applied, is in the memory.
pub proof fn law_a_curation_writes_only_over_what_was_reviewed(
    plan: json::Document,
    agent: Seq<char>,
    apply: bool,
    answers: CurateAnswers,
    n: nat,
)
    ensures
        match step_after(plan, agent, apply, answers, n) {
            CurateStepView::Execute(place) => may_write(plan, apply, answers, place)
                && answers.looked[place.at] == Ok::<Option<memory::EntryView>, Unanswered>(None),
            CurateStepView::Supersede(place, ids) => may_write(plan, apply, answers, place)
                && retires(place, answers, ids),
            CurateStepView::Done(Ok(report)) => reports(report, plan, agent, apply, answers),
            _ => true,
        },
{
    lemma_sound(plan, agent, apply, answers, n);
}

/// A plan is about the memory that it names in full; where it names less, the
/// first thing that it lacks is told.
pub proof fn law_what_a_plan_is_about(plan: json::Document)
    ensures
        ({
            let dir = plan.at("data_dir"@);
            let agent = plan.at("agent"@);
            let url = plan.at("embedding"@).at("url"@);
            let model = plan.at("embedding"@).at("model"@);
            let size = plan.at("embedding"@).at("dimensions"@).as_u64();
            let target = plan_target_spec(plan);
            &&& !(dir is Text) ==> target == Err::<PlanTargetView, Seq<char>>("data_dir missing"@)
            &&& dir is Text && !(agent is Text) ==> target == Err::<PlanTargetView, Seq<char>>(
                "agent missing"@,
            )
            &&& dir is Text && agent is Text && !(url is Text) ==> target == Err::<
                PlanTargetView,
                Seq<char>,
            >("embedding url missing"@)
            &&& dir is Text && agent is Text && url is Text && !(model is Text) ==> target == Err::<
                PlanTargetView,
                Seq<char>,
            >("embedding model missing"@)
            &&& dir is Text && agent is Text && url is Text && model is Text && size is None
                ==> target == Err::<PlanTargetView, Seq<char>>("embedding dimensions missing"@)
            &&& dir is Text && agent is Text && url is Text && model is Text && size is Some
                ==> target == Ok::<PlanTargetView, Seq<char>>(
                PlanTargetView {
                    data_dir: dir->Text_0,
                    agent: agent->Text_0,
                    embedding_url: url->Text_0,
                    embedding_model: model->Text_0,
                    embedding_dimensions: size->Some_0,
                },
            )
        }),
{
}

/// A record is the one that was reviewed exactly where it is there with the same
/// id and the same content; otherwise what is wrong is told.
pub proof fn law_when_a_record_is_the_reviewed_one(
    old: json::Document,
    entry: Option<memory::EntryView>,
)
    ensures
        expected_spec(old, entry) is Ok <==> entry is Some && old.at("id"@) == json::Document::Text(
            entry->Some_0.id,
        ) && old.at("content"@) == json::Document::Text(entry->Some_0.content),
        entry is None ==> expected_spec(old, entry) == Err::<(), Seq<char>>(
            "expected record missing"@,
        ),
        entry is Some && !(old.at("id"@) is Text) ==> expected_spec(old, entry) == Err::<
            (),
            Seq<char>,
        >("expected ID missing"@),
        entry is Some && old.at("id"@) is Text && old.at("id"@)->Text_0 != entry->Some_0.id
            ==> expected_spec(old, entry) == Err::<(), Seq<char>>(
            "source changed since the curation plan was reviewed"@,
        ),
        entry is Some && old.at("id"@) == json::Document::Text(entry->Some_0.id) && !(old.at(
            "content"@,
        ) is Text) ==> expected_spec(old, entry) == Err::<(), Seq<char>>(
            "expected content missing"@,
        ),
        entry is Some && old.at("id"@) == json::Document::Text(entry->Some_0.id) && old.at(
            "content"@,
        ) is Text && old.at("content"@)->Text_0 != entry->Some_0.content ==> expected_spec(
            old,
            entry,
        ) == Err::<(), Seq<char>>("source changed since the curation plan was reviewed"@),
{
}

/// A write is resumed where its entry has the content that is planned; then the
/// ids that it names as superseded count, where it names any.
pub proof fn law_when_a_write_is_resumed(write: json::Document, content: Seq<char>)
    ensures
        !(write.at("content"@) is Text) ==> resumed(write, content) == Err::<
            Option<Seq<Seq<char>>>,
            Seq<char>,
        >("content missing"@),
        write.at("content"@) is Text && write.at("content"@)->Text_0 != content ==> resumed(
            write,
            content,
        ) == Err::<Option<Seq<Seq<char>>>, Seq<char>>("replacement key changed"@),
        write.at("content"@) == json::Document::Text(content) ==> {
            &&& write.get("supersedes"@) is None ==> resumed(write, content) == Ok::<
                Option<Seq<Seq<char>>>,
                Seq<char>,
            >(None)
            &&& write.get("supersedes"@) matches Some(ids) ==> {
                &&& ids.as_texts() matches Some(texts) ==> resumed(write, content) == Ok::<
                    Option<Seq<Seq<char>>>,
                    Seq<char>,
                >(Some(texts))
                &&& ids.as_texts() is None ==> resumed(write, content) == Err::<
                    Option<Seq<Seq<char>>>,
                    Seq<char>,
                >(json::texts_error(ids))
            }
        },
{
}

/// What is left to retire are the entries, in their order, whose ids are named
/// and that nothing took the place of.
pub proof fn law_what_is_left_keeps_its_order(
    ids: Seq<Seq<char>>,
    entries: Seq<memory::EntryView>,
)
    ensures
        remaining_ids(ids, entries) == entries.filter(
            |e: memory::EntryView| ids.contains(e.id) && e.superseded_by is None,
        ).map_values(|e: memory::EntryView| e.id),
{
}

/// The reports: how many writes were checked and that none was applied; how many
/// were applied and for whom.
pub proof fn law_what_is_reported(writes: nat, agent: Seq<char>)
    ensures
        validated_document(writes).at("validated_writes"@) == json::Document::Number(
            json::number_of(writes as u64),
        ),
        validated_document(writes).at("applied"@) == json::Document::Bool(false),
        applied_document(writes, agent).at("applied"@) == json::Document::Number(
            json::number_of(writes as u64),
        ),
        applied_document(writes, agent).at("agent"@) == json::Document::Text(agent),
{
    reveal_strlit("validated_writes");
    reveal_strlit("applied");
    reveal_strlit("agent");
    assert("validated_writes"@.len() == 16 && "applied"@.len() == 7 && "agent"@.len() == 5);
}

/// How a curation goes on. The expected records are checked from the first to
/// the last, and a wrong one ends it; then, where it is applied, the writes are
/// made from the first to the last, and otherwise none.
pub proof fn law_how_a_curation_checks(
    curation: CurationView,
    at: int,
    key: Seq<char>,
    found: Option<memory::EntryView>,
)
    requires
        0 <= at < curation.expected.len(),
    ensures
        ({
            let place = PlaceView { curation, at, key };
            let next = after_check(place, Ok(found));
            &&& after_check(place, Err(Unanswered)) == CurateStepView::Done(
                Err(CurateFailureView::Unanswered),
            )
            &&& expected_spec(curation.expected[at], found) matches Err(words) ==> next
                == CurateStepView::Done(Err(CurateFailureView::Refused(words)))
            &&& expected_spec(curation.expected[at], found) is Ok ==> {
                &&& at + 1 < curation.expected.len() ==> {
                    let wanted = curation.expected[at + 1].at("key"@);
                    &&& wanted is Text ==> next == CurateStepView::Check(
                        PlaceView { curation, at: at + 1, key: wanted->Text_0 },
                    )
                    &&& !(wanted is Text) ==> next == CurateStepView::Done(
                        Err(CurateFailureView::Refused("expected key missing"@)),
                    )
                }
                &&& at + 1 == curation.expected.len() && !curation.apply ==> next
                    == CurateStepView::Done(Ok(validated_document(curation.writes.len())))
                &&& at + 1 == curation.expected.len() && curation.apply && curation.writes.len() == 0
                    ==> next == CurateStepView::Done(Ok(applied_document(0, curation.agent)))
                &&& at + 1 == curation.expected.len() && curation.apply && curation.writes.len() > 0
                    ==> {
                    let wanted = curation.writes[0].at("key"@);
                    &&& wanted is Text ==> next == CurateStepView::Look(
                        PlaceView { curation, at: 0, key: wanted->Text_0 },
                    )
                    &&& !(wanted is Text) ==> next == CurateStepView::Done(
                        Err(CurateFailureView::Refused("key missing"@)),
                    )
                }
            }
        }),
{
}

/// How a curation writes. A write whose key is free is executed; one whose entry
/// is there is resumed, and of the ids that it names those still recalled are
/// superseded. Then the next write follows; behind the last one the plan has been
/// applied.
pub proof fn law_how_a_curation_writes(
    curation: CurationView,
    at: int,
    key: Seq<char>,
    existing: memory::EntryView,
    ids: Seq<Seq<char>>,
    entries: Seq<memory::EntryView>,
    said: Option<Seq<char>>,
)
    requires
        0 <= at < curation.writes.len(),
    ensures
        ({
            let place = PlaceView { curation, at, key };
            let lost = CurateStepView::Done(Err(CurateFailureView::Unanswered));
            let next = next_write(curation, at + 1);
            let left = remaining_ids(ids, entries);
            &&& after_look(place, Err(Unanswered)) == lost
            &&& after_look(place, Ok(None)) == CurateStepView::Execute(place)
            &&& resumed(curation.writes[at], existing.content) matches Err(words) ==> after_look(
                place,
                Ok(Some(existing)),
            ) == CurateStepView::Done(Err(CurateFailureView::Refused(words)))
            &&& resumed(curation.writes[at], existing.content) == Ok::<
                Option<Seq<Seq<char>>>,
                Seq<char>,
            >(None) ==> after_look(place, Ok(Some(existing))) == next
            &&& resumed(curation.writes[at], existing.content) == Ok::<
                Option<Seq<Seq<char>>>,
                Seq<char>,
            >(Some(ids)) ==> after_look(place, Ok(Some(existing))) == CurateStepView::Export(
                place,
                ids,
            )
            &&& after_export(place, ids, Err(Unanswered)) == lost
            &&& left.len() == 0 ==> after_export(place, ids, Ok(entries)) == next
            &&& left.len() > 0 ==> after_export(place, ids, Ok(entries))
                == CurateStepView::Supersede(place, left)
            &&& after_supersede(place, Err(Unanswered)) == lost
            &&& after_supersede(place, Ok(())) == next
            &&& after_execute(place, Err(Unanswered)) == lost
            &&& after_execute(place, Ok((true, said))) == next
            &&& after_execute(place, Ok((false, said))) == CurateStepView::Done(
                Err(CurateFailureView::ToolFailed(said)),
            )
            &&& at + 1 == curation.writes.len() ==> next == CurateStepView::Done(
                Ok(applied_document(curation.writes.len(), curation.agent)),
            )
            &&& at + 1 < curation.writes.len() ==> {
                let wanted = curation.writes[at + 1].at("key"@);
                &&& wanted is Text ==> next == CurateStepView::Look(
                    PlaceView { curation, at: at + 1, key: wanted->Text_0 },
                )
                &&& !(wanted is Text) ==> next == CurateStepView::Done(
                    Err(CurateFailureView::Refused("key missing"@)),
                )
            }
        }),
{
}

/// How a curation begins: with the first expected record, or as if the last one
/// had been checked where the plan expects none; a plan without its lists is
/// refused.
pub proof fn law_how_a_curation_begins(
    plan: json::Document,
    agent: Seq<char>,
    apply: bool,
    writes: Seq<json::Document>,
    expected: Seq<json::Document>,
)
    ensures
        !(plan.at("writes"@) is Array) ==> first_step(plan, agent, apply) == CurateStepView::Done(
            Err(CurateFailureView::Refused("writes missing"@)),
        ),
        plan.at("writes"@) is Array && !(plan.at("expected"@) is Array) ==> first_step(
            plan,
            agent,
            apply,
        ) == CurateStepView::Done(Err(CurateFailureView::Refused("expected records missing"@))),
        plan.at("writes"@) == json::Document::Array(writes) && plan.at("expected"@)
            == json::Document::Array(expected) ==> {
            let curation = CurationView { writes, expected, agent, apply };
            let step = first_step(plan, agent, apply);
            &&& expected.len() > 0 && expected[0].at("key"@) is Text ==> step
                == CurateStepView::Check(
                PlaceView { curation, at: 0, key: expected[0].at("key"@)->Text_0 },
            )
            &&& expected.len() > 0 && !(expected[0].at("key"@) is Text) ==> step
                == CurateStepView::Done(
                Err(CurateFailureView::Refused("expected key missing"@)),
            )
            &&& expected.len() == 0 && !apply ==> step == CurateStepView::Done(
                Ok(validated_document(writes.len())),
            )
            &&& expected.len() == 0 && apply && writes.len() == 0 ==> step == CurateStepView::Done(
                Ok(applied_document(0, agent)),
            )
            &&& expected.len() == 0 && apply && writes.len() > 0 && writes[0].at("key"@) is Text
                ==> step == CurateStepView::Look(
                PlaceView { curation, at: 0, key: writes[0].at("key"@)->Text_0 },
            )
            &&& expected.len() == 0 && apply && writes.len() > 0 && !(writes[0].at("key"@) is Text)
                ==> step == CurateStepView::Done(
                Err(CurateFailureView::Refused("key missing"@)),
            )
        },
{
}

/// What targets, failures and steps say is what they hold.
pub proof fn law_steps_say_what_they_hold<'a>(
    target: PlanTarget,
    failure: CurateFailure,
    step: CurateStep<'a>,
)
    ensures
        target@.data_dir == target.data_dir@,
        target@.agent == target.agent@,
        target@.embedding_url == target.embedding_url@,
        target@.embedding_model == target.embedding_model@,
        target@.embedding_dimensions == target.embedding_dimensions,
        failure matches CurateFailure::Refused(words) ==> failure@ == CurateFailureView::Refused(
            words@,
        ),
        failure is Unanswered ==> failure@ is Unanswered,
        failure matches CurateFailure::ToolFailed(Some(e)) ==> failure@
            == CurateFailureView::ToolFailed(Some(e@)),
        failure matches CurateFailure::ToolFailed(None) ==> failure@
            == CurateFailureView::ToolFailed(None),
        step matches CurateStep::Check(place) ==> step@ == CurateStepView::Check(place@),
        step matches CurateStep::Look(place) ==> step@ == CurateStepView::Look(place@),
        step matches CurateStep::Export(place, ids) ==> step@ == CurateStepView::Export(
            place@,
            text::views(ids@),
        ),
        step matches CurateStep::Supersede(place, ids) ==> step@ == CurateStepView::Supersede(
            place@,
            text::views(ids@),
        ),
        step matches CurateStep::Execute(place) ==> step@ == CurateStepView::Execute(place@),
        step matches CurateStep::Done(Ok(report)) ==> step@ == CurateStepView::Done(Ok(report@)),
        step matches CurateStep::Done(Err(e)) ==> step@ == CurateStepView::Done(Err(e@)),
{
}

/// What a lookup found is told as it is.
pub proof fn law_findings_say_what_they_hold(entry: MemoryEntry, e: Unanswered)
    ensures
        found_view(Ok(Some(entry))) == Ok::<Option<memory::EntryView>, Unanswered>(Some(entry@)),
        found_view(Ok(None)) == Ok::<Option<memory::EntryView>, Unanswered>(None),
        found_view(Err(e)) == Err::<Option<memory::EntryView>, Unanswered>(e),
{
}

}
