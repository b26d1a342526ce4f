//! The tool with which an agent stores memories: its own brain writes.
//!
//! A call of the tool is a conversation with the security policy and with the
//! memory. Each [`Step`] says what to ask next and holds what the answer is
//! given to; the answer leads to the next step, until one of them is
//! [`Step::Done`].
//!
//! A correction names the entries that it supersedes. They stay under their own
//! keys, as evidence, and are hidden; the correction counts as completed only
//! when each of them has been seen hidden.
use vstd::prelude::*;

use crate::json;
use crate::json::{Fields, Json};
use crate::memory;
use crate::memory::{MemoryCategory, MemoryEntry};
use crate::message;
use crate::message::Message;
use crate::text;

verus! {

/// How many entries one call may supersede.
pub const MAX_SUPERSEDED: usize = 20;

/// What a tool has to say.
#[derive(Debug)]
pub enum Said {
    Nothing,
    Text(String),
    Message(Message),
}

/// What a [`Said`] says.
#[verifier::ext_equal]
pub enum SaidView {
    Nothing,
    Text(Seq<char>),
    Message(message::MessageView),
}

impl Said {
    pub open spec fn view(&self) -> SaidView {
        match self {
            Said::Nothing => SaidView::Nothing,
            Said::Text(s) => SaidView::Text(s@),
            Said::Message(m) => SaidView::Message(m@),
        }
    }
}

/// What a call of the tool came to.
#[derive(Debug)]
pub struct ToolResult {
    pub success: bool,
    pub output: Said,
    pub error: Option<String>,
}

/// What a [`ToolResult`] says.
#[verifier::ext_equal]
pub struct ToolResultView {
    pub success: bool,
    pub output: SaidView,
    pub error: Option<Seq<char>>,
}

impl ToolResult {
    pub open spec fn view(&self) -> ToolResultView {
        ToolResultView {
            success: self.success,
            output: self.output@,
            error: text::option_view(self.error),
        }
    }
}

/// Why a call of the tool came to nothing.
#[derive(Debug)]
pub enum Failure {
    /// No text under `key`.
    MissingKey,
    /// No text under `content`.
    MissingContent,
    /// `supersedes` is no list of texts; and what it is instead.
    NotTexts(String),
    /// More predecessors than allowed, or one of them twice.
    InvalidPredecessors,
    /// A predecessor that is not there, or is superseded already.
    MissingPredecessor,
    /// A correction under a key that is taken.
    DistinctKey,
    /// The memory gave no answer.
    Backend(String),
}

/// What a [`Failure`] says.
#[verifier::ext_equal]
pub enum FailureView {
    MissingKey,
    MissingContent,
    NotTexts(Seq<char>),
    InvalidPredecessors,
    MissingPredecessor,
    DistinctKey,
    Backend(Seq<char>),
}

impl Failure {
    pub open spec fn view(&self) -> FailureView {
        match self {
            Failure::MissingKey => FailureView::MissingKey,
            Failure::MissingContent => FailureView::MissingContent,
            Failure::NotTexts(e) => FailureView::NotTexts(e@),
            Failure::InvalidPredecessors => FailureView::InvalidPredecessors,
            Failure::MissingPredecessor => FailureView::MissingPredecessor,
            Failure::DistinctKey => FailureView::DistinctKey,
            Failure::Backend(e) => FailureView::Backend(e@),
        }
    }

    /// The words for the failure, or the message that is put into words.
    pub fn said(&self) -> (out: Said)
        ensures
            out@ == self@.said(),
    {
        match self {
            Failure::MissingKey => Said::Text("Missing 'key' parameter".to_owned()),
            Failure::MissingContent => Said::Text("Missing 'content' parameter".to_owned()),
            Failure::NotTexts(e) => Said::Text(e.clone()),
            Failure::InvalidPredecessors => Said::Message(
                Message::plain("tool-memory-store-invalid-predecessors"),
            ),
            Failure::MissingPredecessor => Said::Message(
                Message::plain("tool-memory-store-missing-predecessor"),
            ),
            Failure::DistinctKey => Said::Message(
                Message::plain("tool-memory-store-distinct-key"),
            ),
            Failure::Backend(e) => Said::Text(e.clone()),
        }
    }
}

impl FailureView {
    /// The words for the failure, or the message that is put into words.
    pub open spec fn said(self) -> SaidView {
        match self {
            FailureView::MissingKey => SaidView::Text("Missing 'key' parameter"@),
            FailureView::MissingContent => SaidView::Text("Missing 'content' parameter"@),
            FailureView::NotTexts(e) => SaidView::Text(e),
            FailureView::InvalidPredecessors => SaidView::Message(
                message::MessageView {
                    key: "tool-memory-store-invalid-predecessors"@,
                    args: seq![],
                },
            ),
            FailureView::MissingPredecessor => SaidView::Message(
                message::MessageView {
                    key: "tool-memory-store-missing-predecessor"@,
                    args: seq![],
                },
            ),
            FailureView::DistinctKey => SaidView::Message(
                message::MessageView { key: "tool-memory-store-distinct-key"@, args: seq![] },
            ),
            FailureView::Backend(e) => SaidView::Text(e),
        }
    }
}

/// A call whose arguments have been read.
#[derive(Debug)]
pub struct Request {
    pub key: String,
    pub content: String,
    pub category: MemoryCategory,
    /// What the call says that it supersedes.
    pub supersedes: Option<Json>,
}

/// What a [`Request`] says.
#[verifier::ext_equal]
pub struct RequestView {
    pub key: Seq<char>,
    pub content: Seq<char>,
    pub category: memory::CategoryView,
    pub supersedes: Option<json::Document>,
}

impl Request {
    pub open spec fn view(&self) -> RequestView {
        RequestView {
            key: self.key@,
            content: self.content@,
            category: self.category@,
            supersedes: match self.supersedes {
                Some(value) => Some(value@),
                None => None,
            },
        }
    }
}

/// An entry to be written, and the entries that it supersedes.
#[derive(Debug)]
pub struct Work {
    pub key: String,
    pub content: String,
    pub category: MemoryCategory,
    /// The ids of the entries that it supersedes.
    pub ids: Vec<String>,
    /// These entries, once they have been found.
    pub previous: Vec<MemoryEntry>,
}

/// What a [`Work`] says.
#[verifier::ext_equal]
pub struct WorkView {
    pub key: Seq<char>,
    pub content: Seq<char>,
    pub category: memory::CategoryView,
    pub ids: Seq<Seq<char>>,
    pub previous: Seq<memory::EntryView>,
}

impl Work {
    pub open spec fn view(&self) -> WorkView {
        WorkView {
            key: self.key@,
            content: self.content@,
            category: self.category@,
            ids: text::views(self.ids@),
            previous: memory::entry_views(self.previous@),
        }
    }
}

/// A correction whose predecessors are looked up again, one after the other.
#[derive(Debug)]
pub struct Check {
    pub work: Work,
    /// How many of them have been looked up.
    pub at: usize,
    /// Whether all of these were hidden.
    pub retired: bool,
}

/// What a [`Check`] says.
#[verifier::ext_equal]
pub struct CheckView {
    pub work: WorkView,
    pub at: int,
    pub retired: bool,
}

impl Check {
    pub open spec fn view(&self) -> CheckView {
        CheckView { work: self.work@, at: self.at as int, retired: self.retired }
    }
}

/// What to ask next.
#[derive(Debug)]
pub enum Step {
    /// Whether the policy lets the tool act: [`Request::enforced`].
    Enforce(Request),
    /// All entries, superseded ones too: [`Work::exported`].
    Export(Work),
    /// Whether an entry is there under the key: [`Work::probed`].
    Probe(Work),
    /// To store the entry: [`Work::stored`].
    Store(Work),
    /// To supersede the entries by the one under the key: [`Work::superseded`].
    Supersede(Work),
    /// The entry under the key of a predecessor ([`Check::wanted`]), for its
    /// agent if it has one: [`Check::looked_up`].
    LookUp(Check),
    /// Nothing more.
    Done(Result<ToolResult, Failure>),
}

/// What a [`Step`] says.
#[verifier::ext_equal]
pub enum StepView {
    Enforce(RequestView),
    Export(WorkView),
    Probe(WorkView),
    Store(WorkView),
    Supersede(WorkView),
    LookUp(CheckView),
    Done(Result<ToolResultView, FailureView>),
}

impl Step {
    pub open spec fn view(&self) -> StepView {
        match self {
            Step::Enforce(request) => StepView::Enforce(request@),
            Step::Export(work) => StepView::Export(work@),
            Step::Probe(work) => StepView::Probe(work@),
            Step::Store(work) => StepView::Store(work@),
            Step::Supersede(work) => StepView::Supersede(work@),
            Step::LookUp(check) => StepView::LookUp(check@),
            Step::Done(Ok(result)) => StepView::Done(Ok(result@)),
            Step::Done(Err(failure)) => StepView::Done(Err(failure@)),
        }
    }
}

/// What an answer says.
pub open spec fn answer_view<T>(answer: Result<T, String>) -> Result<T, Seq<char>> {
    match answer {
        Ok(t) => Ok(t),
        Err(e) => Err(e@),
    }
}

/// The category that a call asks for: the core where it asks for none.
pub open spec fn asked_category(args: json::Document) -> memory::CategoryView {
    match args.at("category"@) {
        json::Document::Text(name) => memory::category_named(name),
        _ => memory::CategoryView::Core,
    }
}

/// The first step of a call.
pub open spec fn first_step(args: json::Document) -> StepView {
    match args.at("key"@) {
        json::Document::Text(key) => match args.at("content"@) {
            json::Document::Text(content) => StepView::Enforce(
                RequestView {
                    key,
                    content,
                    category: asked_category(args),
                    supersedes: args.get("supersedes"@),
                },
            ),
            _ => StepView::Done(Err(FailureView::MissingContent)),
        },
        _ => StepView::Done(Err(FailureView::MissingKey)),
    }
}

/// The ids that a call says it supersedes.
pub open spec fn superseded_ids(supersedes: Option<json::Document>) -> Result<
    Seq<Seq<char>>,
    FailureView,
> {
    match supersedes {
        None => Ok(Seq::empty()),
        Some(document) => match document.as_texts() {
            None => Err(FailureView::NotTexts(json::texts_error(document))),
            Some(ids) => if ids.len() <= MAX_SUPERSEDED && ids.no_duplicates() {
                Ok(ids)
            } else {
                Err(FailureView::InvalidPredecessors)
            },
        },
    }
}

/// The step after the policy has spoken.
pub open spec fn after_enforce(request: RequestView, verdict: Result<(), Seq<char>>) -> StepView {
    match verdict {
        Err(e) => StepView::Done(
            Ok(ToolResultView { success: false, output: SaidView::Nothing, error: Some(e) }),
        ),
        Ok(()) => match superseded_ids(request.supersedes) {
            Err(failure) => StepView::Done(Err(failure)),
            Ok(ids) => {
                let work = WorkView {
                    key: request.key,
                    content: request.content,
                    category: request.category,
                    ids,
                    previous: Seq::empty(),
                };
                if ids.len() == 0 {
                    StepView::Store(work)
                } else {
                    StepView::Export(work)
                }
            },
        },
    }
}

/// Whether an entry has an id and is still recalled.
pub open spec fn is_live(entry: memory::EntryView, id: Seq<char>) -> bool {
    entry.id == id && entry.superseded_by is None
}

/// The first entry that has an id and is still recalled.
pub open spec fn live_entry(entries: Seq<memory::EntryView>, id: Seq<char>) -> Option<
    memory::EntryView,
>
    decreases entries.len(),
{
    if entries.len() == 0 {
        None
    } else {
        match live_entry(entries.drop_last(), id) {
            Some(entry) => Some(entry),
            None => if is_live(entries.last(), id) {
                Some(entries.last())
            } else {
                None
            },
        }
    }
}

/// The entries that a correction under `key` supersedes, in order.
pub open spec fn predecessors(
    entries: Seq<memory::EntryView>,
    ids: Seq<Seq<char>>,
    key: Seq<char>,
) -> Result<Seq<memory::EntryView>, FailureView>
    decreases ids.len(),
{
    if ids.len() == 0 {
        Ok(Seq::empty())
    } else {
        match predecessors(entries, ids.drop_last(), key) {
            Err(failure) => Err(failure),
            Ok(found) => match live_entry(entries, ids.last()) {
                None => Err(FailureView::MissingPredecessor),
                Some(entry) => if entry.key == key {
                    Err(FailureView::DistinctKey)
                } else {
                    Ok(found.push(entry))
                },
            },
        }
    }
}

/// The step after the memory has handed out its entries.
pub open spec fn after_export(
    work: WorkView,
    entries: Result<Seq<memory::EntryView>, Seq<char>>,
) -> StepView {
    match entries {
        Err(e) => StepView::Done(Err(FailureView::Backend(e))),
        Ok(entries) => match predecessors(entries, work.ids, work.key) {
            Err(failure) => StepView::Done(Err(failure)),
            Ok(previous) => StepView::Probe(WorkView { previous, ..work }),
        },
    }
}

/// The step after the key has been looked for.
pub open spec fn after_probe(work: WorkView, taken: Result<bool, Seq<char>>) -> StepView {
    match taken {
        Err(e) => StepView::Done(Err(FailureView::Backend(e))),
        Ok(true) => StepView::Done(Err(FailureView::DistinctKey)),
        Ok(false) => StepView::Store(work),
    }
}

/// The step after the entry has been stored.
pub open spec fn after_store(work: WorkView, stored: Result<(), Seq<char>>) -> StepView {
    match stored {
        Err(e) => StepView::Done(
            Ok(
                ToolResultView {
                    success: false,
                    output: SaidView::Nothing,
                    error: Some("Failed to store memory: "@ + e),
                },
            ),
        ),
        Ok(()) => if work.ids.len() == 0 {
            StepView::Done(
                Ok(
                    ToolResultView {
                        success: true,
                        output: SaidView::Text("Stored memory: "@ + work.key),
                        error: None,
                    },
                ),
            )
        } else {
            StepView::Supersede(work)
        },
    }
}

/// What is said of a correction.
pub open spec fn correction_result(
    work: WorkView,
    retired: bool,
    error: Option<Seq<char>>,
) -> ToolResultView {
    ToolResultView {
        success: retired,
        output: SaidView::Message(
            message::MessageView {
                key: if retired {
                    "tool-memory-store-corrected"@
                } else {
                    "tool-memory-store-correction-incomplete"@
                },
                args: seq![("key"@, work.key), ("count"@, text::decimal(work.ids.len()))],
            },
        ),
        error,
    }
}

/// The step after the predecessors have been superseded.
pub open spec fn after_supersede(work: WorkView, superseded: Result<(), Seq<char>>) -> StepView {
    match superseded {
        Err(e) => StepView::Done(Ok(correction_result(work, false, Some(e)))),
        Ok(()) => checking(CheckView { work, at: 0, retired: true }),
    }
}

/// The step of a check: the next look-up, or the result.
pub open spec fn checking(check: CheckView) -> StepView {
    if check.at < check.work.previous.len() {
        StepView::LookUp(check)
    } else {
        StepView::Done(Ok(correction_result(check.work, check.retired, None)))
    }
}

/// Whether a look-up found an entry hidden: the same entry, superseded.
pub open spec fn is_hidden(found: Option<memory::EntryView>, old: memory::EntryView) -> bool {
    match found {
        Some(entry) => entry.id == old.id && entry.superseded_by is Some,
        None => false,
    }
}

/// The step after a predecessor has been looked up.
pub open spec fn after_look_up(
    check: CheckView,
    found: Result<Option<memory::EntryView>, Seq<char>>,
) -> StepView {
    if check.at < check.work.previous.len() {
        match found {
            Err(e) => StepView::Done(Err(FailureView::Backend(e))),
            Ok(found) => checking(
                CheckView {
                    work: check.work,
                    at: check.at + 1,
                    retired: check.retired && is_hidden(found, check.work.previous[check.at]),
                },
            ),
        }
    } else {
        checking(check)
    }
}

/// What an answer says that may hold an entry.
pub open spec fn found_view(found: Result<Option<MemoryEntry>, String>) -> Result<
    Option<memory::EntryView>,
    Seq<char>,
> {
    match found {
        Ok(Some(entry)) => Ok(Some(entry@)),
        Ok(None) => Ok(None),
        Err(e) => Err(e@),
    }
}

/// What an answer says that holds entries.
pub open spec fn entries_view(entries: Result<Vec<MemoryEntry>, String>) -> Result<
    Seq<memory::EntryView>,
    Seq<char>,
> {
    match entries {
        Ok(list) => Ok(memory::entry_views(list@)),
        Err(e) => Err(e@),
    }
}

/// Whether all texts are different, and not more than allowed.
fn acceptable(ids: &Vec<String>) -> (out: bool)
    ensures
        out == (ids@.len() <= MAX_SUPERSEDED && text::views(ids@).no_duplicates()),
{
    let ghost all = text::views(ids@);
    if ids.len() > MAX_SUPERSEDED {
        return false;
    }
    let mut i: usize = 0;
    while i < ids.len()
        invariant
            i <= ids@.len(),
            all == text::views(ids@),
            forall|a: int, b: int| 0 <= a < b < i ==> all[a] != all[b],
        decreases ids@.len() - i,
    {
        let mut j: usize = 0;
        while j < i
            invariant
                j <= i < ids@.len(),
                all == text::views(ids@),
                forall|a: int| 0 <= a < j ==> all[a] != all[i as int],
            decreases i - j,
        {
            if text::same(ids[j].as_str(), ids[i].as_str()) {
                proof {
                    assert(all[j as int] == all[i as int]);
                }
                return false;
            }
            proof {
                assert(all[j as int] != all[i as int]);
            }
            j += 1;
        }
        i += 1;
    }
    true
}

impl Request {
    /// The next step, once the policy has spoken.
    pub fn enforced(self, verdict: Result<(), String>) -> (out: Step)
        ensures
            out@ == after_enforce(self@, answer_view(verdict)),
    {
        if let Err(e) = verdict {
            return Step::Done(
                Ok(ToolResult { success: false, output: Said::Nothing, error: Some(e) }),
            );
        }
        let Request { key, content, category, supersedes } = self;
        let ids: Vec<String> = match &supersedes {
            None => {
                let none: Vec<String> = Vec::new();
                proof {
                    assert(text::views(none@) =~= Seq::<Seq<char>>::empty());
                }
                none
            },
            Some(value) => match value.texts() {
                Err(e) => return Step::Done(Err(Failure::NotTexts(e))),
                Ok(ids) => {
                    if !acceptable(&ids) {
                        return Step::Done(Err(Failure::InvalidPredecessors));
                    }
                    ids
                },
            },
        };
        let none_named: bool = ids.len() == 0;
        let work: Work = Work { key, content, category, ids, previous: Vec::new() };
        proof {
            assert(memory::entry_views(work.previous@) =~= Seq::<memory::EntryView>::empty());
        }
        if none_named {
            Step::Store(work)
        } else {
            Step::Export(work)
        }
    }
}

/// The first entry that has an id and is still recalled.
fn find_live<'a>(entries: &'a Vec<MemoryEntry>, id: &str) -> (out: Option<&'a MemoryEntry>)
    ensures
        live_entry(memory::entry_views(entries@), id@) == (match out {
            Some(entry) => Some(entry@),
            None => None,
        }),
{
    let ghost all = memory::entry_views(entries@);
    let mut i: usize = 0;
    proof {
        assert(all.take(0) =~= Seq::<memory::EntryView>::empty());
    }
    while i < entries.len()
        invariant
            i <= entries@.len(),
            all == memory::entry_views(entries@),
            live_entry(all.take(i as int), id@) is None,
        decreases entries@.len() - i,
    {
        let entry: &MemoryEntry = &entries[i];
        proof {
            assert(all.take(i + 1).drop_last() =~= all.take(i as int));
            assert(all.take(i + 1).last() == entry@);
        }
        if text::same(entry.id.as_str(), id) && entry.superseded_by.is_none() {
            proof {
                lemma_live_entry_stays(all, id@, i + 1);
            }
            return Some(entry);
        }
        i += 1;
    }
    proof {
        assert(all.take(i as int) =~= all);
    }
    None
}

proof fn lemma_live_entry_stays(entries: Seq<memory::EntryView>, id: Seq<char>, n: int)
    requires
        0 <= n <= entries.len(),
        live_entry(entries.take(n), id) is Some,
    ensures
        live_entry(entries, id) == live_entry(entries.take(n), id),
    decreases entries.len() - n,
{
    if n == entries.len() {
        assert(entries.take(n) =~= entries);
    } else {
        assert(entries.take(n + 1).drop_last() =~= entries.take(n));
        lemma_live_entry_stays(entries, id, n + 1);
    }
}

fn find_predecessors(entries: &Vec<MemoryEntry>, ids: &Vec<String>, key: &str) -> (out: Result<
    Vec<MemoryEntry>,
    Failure,
>)
    ensures
        predecessors(memory::entry_views(entries@), text::views(ids@), key@) == (match out {
            Ok(found) => Ok(memory::entry_views(found@)),
            Err(failure) => Err(failure@),
        }),
{
    let ghost all = memory::entry_views(entries@);
    let ghost wanted = text::views(ids@);
    let mut found: Vec<MemoryEntry> = Vec::new();
    let mut i: usize = 0;
    proof {
        assert(wanted.take(0) =~= Seq::<Seq<char>>::empty());
        assert(memory::entry_views(found@) =~= Seq::<memory::EntryView>::empty());
    }
    while i < ids.len()
        invariant
            i <= ids@.len(),
            all == memory::entry_views(entries@),
            wanted == text::views(ids@),
            predecessors(all, wanted.take(i as int), key@) == Ok::<
                Seq<memory::EntryView>,
                FailureView,
            >(memory::entry_views(found@)),
        decreases ids@.len() - i,
    {
        proof {
            assert(wanted.take(i + 1).drop_last() =~= wanted.take(i as int));
            assert(wanted.take(i + 1).last() == ids@[i as int]@);
        }
        let ghost before = found@;
        match find_live(entries, ids[i].as_str()) {
            None => {
                proof {
                    lemma_failure_stays(all, wanted, key@, i + 1);
                }
                return Err(Failure::MissingPredecessor);
            },
            Some(entry) => {
                if text::same(entry.key.as_str(), key) {
                    proof {
                        lemma_failure_stays(all, wanted, key@, i + 1);
                    }
                    return Err(Failure::DistinctKey);
                }
                found.push(entry.copy());
                proof {
                    assert(memory::entry_views(found@) =~= memory::entry_views(before).push(
                        entry@,
                    ));
                }
            },
        }
        i += 1;
    }
    proof {
        assert(wanted.take(i as int) =~= wanted);
    }
    Ok(found)
}

proof fn lemma_failure_stays(
    entries: Seq<memory::EntryView>,
    ids: Seq<Seq<char>>,
    key: Seq<char>,
    n: int,
)
    requires
        0 <= n <= ids.len(),
        predecessors(entries, ids.take(n), key) is Err,
    ensures
        predecessors(entries, ids, key) == predecessors(entries, ids.take(n), key),
    decreases ids.len() - n,
{
    if n == ids.len() {
        assert(ids.take(n) =~= ids);
    } else {
        assert(ids.take(n + 1).drop_last() =~= ids.take(n));
        lemma_failure_stays(entries, ids, key, n + 1);
    }
}

impl Work {
    /// The next step, once the memory has handed out its entries. A correction
    /// keeps the old record under its old key: storing under the same key would
    /// erase that evidence before it could be hidden.
    pub fn exported(self, entries: Result<Vec<MemoryEntry>, String>) -> (out: Step)
        ensures
            out@ == after_export(self@, entries_view(entries)),
    {
        match entries {
            Err(e) => Step::Done(Err(Failure::Backend(e))),
            Ok(entries) => match find_predecessors(&entries, &self.ids, self.key.as_str()) {
                Err(failure) => Step::Done(Err(failure)),
                Ok(previous) => Step::Probe(
                    Work {
                        key: self.key,
                        content: self.content,
                        category: self.category,
                        ids: self.ids,
                        previous,
                    },
                ),
            },
        }
    }

    /// The next step, once the key has been looked for.
    pub fn probed(self, taken: Result<bool, String>) -> (out: Step)
        ensures
            out@ == after_probe(self@, answer_view(taken)),
    {
        match taken {
            Err(e) => Step::Done(Err(Failure::Backend(e))),
            Ok(true) => Step::Done(Err(Failure::DistinctKey)),
            Ok(false) => Step::Store(self),
        }
    }

    /// The next step, once the entry has been stored.
    pub fn stored(self, stored: Result<(), String>) -> (out: Step)
        ensures
            out@ == after_store(self@, answer_view(stored)),
    {
        match stored {
            Err(e) => Step::Done(
                Ok(
                    ToolResult {
                        success: false,
                        output: Said::Nothing,
                        error: Some(text::concat2("Failed to store memory: ", e.as_str())),
                    },
                ),
            ),
            Ok(()) => if self.ids.len() == 0 {
                Step::Done(
                    Ok(
                        ToolResult {
                            success: true,
                            output: Said::Text(
                                text::concat2("Stored memory: ", self.key.as_str()),
                            ),
                            error: None,
                        },
                    ),
                )
            } else {
                Step::Supersede(self)
            },
        }
    }

    /// The next step, once the predecessors have been superseded. A memory may
    /// not support that and say nothing, so they are looked up again.
    pub fn superseded(self, superseded: Result<(), String>) -> (out: Step)
        ensures
            out@ == after_supersede(self@, answer_view(superseded)),
    {
        match superseded {
            Err(e) => Step::Done(Ok(self.correction(false, Some(e)))),
            Ok(()) => Check { work: self, at: 0, retired: true }.go_on(),
        }
    }

    fn correction(&self, retired: bool, error: Option<String>) -> (out: ToolResult)
        ensures
            out@ == correction_result(self@, retired, text::option_view(error)),
    {
        let count: String = text::decimal_text(self.ids.len() as u64);
        let key: &'static str = if retired {
            "tool-memory-store-corrected"
        } else {
            "tool-memory-store-correction-incomplete"
        };
        ToolResult {
            success: retired,
            output: Said::Message(
                Message::with2(key, "key", self.key.as_str(), "count", count.as_str()),
            ),
            error,
        }
    }
}

impl Check {
    fn go_on(self) -> (out: Step)
        ensures
            out@ == checking(self@),
    {
        if self.at < self.work.previous.len() {
            Step::LookUp(self)
        } else {
            Step::Done(Ok(self.work.correction(self.retired, None)))
        }
    }

    /// The predecessor to look up, where one is left.
    pub fn wanted(&self) -> (out: Option<&MemoryEntry>)
        ensures
            out is Some <==> self@.at < self@.work.previous.len(),
            out matches Some(entry) ==> entry@ == self@.work.previous[self@.at],
    {
        if self.at < self.work.previous.len() {
            Some(&self.work.previous[self.at])
        } else {
            None
        }
    }

    /// The next step, once the predecessor has been looked up.
    pub fn looked_up(self, found: Result<Option<MemoryEntry>, String>) -> (out: Step)
        ensures
            out@ == after_look_up(self@, found_view(found)),
    {
        if self.at >= self.work.previous.len() {
            return self.go_on();
        }
        match found {
            Err(e) => Step::Done(Err(Failure::Backend(e))),
            Ok(found) => {
                let old: &MemoryEntry = &self.work.previous[self.at];
                let hidden: bool = match &found {
                    Some(entry) => text::same(entry.id.as_str(), old.id.as_str())
                        && entry.superseded_by.is_some(),
                    None => false,
                };
                let at: usize = self.at + 1;
                let retired: bool = self.retired && hidden;
                Check { work: self.work, at, retired }.go_on()
            },
        }
    }
}

/// Lets the agent store memories.
pub struct MemoryStoreTool {}

/// `{"type": kind, "description": description}`.
pub open spec fn property(kind: Seq<char>, description: Seq<char>) -> json::Document {
    json::Document::Object(
        Map::<Seq<char>, json::Document>::empty().insert(
            "type"@,
            json::Document::Text(kind),
        ).insert("description"@, json::Document::Text(description)),
    )
}

/// The shape of a list of ids.
pub open spec fn supersedes_property(description: Seq<char>) -> json::Document {
    json::Document::Object(
        Map::<Seq<char>, json::Document>::empty().insert(
            "type"@,
            json::Document::Text("array"@),
        ).insert(
            "items"@,
            json::Document::Object(
                Map::<Seq<char>, json::Document>::empty().insert(
                    "type"@,
                    json::Document::Text("string"@),
                ),
            ),
        ).insert(
            "maxItems"@,
            json::Document::Number(json::number_of(MAX_SUPERSEDED as u64)),
        ).insert("description"@, json::Document::Text(description)),
    )
}

/// The shape of the tool's arguments.
pub open spec fn schema(supersedes: Seq<char>) -> json::Document {
    json::Document::Object(
        Map::<Seq<char>, json::Document>::empty().insert(
            "type"@,
            json::Document::Text("object"@),
        ).insert(
            "properties"@,
            json::Document::Object(
                Map::<Seq<char>, json::Document>::empty().insert(
                    "key"@,
                    property(
                        "string"@,
                        "Unique key for this memory (e.g. 'user_lang', 'project_stack')"@,
                    ),
                ).insert("content"@, property("string"@, "The information to remember"@)).insert(
                    "category"@,
                    property(
                        "string"@,
                        "Memory category: 'core' (permanent), 'daily' (session), 'conversation' (chat), or a custom category name. Defaults to 'core'."@,
                    ),
                ).insert("supersedes"@, supersedes_property(supersedes)),
            ),
        ).insert(
            "required"@,
            json::Document::Array(
                seq![json::Document::Text("key"@), json::Document::Text("content"@)],
            ),
        ),
    )
}

fn property_json(kind: &str, description: &str) -> (out: Json)
    ensures
        out@ == property(kind@, description@),
{
    let mut fields: Fields = Fields::new();
    fields.insert("type", Json::text(kind));
    fields.insert("description", Json::text(description));
    Json::Object(fields)
}

fn supersedes_json(description: &str) -> (out: Json)
    ensures
        out@ == supersedes_property(description@),
{
    let mut items: Fields = Fields::new();
    items.insert("type", Json::text("string"));
    let mut fields: Fields = Fields::new();
    fields.insert("type", Json::text("array"));
    fields.insert("items", Json::Object(items));
    fields.insert("maxItems", Json::number(MAX_SUPERSEDED as u64));
    fields.insert("description", Json::text(description));
    Json::Object(fields)
}

impl MemoryStoreTool {
    /// The tool.
    pub fn new() -> (out: Self)
        ensures
            out == (MemoryStoreTool {  }),
    {
        MemoryStoreTool {  }
    }

    /// The name under which an agent calls the tool.
    pub fn name(&self) -> (out: &'static str)
        ensures
            out@ == "memory_store"@,
    {
        "memory_store"
    }

    /// What an agent is told of the tool.
    pub fn description(&self) -> (out: &'static str)
        ensures
            out@
                == "Store a fact, preference, or note in long-term memory. Use category 'core' for permanent facts, 'daily' for session notes, 'conversation' for chat context, or a custom category name."@,
    {
        "Store a fact, preference, or note in long-term memory. Use category 'core' for permanent facts, 'daily' for session notes, 'conversation' for chat context, or a custom category name."
    }

    /// The shape of the tool's arguments. The words for `supersedes` are those
    /// of the message `tool-memory-store-supersedes`.
    pub fn parameters_schema(&self, supersedes: &str) -> (out: Json)
        ensures
            out@ == schema(supersedes@),
    {
        let mut properties: Fields = Fields::new();
        properties.insert(
            "key",
            property_json(
                "string",
                "Unique key for this memory (e.g. 'user_lang', 'project_stack')",
            ),
        );
        properties.insert("content", property_json("string", "The information to remember"));
        properties.insert(
            "category",
            property_json(
                "string",
                "Memory category: 'core' (permanent), 'daily' (session), 'conversation' (chat), or a custom category name. Defaults to 'core'.",
            ),
        );
        properties.insert("supersedes", supersedes_json(supersedes));
        let mut required: Vec<Json> = Vec::new();
        required.push(Json::text("key"));
        required.push(Json::text("content"));
        proof {
            assert(json::documents_of(required@) =~= seq![
                json::Document::Text("key"@),
                json::Document::Text("content"@),
            ]);
        }
        let mut fields: Fields = Fields::new();
        fields.insert("type", Json::text("object"));
        fields.insert("properties", Json::Object(properties));
        fields.insert("required", Json::Array(required));
        Json::Object(fields)
    }

    /// Begins a call: reads its arguments. What follows is asked step by step.
    pub fn execute(&self, args: &Json) -> (out: Step)
        ensures
            out@ == first_step(args@),
    {
        let key: &str = match args.text_field("key") {
            Some(key) => key,
            None => return Step::Done(Err(Failure::MissingKey)),
        };
        let content: &str = match args.text_field("content") {
            Some(content) => content,
            None => return Step::Done(Err(Failure::MissingContent)),
        };
        let category: MemoryCategory = match args.text_field("category") {
            Some(name) => memory::named_category(name),
            None => MemoryCategory::Core,
        };
        let supersedes: Option<Json> = match args.get("supersedes") {
            Some(value) => Some(value.copy()),
            None => None,
        };
        Step::Enforce(
            Request { key: key.to_owned(), content: content.to_owned(), category, supersedes },
        )
    }
}

/// All answers that a call can be given.
pub struct Answers {
    pub verdict: Result<(), Seq<char>>,
    pub entries: Result<Seq<memory::EntryView>, Seq<char>>,
    pub taken: Result<bool, Seq<char>>,
    pub stored: Result<(), Seq<char>>,
    pub superseded: Result<(), Seq<char>>,
    pub found: Seq<Result<Option<memory::EntryView>, Seq<char>>>,
}

/// The step that follows a step under some answers.
pub open spec fn next_step(step: StepView, answers: Answers) -> StepView {
    match step {
        StepView::Enforce(request) => after_enforce(request, answers.verdict),
        StepView::Export(work) => after_export(work, answers.entries),
        StepView::Probe(work) => after_probe(work, answers.taken),
        StepView::Store(work) => after_store(work, answers.stored),
        StepView::Supersede(work) => after_supersede(work, answers.superseded),
        StepView::LookUp(check) => after_look_up(check, answers.found[check.at]),
        StepView::Done(_) => step,
    }
}

/// Where a call has come to after `n` answers.
pub open spec fn step_after(args: json::Document, answers: Answers, n: nat) -> StepView
    decreases n,
{
    if n == 0 {
        first_step(args)
    } else {
        next_step(step_after(args, answers, (n - 1) as nat), answers)
    }
}

/// Whether the entry to be written is the one that the call asks for.
pub open spec fn is_asked_for(work: WorkView, args: json::Document) -> bool {
    &&& args.at("key"@) == json::Document::Text(work.key)
    &&& args.at("content"@) == json::Document::Text(work.content)
    &&& work.category == asked_category(args)
    &&& superseded_ids(args.get("supersedes"@)) == Ok::<Seq<Seq<char>>, FailureView>(work.ids)
}

/// Whether a call may write: the policy allows it, and a correction has found
/// each predecessor recalled, under another key, and its own key free.
pub open spec fn may_write(work: WorkView, args: json::Document, answers: Answers) -> bool {
    &&& is_asked_for(work, args)
    &&& answers.verdict is Ok
    &&& work.ids.len() > 0 ==> {
        &&& answers.entries is Ok
        &&& work.previous.len() == work.ids.len()
        &&& forall|i: int|
            0 <= i < work.ids.len() ==> is_live(#[trigger] work.previous[i], work.ids[i])
                && work.previous[i].key != work.key && answers.entries->Ok_0.contains(
                work.previous[i],
            )
        &&& answers.taken == Ok::<bool, Seq<char>>(false)
    }
}

/// Whether a correction is completed: each predecessor has been superseded, and
/// been seen hidden afterwards.
pub open spec fn is_completed(work: WorkView, answers: Answers) -> bool {
    &&& answers.stored is Ok
    &&& answers.superseded is Ok
    &&& forall|i: int|
        0 <= i < work.previous.len() ==> (#[trigger] answers.found[i]) is Ok && is_hidden(
            answers.found[i]->Ok_0,
            work.previous[i],
        )
}

/// What holds of a call wherever it has come to.
pub open spec fn is_sound(step: StepView, args: json::Document, answers: Answers) -> bool {
    match step {
        StepView::Enforce(request) => {
            &&& args.at("key"@) == json::Document::Text(request.key)
            &&& args.at("content"@) == json::Document::Text(request.content)
            &&& request.category == asked_category(args)
            &&& request.supersedes == args.get("supersedes"@)
        },
        StepView::Export(work) => is_asked_for(work, args) && answers.verdict is Ok
            && work.ids.len() > 0,
        StepView::Probe(work) => {
            &&& is_asked_for(work, args)
            &&& answers.verdict is Ok
            &&& work.ids.len() > 0
            &&& answers.entries is Ok
            &&& predecessors(answers.entries->Ok_0, work.ids, work.key) == Ok::<
                Seq<memory::EntryView>,
                FailureView,
            >(work.previous)
        },
        StepView::Store(work) => may_write(work, args, answers),
        StepView::Supersede(work) => may_write(work, args, answers) && work.ids.len() > 0
            && answers.stored is Ok,
        StepView::LookUp(check) => {
            &&& may_write(check.work, args, answers)
            &&& check.work.ids.len() > 0
            &&& answers.stored is Ok
            &&& answers.superseded is Ok
            &&& 0 <= check.at <= check.work.previous.len()
            &&& check.retired ==> forall|i: int|
                0 <= i < check.at ==> (#[trigger] answers.found[i]) is Ok && is_hidden(
                    answers.found[i]->Ok_0,
                    check.work.previous[i],
                )
        },
        StepView::Done(Ok(result)) => result.success ==> exists|work: WorkView|
            {
                &&& #[trigger] may_write(work, args, answers)
                &&& answers.stored is Ok
                &&& work.ids.len() > 0 ==> is_completed(work, answers)
            },
        StepView::Done(Err(_)) => true,
    }
}

proof fn lemma_predecessors(
    entries: Seq<memory::EntryView>,
    ids: Seq<Seq<char>>,
    key: Seq<char>,
)
    requires
        predecessors(entries, ids, key) is Ok,
    ensures
        ({
            let found = predecessors(entries, ids, key)->Ok_0;
            &&& found.len() == ids.len()
            &&& forall|i: int|
                0 <= i < ids.len() ==> is_live(#[trigger] found[i], ids[i]) && found[i].key != key
                    && entries.contains(found[i])
        }),
    decreases ids.len(),
{
    if ids.len() > 0 {
        lemma_predecessors(entries, ids.drop_last(), key);
        lemma_live_entry(entries, ids.last());
    }
}

proof fn lemma_live_entry(entries: Seq<memory::EntryView>, id: Seq<char>)
    ensures
        live_entry(entries, id) matches Some(entry) ==> is_live(entry, id) && entries.contains(
            entry,
        ),
    decreases entries.len(),
{
    if entries.len() > 0 {
        lemma_live_entry(entries.drop_last(), id);
        if let Some(entry) = live_entry(entries.drop_last(), id) {
            let i = choose|i: int|
                0 <= i < entries.len() - 1 && entries.drop_last()[i] == entry;
            assert(entries[i] == entry);
        } else {
            assert(entries[entries.len() - 1] == entries.last());
        }
    }
}

proof fn lemma_sound_next(step: StepView, args: json::Document, answers: Answers)
    requires
        is_sound(step, args, answers),
    ensures
        is_sound(next_step(step, answers), args, answers),
{
    match step {
        StepView::Enforce(request) => {},
        StepView::Export(work) => {},
        StepView::Probe(work) => {
            lemma_predecessors(answers.entries->Ok_0, work.ids, work.key);
        },
        StepView::Store(work) => {
            assert(may_write(work, args, answers));
        },
        StepView::Supersede(work) => {
            assert(may_write(work, args, answers));
        },
        StepView::LookUp(check) => {
            assert(may_write(check.work, args, answers));
            if check.at < check.work.previous.len() && answers.found[check.at] is Ok {
                let hidden = is_hidden(
                    answers.found[check.at]->Ok_0,
                    check.work.previous[check.at],
                );
                let retired = check.retired && hidden;
                if retired && check.at + 1 == check.work.previous.len() {
                    assert(is_completed(check.work, answers));
                }
            }
        },
        StepView::Done(_) => {},
    }
}

proof fn lemma_sound(args: json::Document, answers: Answers, n: nat)
    ensures
        is_sound(step_after(args, answers, n), args, answers),
    decreases n,
{
    if n > 0 {
        lemma_sound(args, answers, (n - 1) as nat);
        lemma_sound_next(step_after(args, answers, (n - 1) as nat), args, answers);
    }
}

/// Nothing is written unless the policy allows it; and a correction writes only
/// when each predecessor has been found recalled and under another key, and its
/// own key free, so that no evidence is overwritten. What is written is what the
/// call asks for.
pub proof fn law_only_an_allowed_call_writes(args: json::Document, answers: Answers, n: nat)
    requires
        step_after(args, answers, n) is Store,
    ensures
        may_write(step_after(args, answers, n)->Store_0, args, answers),
{
    lemma_sound(args, answers, n);
}

/// Entries are superseded only by an entry that has been stored, and never other
/// entries than those that the call names.
pub proof fn law_only_named_entries_are_superseded(
    args: json::Document,
    answers: Answers,
    n: nat,
)
    requires
        step_after(args, answers, n) is Supersede,
    ensures
        may_write(step_after(args, answers, n)->Supersede_0, args, answers),
        answers.stored is Ok,
        superseded_ids(args.get("supersedes"@)) == Ok::<Seq<Seq<char>>, FailureView>(
            step_after(args, answers, n)->Supersede_0.ids,
        ),
{
    lemma_sound(args, answers, n);
}

/// Success is reported only of an entry that has been stored, and of a
/// correction only when each of its predecessors has been seen hidden.
pub proof fn law_success_is_never_reported_too_early(
    args: json::Document,
    answers: Answers,
    n: nat,
)
    requires
        step_after(args, answers, n) matches StepView::Done(Ok(result)) && result.success,
    ensures
        exists|work: WorkView|
            {
                &&& #[trigger] may_write(work, args, answers)
                &&& answers.stored is Ok
                &&& work.ids.len() > 0 ==> is_completed(work, answers)
            },
{
    lemma_sound(args, answers, n);
}

/// A call that the policy refuses, or whose arguments are wrong, ends without a
/// word to the memory.
pub proof fn law_a_refused_call_asks_nothing_more(args: json::Document, answers: Answers)
    requires
        answers.verdict is Err || superseded_ids(args.get("supersedes"@)) is Err,
    ensures
        step_after(args, answers, 1) is Done,
{
    reveal_with_fuel(step_after, 2);
}

/// Every call comes to an end: after five answers at most, and one more for each
/// entry that it may supersede.
pub proof fn law_a_call_ends(args: json::Document, answers: Answers)
    ensures
        step_after(args, answers, 5 + MAX_SUPERSEDED as nat) is Done,
{
    lemma_distance(args, answers, 5 + MAX_SUPERSEDED as nat);
}

/// How many more answers a call can take.
spec fn distance(step: StepView) -> int {
    match step {
        StepView::Enforce(_) => 5 + MAX_SUPERSEDED as int,
        StepView::Export(work) => 4 + work.ids.len() as int,
        StepView::Probe(work) => 3 + work.ids.len() as int,
        StepView::Store(work) => 2 + work.ids.len() as int,
        StepView::Supersede(work) => 1 + work.ids.len() as int,
        StepView::LookUp(check) => check.work.previous.len() - check.at,
        StepView::Done(_) => 0,
    }
}

proof fn lemma_distance(args: json::Document, answers: Answers, n: nat)
    ensures
        distance(step_after(args, answers, n)) <= 5 + MAX_SUPERSEDED - n || step_after(
            args,
            answers,
            n,
        ) is Done,
    decreases n,
{
    if n > 0 {
        let m = (n - 1) as nat;
        lemma_distance(args, answers, m);
        lemma_sound(args, answers, m);
        let step = step_after(args, answers, m);
        if let StepView::Export(work) = step {
            if answers.entries is Ok && predecessors(
                answers.entries->Ok_0,
                work.ids,
                work.key,
            ) is Ok {
                lemma_predecessors(answers.entries->Ok_0, work.ids, work.key);
            }
        }
    }
}

/// What is asked to be stored has the key, the content and the category that the
/// call names: the core where it names none or `core`, the daily notes for
/// `daily`, the chat for `conversation`, and for any other name that name itself.
pub proof fn law_the_category_is_the_one_named(
    args: json::Document,
    key: Seq<char>,
    content: Seq<char>,
    name: Seq<char>,
)
    requires
        args.at("key"@) == json::Document::Text(key),
        args.at("content"@) == json::Document::Text(content),
    ensures
        first_step(args) matches StepView::Enforce(request) && {
            &&& request.key == key
            &&& request.content == content
            &&& request.supersedes == args.get("supersedes"@)
            &&& !(args.at("category"@) is Text) ==> request.category is Core
            &&& args.at("category"@) == json::Document::Text("core"@) ==> request.category is Core
            &&& args.at("category"@) == json::Document::Text("daily"@) ==> request.category is Daily
            &&& args.at("category"@) == json::Document::Text("conversation"@)
                ==> request.category is Conversation
            &&& args.at("category"@) == json::Document::Text(name) && name != "core"@ && name
                != "daily"@ && name != "conversation"@ ==> request.category
                == memory::CategoryView::Custom(name)
        },
{
    memory::law_names_of_categories(name);
}

/// A call without a text for its key, or for its content, fails with what it
/// lacks; the key is looked at first.
pub proof fn law_a_call_names_key_and_content(args: json::Document)
    ensures
        !(args.at("key"@) is Text) ==> first_step(args) == StepView::Done(
            Err(FailureView::MissingKey),
        ),
        args.at("key"@) is Text && !(args.at("content"@) is Text) ==> first_step(args)
            == StepView::Done(Err(FailureView::MissingContent)),
{
}

/// What a call supersedes: nothing where it says nothing of it; otherwise the
/// texts that it lists, at most twenty of them and none twice.
pub proof fn law_what_a_call_supersedes(listed: json::Document, ids: Seq<Seq<char>>)
    ensures
        superseded_ids(None) == Ok::<Seq<Seq<char>>, FailureView>(Seq::empty()),
        listed.as_texts() is None ==> superseded_ids(Some(listed)) == Err::<
            Seq<Seq<char>>,
            FailureView,
        >(FailureView::NotTexts(json::texts_error(listed))),
        listed.as_texts() == Some(ids) && ids.len() <= 20 && (forall|i: int, j: int|
            0 <= i < j < ids.len() ==> ids[i] != ids[j]) ==> superseded_ids(Some(listed)) == Ok::<
            Seq<Seq<char>>,
            FailureView,
        >(ids),
        listed.as_texts() == Some(ids) && (ids.len() > 20 || exists|i: int, j: int|
            0 <= i < j < ids.len() && ids[i] == ids[j]) ==> superseded_ids(Some(listed)) == Err::<
            Seq<Seq<char>>,
            FailureView,
        >(FailureView::InvalidPredecessors),
{
}

/// After the policy has spoken: a refusal ends the call with its words; a call
/// that supersedes nothing is stored as it was asked; one that does first has the
/// entries exported.
pub proof fn law_after_the_policy(request: RequestView, ids: Seq<Seq<char>>, words: Seq<char>)
    ensures
        after_enforce(request, Err(words)) == StepView::Done(
            Ok(ToolResultView { success: false, output: SaidView::Nothing, error: Some(words) }),
        ),
        superseded_ids(request.supersedes) == Ok::<Seq<Seq<char>>, FailureView>(ids) ==> {
            let work = WorkView {
                key: request.key,
                content: request.content,
                category: request.category,
                ids,
                previous: Seq::empty(),
            };
            &&& ids.len() == 0 ==> after_enforce(request, Ok(())) == StepView::Store(work)
            &&& ids.len() > 0 ==> after_enforce(request, Ok(())) == StepView::Export(work)
        },
        superseded_ids(request.supersedes) matches Err(failure) ==> after_enforce(request, Ok(()))
            == StepView::Done(Err(failure)),
{
}

/// An entry is recalled under its id where no other took its place; of several,
/// the first counts; and where there is none, none is found.
pub proof fn law_which_entry_is_live(entries: Seq<memory::EntryView>, id: Seq<char>, i: int)
    requires
        0 <= i < entries.len(),
    ensures
        entries[i].id == id && entries[i].superseded_by is None && (forall|j: int|
            0 <= j < i ==> (#[trigger] entries[j]).id != id || entries[j].superseded_by is Some)
            ==> live_entry(entries, id) == Some(entries[i]),
        live_entry(entries, id) is None ==> entries[i].id != id || entries[i].superseded_by is Some,
    decreases entries.len(),
{
    let front = entries.drop_last();
    lemma_live_entry(front, id);
    if i < front.len() {
        assert(front[i] == entries[i]);
        if entries[i].id == id && entries[i].superseded_by is None && (forall|j: int|
            0 <= j < i ==> (#[trigger] entries[j]).id != id || entries[j].superseded_by is Some) {
            assert forall|j: int| 0 <= j < i implies (#[trigger] front[j]).id != id
                || front[j].superseded_by is Some by {
                assert(front[j] == entries[j]);
            }
        }
        law_which_entry_is_live(front, id, i);
    } else if live_entry(front, id) is Some {
        let found = live_entry(front, id)->Some_0;
        let j = choose|j: int| 0 <= j < front.len() && front[j] == found;
        assert(entries[j] == found);
    }
}

/// The entries that a correction supersedes are found one for each id, in the
/// order of the ids: each the live one, and under another key than the
/// correction's. It fails at the first id for which that is not so, with what is
/// wrong with it.
pub proof fn law_predecessors_are_found_in_order(
    entries: Seq<memory::EntryView>,
    ids: Seq<Seq<char>>,
    key: Seq<char>,
    id: Seq<char>,
)
    ensures
        predecessors(entries, Seq::empty(), key) == Ok::<Seq<memory::EntryView>, FailureView>(
            Seq::empty(),
        ),
        predecessors(entries, ids, key) matches Err(failure) ==> predecessors(
            entries,
            ids.push(id),
            key,
        ) == Err::<Seq<memory::EntryView>, FailureView>(failure),
        predecessors(entries, ids, key) matches Ok(found) ==> {
            let next = predecessors(entries, ids.push(id), key);
            &&& live_entry(entries, id) is None ==> next == Err::<
                Seq<memory::EntryView>,
                FailureView,
            >(FailureView::MissingPredecessor)
            &&& live_entry(entries, id) matches Some(entry) ==> {
                &&& entry.key == key ==> next == Err::<Seq<memory::EntryView>, FailureView>(
                    FailureView::DistinctKey,
                )
                &&& entry.key != key ==> next == Ok::<Seq<memory::EntryView>, FailureView>(
                    found.push(entry),
                )
            }
        },
{
    assert(ids.push(id).drop_last() =~= ids);
}

/// A correction is stored once its predecessors have been found and its own key
/// is free; a taken key fails it, as does any answer that does not come.
pub proof fn law_before_a_correction_is_stored(
    work: WorkView,
    entries: Seq<memory::EntryView>,
    found: Seq<memory::EntryView>,
    words: Seq<char>,
)
    ensures
        after_export(work, Err(words)) == StepView::Done(Err(FailureView::Backend(words))),
        predecessors(entries, work.ids, work.key) == Ok::<Seq<memory::EntryView>, FailureView>(
            found,
        ) ==> after_export(work, Ok(entries)) == StepView::Probe(
            WorkView {
                key: work.key,
                content: work.content,
                category: work.category,
                ids: work.ids,
                previous: found,
            },
        ),
        predecessors(entries, work.ids, work.key) matches Err(failure) ==> after_export(
            work,
            Ok(entries),
        ) == StepView::Done(Err(failure)),
        after_probe(work, Err(words)) == StepView::Done(Err(FailureView::Backend(words))),
        after_probe(work, Ok(true)) == StepView::Done(Err(FailureView::DistinctKey)),
        after_probe(work, Ok(false)) == StepView::Store(work),
{
}

/// What is said once an entry was to be stored: that it failed, and why; that it
/// is stored, under which key; or nothing yet, where entries are still to be
/// superseded.
pub proof fn law_after_storing(work: WorkView, words: Seq<char>)
    ensures
        after_store(work, Err(words)) == StepView::Done(
            Ok(
                ToolResultView {
                    success: false,
                    output: SaidView::Nothing,
                    error: Some("Failed to store memory: "@ + words),
                },
            ),
        ),
        work.ids.len() == 0 ==> after_store(work, Ok(())) == StepView::Done(
            Ok(
                ToolResultView {
                    success: true,
                    output: SaidView::Text("Stored memory: "@ + work.key),
                    error: None,
                },
            ),
        ),
        work.ids.len() > 0 ==> after_store(work, Ok(())) == StepView::Supersede(work),
{
}

/// What a correction is said to have come to: its key and how many entries it
/// names, as corrected exactly where all of them were seen hidden.
pub proof fn law_what_is_said_of_a_correction(
    work: WorkView,
    retired: bool,
    error: Option<Seq<char>>,
)
    ensures
        ({
            let result = correction_result(work, retired, error);
            &&& result.success == retired
            &&& result.error == error
            &&& result.output matches SaidView::Message(message)
            &&& message.key == (if retired {
                "tool-memory-store-corrected"@
            } else {
                "tool-memory-store-correction-incomplete"@
            })
            &&& message.args.len() == 2
            &&& message.args[0] == ("key"@, work.key)
            &&& message.args[1].0 == "count"@
            &&& text::number_in(message.args[1].1) == work.ids.len()
        }),
{
    text::law_decimal(work.ids.len());
}

/// Once the entries are superseded each predecessor is looked up again, from the
/// first to the last. It counts as hidden where the same entry comes back
/// superseded; one that does not makes the correction incomplete, and the others
/// are still looked up.
pub proof fn law_each_predecessor_is_looked_up_again(
    work: WorkView,
    at: int,
    retired: bool,
    found: Option<memory::EntryView>,
    words: Seq<char>,
)
    requires
        0 <= at < work.previous.len(),
    ensures
        after_supersede(work, Err(words)) == StepView::Done(
            Ok(correction_result(work, false, Some(words))),
        ),
        after_supersede(work, Ok(())) == StepView::LookUp(CheckView { work, at: 0, retired: true }),
        after_look_up(CheckView { work, at, retired }, Err(words)) == StepView::Done(
            Err(FailureView::Backend(words)),
        ),
        ({
            let hidden = found is Some && found->Some_0.id == work.previous[at].id
                && found->Some_0.superseded_by is Some;
            let next = after_look_up(CheckView { work, at, retired }, Ok(found));
            &&& at + 1 < work.previous.len() ==> next == StepView::LookUp(
                CheckView { work, at: at + 1, retired: retired && hidden },
            )
            &&& at + 1 == work.previous.len() ==> next == StepView::Done(
                Ok(correction_result(work, retired && hidden, None)),
            )
        }),
{
}

/// The words for each failure.
pub proof fn law_words_for_failures(words: Seq<char>)
    ensures
        FailureView::MissingKey.said() == SaidView::Text("Missing 'key' parameter"@),
        FailureView::MissingContent.said() == SaidView::Text("Missing 'content' parameter"@),
        FailureView::NotTexts(words).said() == SaidView::Text(words),
        FailureView::Backend(words).said() == SaidView::Text(words),
        FailureView::InvalidPredecessors.said() == SaidView::Message(
            message::MessageView { key: "tool-memory-store-invalid-predecessors"@, args: seq![] },
        ),
        FailureView::MissingPredecessor.said() == SaidView::Message(
            message::MessageView { key: "tool-memory-store-missing-predecessor"@, args: seq![] },
        ),
        FailureView::DistinctKey.said() == SaidView::Message(
            message::MessageView { key: "tool-memory-store-distinct-key"@, args: seq![] },
        ),
{
}

/// The shape of the tool's arguments: an object of four properties, of which key
/// and content are required; three are texts, and the fourth lists at most twenty
/// texts.
pub proof fn law_shape_of_the_arguments(supersedes: Seq<char>)
    ensures
        ({
            let shape = schema(supersedes);
            let properties = shape.at("properties"@);
            let list = properties.at("supersedes"@);
            &&& shape.at("type"@) == json::Document::Text("object"@)
            &&& shape.at("required"@) == json::Document::Array(
                seq![json::Document::Text("key"@), json::Document::Text("content"@)],
            )
            &&& properties.at("key"@).at("type"@) == json::Document::Text("string"@)
            &&& properties.at("content"@).at("type"@) == json::Document::Text("string"@)
            &&& properties.at("category"@).at("type"@) == json::Document::Text("string"@)
            &&& list.at("type"@) == json::Document::Text("array"@)
            &&& list.at("items"@).at("type"@) == json::Document::Text("string"@)
            &&& list.at("maxItems"@) == json::Document::Number(json::number_of(20))
            &&& list.at("description"@) == json::Document::Text(supersedes)
        }),
{
    reveal_strlit("type");
    reveal_strlit("required");
    reveal_strlit("properties");
    reveal_strlit("key");
    reveal_strlit("content");
    reveal_strlit("category");
    reveal_strlit("supersedes");
    reveal_strlit("description");
    reveal_strlit("items");
    reveal_strlit("maxItems");
    assert("type"@.len() == 4 && "required"@.len() == 8 && "properties"@.len() == 10);
    assert("key"@.len() == 3 && "content"@.len() == 7 && "category"@.len() == 8);
    assert("supersedes"@.len() == 10 && "description"@.len() == 11 && "items"@.len() == 5);
    assert("maxItems"@.len() == 8);
}

/// A whole call that supersedes nothing: where the policy allows it and the
/// memory stores it, exactly the named entry is stored, and success is reported.
pub proof fn law_a_plain_call_succeeds(
    args: json::Document,
    answers: Answers,
    key: Seq<char>,
    content: Seq<char>,
)
    requires
        args.at("key"@) == json::Document::Text(key),
        args.at("content"@) == json::Document::Text(content),
        args.get("supersedes"@) is None,
        answers.verdict is Ok,
        answers.stored is Ok,
    ensures
        step_after(args, answers, 1) matches StepView::Store(work) && work.key == key
            && work.content == content && work.ids.len() == 0,
        step_after(args, answers, 2) matches StepView::Done(Ok(result)) && result.success
            && result.output == SaidView::Text("Stored memory: "@ + key) && result.error is None,
{
    reveal_with_fuel(step_after, 3);
}

/// What requests, work and results say is what they hold.
pub proof fn law_steps_say_what_they_hold(
    request: Request,
    work: Work,
    check: Check,
    result: ToolResult,
)
    ensures
        request@.key == request.key@,
        request@.content == request.content@,
        request@.category == request.category@,
        request@.supersedes is Some <==> request.supersedes is Some,
        request.supersedes matches Some(value) ==> request@.supersedes == Some(value@),
        work@.key == work.key@,
        work@.content == work.content@,
        work@.category == work.category@,
        work@.ids == text::views(work.ids@),
        work@.previous == memory::entry_views(work.previous@),
        check@.work == check.work@,
        check@.at == check.at,
        check@.retired == check.retired,
        result@.success == result.success,
        result@.output == result.output@,
        result@.error is Some <==> result.error is Some,
        result.error matches Some(e) ==> result@.error == Some(e@),
{
}

/// What is said, what went wrong and what to ask next are told as they are.
pub proof fn law_answers_say_what_they_hold(said: Said, failure: Failure, step: Step)
    ensures
        said is Nothing ==> said@ is Nothing,
        said matches Said::Text(s) ==> said@ == SaidView::Text(s@),
        said matches Said::Message(m) ==> said@ == SaidView::Message(m@),
        failure is MissingKey ==> failure@ is MissingKey,
        failure is MissingContent ==> failure@ is MissingContent,
        failure matches Failure::NotTexts(e) ==> failure@ == FailureView::NotTexts(e@),
        failure is InvalidPredecessors ==> failure@ is InvalidPredecessors,
        failure is MissingPredecessor ==> failure@ is MissingPredecessor,
        failure is DistinctKey ==> failure@ is DistinctKey,
        failure matches Failure::Backend(e) ==> failure@ == FailureView::Backend(e@),
        step matches Step::Enforce(request) ==> step@ == StepView::Enforce(request@),
        step matches Step::Export(work) ==> step@ == StepView::Export(work@),
        step matches Step::Probe(work) ==> step@ == StepView::Probe(work@),
        step matches Step::Store(work) ==> step@ == StepView::Store(work@),
        step matches Step::Supersede(work) ==> step@ == StepView::Supersede(work@),
        step matches Step::LookUp(check) ==> step@ == StepView::LookUp(check@),
        step matches Step::Done(Ok(result)) ==> step@ == StepView::Done(Ok(result@)),
        step matches Step::Done(Err(e)) ==> step@ == StepView::Done(Err(e@)),
{
}

/// Each argument is described in words.
pub proof fn law_words_for_the_arguments(supersedes: Seq<char>)
    ensures
        ({
            let properties = schema(supersedes).at("properties"@);
            &&& properties.at("key"@).at("description"@) == json::Document::Text(
                "Unique key for this memory (e.g. 'user_lang', 'project_stack')"@,
            )
            &&& properties.at("content"@).at("description"@) == json::Document::Text(
                "The information to remember"@,
            )
            &&& properties.at("category"@).at("description"@) == json::Document::Text(
                "Memory category: 'core' (permanent), 'daily' (session), 'conversation' (chat), or a custom category name. Defaults to 'core'."@,
            )
        }),
{
    reveal_strlit("type");
    reveal_strlit("required");
    reveal_strlit("properties");
    reveal_strlit("key");
    reveal_strlit("content");
    reveal_strlit("category");
    reveal_strlit("supersedes");
    reveal_strlit("description");
    assert("type"@.len() == 4 && "required"@.len() == 8 && "properties"@.len() == 10);
    assert("key"@.len() == 3 && "content"@.len() == 7 && "category"@.len() == 8);
    assert("supersedes"@.len() == 10 && "description"@.len() == 11);
}

/// What the memory answered is told as it is.
pub proof fn law_findings_say_what_they_hold(
    entry: MemoryEntry,
    list: Vec<MemoryEntry>,
    there: bool,
    e: String,
)
    ensures
        found_view(Ok(Some(entry))) == Ok::<Option<memory::EntryView>, Seq<char>>(Some(entry@)),
        found_view(Ok(None)) == Ok::<Option<memory::EntryView>, Seq<char>>(None),
        found_view(Err(e)) == Err::<Option<memory::EntryView>, Seq<char>>(e@),
        entries_view(Ok(list)) == Ok::<Seq<memory::EntryView>, Seq<char>>(
            memory::entry_views(list@),
        ),
        entries_view(Err(e)) == Err::<Seq<memory::EntryView>, Seq<char>>(e@),
        answer_view(Ok(there)) == Ok::<bool, Seq<char>>(there),
        answer_view::<bool>(Err(e)) == Err::<bool, Seq<char>>(e@),
{
}

}
