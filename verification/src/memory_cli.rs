//! The `memory` command: listing, showing, counting and clearing memories.
//!
//! What is asked of the memory, and what is said to the operator, is decided
//! here; asking and saying is done elsewhere. A command that deletes is a
//! conversation: each step says what to ask next and holds what the answer is
//! given to.
use vstd::prelude::*;

use crate::memory;
use crate::memory::{MemoryCategory, MemoryEntry};
use crate::text;

verus! {

/// A category by the name that an operator gives it.
pub open spec fn parsed_category(s: Seq<char>) -> memory::CategoryView {
    memory::category_named(text::lowered(text::trimmed(s)))
}

/// A category by the name that an operator gives it.
pub fn parse_category(s: &str) -> (out: MemoryCategory)
    ensures
        out@ == parsed_category(s@),
{
    let name: String = text::lower_text(text::trim(s).as_str());
    memory::named_category(name.as_str())
}

/// What an optional category says.
pub open spec fn category_view(category: Option<MemoryCategory>) -> Option<memory::CategoryView> {
    match category {
        Some(c) => Some(c@),
        None => None,
    }
}

/// The category that an operator asks for, if any.
pub open spec fn wanted_category(category: Option<Seq<char>>) -> Option<memory::CategoryView> {
    match category {
        Some(name) => Some(parsed_category(name)),
        None => None,
    }
}

fn parse_wanted(category: &Option<String>) -> (out: Option<MemoryCategory>)
    ensures
        category_view(out) == wanted_category(text::option_view(*category)),
{
    match category {
        Some(name) => Some(parse_category(name.as_str())),
        None => None,
    }
}

/// The first line of a text; the text itself where it has none.
pub open spec fn first_line(s: Seq<char>) -> Seq<char> {
    if text::lines(s).len() > 0 {
        text::lines(s)[0]
    } else {
        s
    }
}

/// A text on one line: its first line, cut short where its bytes are more than
/// `max_len`.
pub open spec fn truncated(s: Seq<char>, max_len: usize) -> Seq<char> {
    let line = first_line(s);
    if text::byte_len(line) <= max_len {
        line
    } else {
        text::head(
            line,
            if max_len >= 3 {
                (max_len - 3) as nat
            } else {
                0
            },
        ) + "..."@
    }
}

/// A text on one line of at most about `max_len` characters.
pub fn truncate_content(s: &str, max_len: usize) -> (out: String)
    ensures
        out@ == truncated(s@, max_len),
{
    let chars: Vec<char> = text::chars_of(s);
    let lines: Vec<String> = text::lines_of(&chars);
    let line: String = if lines.len() > 0 {
        proof {
            assert(text::views(lines@)[0] == lines@[0]@);
        }
        lines[0].clone()
    } else {
        s.to_owned()
    };
    proof {
        assert(text::views(lines@).len() == lines@.len());
    }
    if text::fits(line.as_str(), max_len) {
        return line;
    }
    let keep: usize = if max_len >= 3 {
        max_len - 3
    } else {
        0
    };
    text::concat2(text::head_text(line.as_str(), keep).as_str(), "...")
}

/// A truncated text is one line, of at most `max_len` characters wherever three
/// dots have room in it. (The bytes of a text can be counted.)
pub proof fn law_a_truncated_text_is_a_short_line(s: Seq<char>, max_len: usize)
    requires
        max_len >= 3,
        vstd::utf8::encode_utf8(first_line(s)).len() <= usize::MAX,
    ensures
        truncated(s, max_len).len() <= max_len,
        !truncated(s, max_len).contains('\n'),
{
    reveal_strlit("...");
    let line = first_line(s);
    lemma_bytes(line);
    lemma_first_line(s);
    let cut = truncated(s, max_len);
    assert forall|i: int| 0 <= i < cut.len() implies cut[i] != '\n' by {
        if i < line.len() && cut[i] == line[i] {
            assert(line.contains(line[i]));
        }
    }
}

proof fn lemma_bytes(s: Seq<char>)
    ensures
        s.len() <= vstd::utf8::encode_utf8(s).len(),
    decreases s.len(),
{
    if s.len() > 0 {
        lemma_bytes(s.drop_first());
        assert(vstd::utf8::encode_scalar(s[0] as u32).len() >= 1);
    }
}

proof fn lemma_first_line(s: Seq<char>)
    ensures
        !first_line(s).contains('\n'),
{
    text::lemma_find_char(s, '\n', 0);
    let line = first_line(s);
    if line.contains('\n') {
        let i = choose|i: int| 0 <= i < line.len() && line[i] == '\n';
        match text::find_char(s, '\n', 0) {
            None => {
                assert(s[i] == '\n');
            },
            Some(k) => {
                assert(line[i] == s[i]);
            },
        }
    }
}

/// What kind of memory the configuration names.
#[derive(Clone, Copy, Debug, PartialEq, Eq, Structural)]
pub enum MemoryBackendKind {
    /// None at all.
    Disabled,
    /// Files that are only ever appended to.
    Markdown,
    /// A vector store that is written as such files here.
    Qdrant,
    /// One whose entries can be deleted.
    Other,
}

/// A command of an operator.
#[allow(inconsistent_fields)]
#[derive(Debug)]
pub enum MemoryCommands {
    List { category: Option<String>, session: Option<String>, limit: usize, offset: usize },
    Get { key: String },
    Stats,
    Clear { key: Option<String>, agent: Option<String>, category: Option<String>, yes: bool },
    Reindex,
}

/// Why a command is refused before the memory is opened.
#[derive(Debug)]
pub enum Refusal {
    /// There is no memory.
    Disabled,
    /// Nothing can be deleted from this one.
    AppendOnly(String),
}

impl Refusal {
    pub open spec fn spec_text(self) -> Seq<char> {
        match self {
            Refusal::Disabled => "Memory backend is 'none' (disabled). No entries to manage."@,
            Refusal::AppendOnly(backend) => "memory clear is unsupported for append-only backend '"@
                + backend@
                + "'; switch to a deletable backend (sqlite, lucid, or postgres)"@,
        }
    }

    /// The words for a refusal, where no other language is known.
    pub fn text(&self) -> (out: String)
        ensures
            out@ == self.spec_text(),
    {
        match self {
            Refusal::Disabled =>
                "Memory backend is 'none' (disabled). No entries to manage.".to_owned(),
            Refusal::AppendOnly(backend) => text::concat3(
                "memory clear is unsupported for append-only backend '",
                backend.as_str(),
                "'; switch to a deletable backend (sqlite, lucid, or postgres)",
            ),
        }
    }
}

/// What a command asks of the memory first.
#[derive(Debug)]
pub enum Task {
    /// The entries of a category and a session: [`handle_list`].
    List {
        category: Option<MemoryCategory>,
        session: Option<String>,
        limit: usize,
        offset: usize,
    },
    /// The entry under a key: [`handle_get`].
    Get { key: String },
    /// Health, number and entries: [`handle_stats`].
    Stats,
    /// To delete the entry under a key: [`ClearStep`].
    ClearKey(ClearStep),
    /// To delete the entries of a category: [`handle_clear`].
    Clear { category: Option<MemoryCategory>, scope: String, yes: bool },
    /// To build the index anew: [`reindexed`].
    Reindex,
}

/// What a [`Task`] says.
pub enum TaskView {
    List {
        category: Option<memory::CategoryView>,
        session: Option<Seq<char>>,
        limit: usize,
        offset: usize,
    },
    Get { key: Seq<char> },
    Stats,
    ClearKey(ClearStepView),
    Clear { category: Option<memory::CategoryView>, scope: Seq<char>, yes: bool },
    Reindex,
}

impl Task {
    pub open spec fn view(&self) -> TaskView {
        match *self {
            Task::List { category, session, limit, offset } => TaskView::List {
                category: category_view(category),
                session: text::option_view(session),
                limit,
                offset,
            },
            Task::Get { key } => TaskView::Get { key: key@ },
            Task::Stats => TaskView::Stats,
            Task::ClearKey(step) => TaskView::ClearKey(step@),
            Task::Clear { category, scope, yes } => TaskView::Clear {
                category: category_view(category),
                scope: scope@,
                yes,
            },
            Task::Reindex => TaskView::Reindex,
        }
    }
}

/// What a refusal says.
pub enum RefusalView {
    Disabled,
    AppendOnly(Seq<char>),
}

/// What an outcome says.
pub open spec fn task_view(outcome: Result<Task, Refusal>) -> Result<TaskView, RefusalView> {
    match outcome {
        Ok(task) => Ok(task@),
        Err(Refusal::Disabled) => Err(RefusalView::Disabled),
        Err(Refusal::AppendOnly(backend)) => Err(RefusalView::AppendOnly(backend@)),
    }
}

/// What a command asks of the memory first, or why it is refused.
pub open spec fn first_task(
    command: MemoryCommands,
    backend: Seq<char>,
    kind: MemoryBackendKind,
) -> Result<TaskView, RefusalView> {
    let clears = command is Clear;
    if clears && (kind == MemoryBackendKind::Markdown || kind == MemoryBackendKind::Qdrant) {
        Err(RefusalView::AppendOnly(backend))
    } else if kind == MemoryBackendKind::Disabled {
        Err(RefusalView::Disabled)
    } else {
        Ok(
            match command {
                MemoryCommands::List { category, session, limit, offset } => TaskView::List {
                    category: wanted_category(text::option_view(category)),
                    session: text::option_view(session),
                    limit,
                    offset,
                },
                MemoryCommands::Get { key } => TaskView::Get { key: key@ },
                MemoryCommands::Stats => TaskView::Stats,
                MemoryCommands::Clear { key, agent, category, yes } => match key {
                    Some(key) => TaskView::ClearKey(
                        ClearStepView::Look(
                            TargetView { key: key@, agent: text::option_view(agent), yes },
                        ),
                    ),
                    None => TaskView::Clear {
                        category: wanted_category(text::option_view(category)),
                        scope: match category {
                            Some(name) => name@,
                            None => "all categories"@,
                        },
                        yes,
                    },
                },
                MemoryCommands::Reindex => TaskView::Reindex,
            },
        )
    }
}

/// Handles a command: what it asks of the memory first, or why it is refused.
/// `backend` is the name of the memory that the configuration names, and `kind`
/// what kind it is.
pub fn handle_command(command: MemoryCommands, backend: &str, kind: MemoryBackendKind) -> (out:
    Result<Task, Refusal>)
    ensures
        task_view(out) == first_task(command, backend@, kind),
{
    let append_only: bool = match kind {
        MemoryBackendKind::Markdown => true,
        MemoryBackendKind::Qdrant => true,
        _ => false,
    };
    let disabled: bool = match kind {
        MemoryBackendKind::Disabled => true,
        _ => false,
    };
    match command {
        MemoryCommands::Clear { key, agent, category, yes } => {
            if append_only {
                return Err(Refusal::AppendOnly(backend.to_owned()));
            }
            if disabled {
                return Err(Refusal::Disabled);
            }
            match key {
                Some(key) => Ok(Task::ClearKey(ClearStep::Look(Target { key, agent, yes }))),
                None => {
                    let wanted: Option<MemoryCategory> = parse_wanted(&category);
                    let scope: String = match category {
                        Some(name) => name,
                        None => "all categories".to_owned(),
                    };
                    Ok(Task::Clear { category: wanted, scope, yes })
                },
            }
        },
        MemoryCommands::List { category, session, limit, offset } => {
            if disabled {
                return Err(Refusal::Disabled);
            }
            Ok(Task::List { category: parse_wanted(&category), session, limit, offset })
        },
        MemoryCommands::Get { key } => {
            if disabled {
                return Err(Refusal::Disabled);
            }
            Ok(Task::Get { key })
        },
        MemoryCommands::Stats => {
            if disabled {
                return Err(Refusal::Disabled);
            }
            Ok(Task::Stats)
        },
        MemoryCommands::Reindex => {
            if disabled {
                return Err(Refusal::Disabled);
            }
            Ok(Task::Reindex)
        },
    }
}

/// An entry as a listing shows it.
#[derive(Debug)]
pub struct ListedEntry {
    pub key: String,
    pub category: String,
    /// The beginning of the content.
    pub content: String,
}

/// What a [`ListedEntry`] says.
pub struct ListedView {
    pub key: Seq<char>,
    pub category: Seq<char>,
    pub content: Seq<char>,
}

impl ListedEntry {
    pub open spec fn view(&self) -> ListedView {
        ListedView { key: self.key@, category: self.category@, content: self.content@ }
    }
}

/// How much of an entry's content a listing shows.
pub const LISTED_LEN: usize = 80;

/// An entry as a listing shows it.
pub open spec fn listed(entry: memory::EntryView) -> ListedView {
    ListedView {
        key: entry.key,
        category: entry.category,
        content: truncated(entry.content, LISTED_LEN),
    }
}

fn list_entry(entry: &MemoryEntry) -> (out: ListedEntry)
    ensures
        out@ == listed(entry@),
{
    ListedEntry {
        key: entry.key.clone(),
        category: entry.category.clone(),
        content: truncate_content(entry.content.as_str(), LISTED_LEN),
    }
}

/// What some listed entries say.
pub open spec fn listed_views(entries: Seq<ListedEntry>) -> Seq<ListedView> {
    entries.map_values(|e: ListedEntry| e.view())
}

/// A listing of entries.
#[derive(Debug)]
pub enum Listing {
    /// There are none.
    Empty,
    /// There are some, but none this far down.
    NoneAtOffset { offset: usize, total: usize },
    /// Those from the `from`-th to the `to`-th, and where the next page begins
    /// if there is one.
    Page {
        total: usize,
        from: usize,
        to: usize,
        entries: Vec<ListedEntry>,
        next: Option<usize>,
    },
}

/// What a [`Listing`] says.
#[verifier::ext_equal]
pub enum ListingView {
    Empty,
    NoneAtOffset { offset: int, total: int },
    Page { total: int, from: int, to: int, entries: Seq<ListedView>, next: Option<int> },
}

impl Listing {
    pub open spec fn view(&self) -> ListingView {
        match *self {
            Listing::Empty => ListingView::Empty,
            Listing::NoneAtOffset { offset, total } => ListingView::NoneAtOffset {
                offset: offset as int,
                total: total as int,
            },
            Listing::Page { total, from, to, entries, next } => ListingView::Page {
                total: total as int,
                from: from as int,
                to: to as int,
                entries: listed_views(entries@),
                next: match next {
                    Some(n) => Some(n as int),
                    None => None,
                },
            },
        }
    }
}

/// At most `limit` items, behind the first `offset`.
pub open spec fn page<T>(items: Seq<T>, offset: nat, limit: nat) -> Seq<T> {
    if offset >= items.len() {
        Seq::empty()
    } else if items.len() - offset <= limit {
        items.skip(offset as int)
    } else {
        items.subrange(offset as int, (offset + limit) as int)
    }
}

/// A listing of entries.
pub open spec fn listing(entries: Seq<memory::EntryView>, limit: nat, offset: nat) -> ListingView {
    let shown = page(entries, offset, limit);
    if entries.len() == 0 {
        ListingView::Empty
    } else if shown.len() == 0 {
        ListingView::NoneAtOffset { offset: offset as int, total: entries.len() as int }
    } else {
        ListingView::Page {
            total: entries.len() as int,
            from: (offset + 1) as int,
            to: (offset + shown.len()) as int,
            entries: shown.map_values(|e: memory::EntryView| listed(e)),
            next: if offset + shown.len() < entries.len() {
                Some((offset + limit) as int)
            } else {
                None
            },
        }
    }
}

/// Lists entries, a page at a time.
pub fn handle_list(entries: &Vec<MemoryEntry>, limit: usize, offset: usize) -> (out: Listing)
    ensures
        out@ == listing(memory::entry_views(entries@), limit as nat, offset as nat),
{
    let ghost all = memory::entry_views(entries@);
    let total: usize = entries.len();
    if total == 0 {
        return Listing::Empty;
    }
    if offset >= total || limit == 0 {
        return Listing::NoneAtOffset { offset, total };
    }
    let end: usize = if total - offset <= limit {
        total
    } else {
        offset + limit
    };
    let mut shown: Vec<ListedEntry> = Vec::new();
    let mut i: usize = offset;
    let ghost show = |e: memory::EntryView| listed(e);
    proof {
        assert(listed_views(shown@) =~= all.subrange(offset as int, i as int).map_values(show));
    }
    while i < end
        invariant
            offset <= i <= end <= entries@.len(),
            all == memory::entry_views(entries@),
            show == (|e: memory::EntryView| listed(e)),
            listed_views(shown@) == all.subrange(offset as int, i as int).map_values(show),
        decreases end - i,
    {
        let ghost before = shown@;
        shown.push(list_entry(&entries[i]));
        proof {
            assert(listed_views(shown@) =~= listed_views(before).push(listed(all[i as int])));
            assert(all.subrange(offset as int, i + 1).map_values(show) =~= all.subrange(
                offset as int,
                i as int,
            ).map_values(show).push(listed(all[i as int])));
        }
        i += 1;
    }
    proof {
        assert(all.subrange(offset as int, end as int) =~= page(all, offset as nat, limit as nat));
    }
    let next: Option<usize> = if end < total {
        Some(offset + limit)
    } else {
        None
    };
    Listing::Page { total, from: offset + 1, to: end, entries: shown, next }
}

/// Going from page to page shows every entry once, in order.
pub proof fn law_pages_follow_one_another<T>(items: Seq<T>, offset: nat, limit: nat, more: nat)
    ensures
        page(items, offset, limit) + page(items, offset + limit, more) == page(
            items,
            offset,
            limit + more,
        ),
        page(items, 0, items.len()) == items,
{
    assert(page(items, offset, limit) + page(items, offset + limit, more) =~= page(
        items,
        offset,
        limit + more,
    ));
    assert(page(items, 0, items.len()) =~= items);
}

/// An entry by key and category.
#[derive(Debug)]
pub struct KeyedEntry {
    pub key: String,
    pub category: String,
}

/// What some entries say, by key and category.
pub open spec fn keyed_views(entries: Seq<KeyedEntry>) -> Seq<(Seq<char>, Seq<char>)> {
    entries.map_values(|e: KeyedEntry| (e.key@, e.category@))
}

/// The entries whose key begins with a text.
pub open spec fn with_prefix(entries: Seq<memory::EntryView>, prefix: Seq<char>) -> Seq<
    memory::EntryView,
> {
    entries.filter(|e: memory::EntryView| text::starts_with(e.key, prefix))
}

/// Entries by key and category.
pub open spec fn keyed(entries: Seq<memory::EntryView>) -> Seq<(Seq<char>, Seq<char>)> {
    entries.map_values(|e: memory::EntryView| (e.key, e.category))
}

/// What was found under a key, or under keys that begin with it.
#[derive(Debug)]
pub enum Match {
    /// Nothing.
    Missing,
    /// One entry.
    One(MemoryEntry),
    /// More than one: a longer prefix is needed.
    Many(Vec<KeyedEntry>),
}

/// What a [`Match`] says.
#[verifier::ext_equal]
pub enum MatchView {
    Missing,
    One(memory::EntryView),
    Many(Seq<(Seq<char>, Seq<char>)>),
}

impl Match {
    pub open spec fn view(&self) -> MatchView {
        match self {
            Match::Missing => MatchView::Missing,
            Match::One(entry) => MatchView::One(entry@),
            Match::Many(entries) => MatchView::Many(keyed_views(entries@)),
        }
    }
}

/// What was found under keys that begin with a text.
pub open spec fn prefix_match(entries: Seq<memory::EntryView>, prefix: Seq<char>) -> MatchView {
    let found = with_prefix(entries, prefix);
    if found.len() == 0 {
        MatchView::Missing
    } else if found.len() == 1 {
        MatchView::One(found[0])
    } else {
        MatchView::Many(keyed(found))
    }
}

/// What was found under keys that begin with a text.
pub fn match_prefix(entries: &Vec<MemoryEntry>, prefix: &str) -> (out: Match)
    ensures
        out@ == prefix_match(memory::entry_views(entries@), prefix@),
{
    let ghost all = memory::entry_views(entries@);
    let ghost keep = |e: memory::EntryView| text::starts_with(e.key, prefix@);
    let mut found: Vec<MemoryEntry> = Vec::new();
    let mut i: usize = 0;
    proof {
        reveal(Seq::filter);
        assert(memory::entry_views(found@) =~= all.take(0).filter(keep));
    }
    while i < entries.len()
        invariant
            i <= entries@.len(),
            all == memory::entry_views(entries@),
            keep == (|e: memory::EntryView| text::starts_with(e.key, prefix@)),
            memory::entry_views(found@) == all.take(i as int).filter(keep),
        decreases entries@.len() - i,
    {
        let entry: &MemoryEntry = &entries[i];
        let ghost before = found@;
        proof {
            reveal(Seq::filter);
            assert(all.take(i + 1).drop_last() =~= all.take(i as int));
            assert(all.take(i + 1).last() == entry@);
        }
        if text::starts_with_text(entry.key.as_str(), prefix) {
            found.push(entry.copy());
            proof {
                assert(memory::entry_views(found@) =~= memory::entry_views(before).push(entry@));
            }
        }
        i += 1;
    }
    proof {
        assert(all.take(i as int) =~= all);
        assert(memory::entry_views(found@).len() == found@.len());
    }
    if found.len() == 0 {
        return Match::Missing;
    }
    if found.len() == 1 {
        let one: MemoryEntry = found[0].copy();
        proof {
            assert(memory::entry_views(found@)[0] == one@);
        }
        return Match::One(one);
    }
    let mut many: Vec<KeyedEntry> = Vec::new();
    let mut j: usize = 0;
    let ghost matched = memory::entry_views(found@);
    while j < found.len()
        invariant
            j <= found@.len(),
            matched == memory::entry_views(found@),
            keyed_views(many@) =~= keyed(matched).take(j as int),
        decreases found@.len() - j,
    {
        let ghost before = keyed_views(many@);
        let one: KeyedEntry = KeyedEntry {
            key: found[j].key.clone(),
            category: found[j].category.clone(),
        };
        proof {
            assert(matched[j as int] == found@[j as int]@);
            assert(keyed(matched)[j as int] == (one.key@, one.category@));
            assert(keyed(matched).take(j + 1) =~= before.push((one.key@, one.category@)));
        }
        many.push(one);
        proof {
            assert(keyed_views(many@) =~= keyed(matched).take(j + 1));
        }
        j += 1;
    }
    proof {
        assert(keyed(matched).take(j as int) =~= keyed(matched));
    }
    Match::Many(many)
}

/// What to do next to show an entry.
#[derive(Debug)]
pub enum GetStep {
    /// All entries are needed: [`match_prefix`].
    List,
    /// Nothing more: it has been found.
    Done(MemoryEntry),
}

/// Shows the entry under a key: the entry itself where there is one; otherwise
/// the entries whose keys begin with it decide, so that operators can copy
/// partial keys from a listing.
pub fn handle_get(exact: Option<MemoryEntry>) -> (out: GetStep)
    ensures
        match exact {
            Some(entry) => out matches GetStep::Done(shown) && shown@ == entry@,
            None => out is List,
        },
{
    match exact {
        Some(entry) => GetStep::Done(entry),
        None => GetStep::List,
    }
}


/// The target of a deletion by key.
#[derive(Debug)]
pub struct Target {
    /// The key, or the beginning of it, that the operator gave.
    pub key: String,
    /// The agent whose entry is meant.
    pub agent: Option<String>,
    /// Whether to delete without asking.
    pub yes: bool,
}

/// What a [`Target`] says.
pub struct TargetView {
    pub key: Seq<char>,
    pub agent: Option<Seq<char>>,
    pub yes: bool,
}

impl Target {
    pub open spec fn view(&self) -> TargetView {
        TargetView { key: self.key@, agent: text::option_view(self.agent), yes: self.yes }
    }
}

/// Whose entries a deletion takes.
#[derive(Debug)]
pub enum Scope {
    /// Every agent's.
    Everyone,
    /// One agent's.
    Agent { alias: String, id: String },
}

/// What a [`Scope`] says.
pub enum ScopeView {
    Everyone,
    Agent { alias: Seq<char>, id: Seq<char> },
}

impl Scope {
    pub open spec fn view(&self) -> ScopeView {
        match self {
            Scope::Everyone => ScopeView::Everyone,
            Scope::Agent { alias, id } => ScopeView::Agent { alias: alias@, id: id@ },
        }
    }
}

/// A deletion that has been decided.
#[derive(Debug)]
pub struct Deletion {
    /// The key whose entry goes.
    pub target: String,
    pub scope: Scope,
}

/// What a [`Deletion`] says.
pub struct DeletionView {
    pub target: Seq<char>,
    pub scope: ScopeView,
}

impl Deletion {
    pub open spec fn view(&self) -> DeletionView {
        DeletionView { target: self.target@, scope: self.scope@ }
    }
}

impl DeletionView {
    /// What the operator is asked.
    pub open spec fn prompt(self) -> Seq<char> {
        match self.scope {
            ScopeView::Everyone => "  Delete '"@ + self.target + "'?"@,
            ScopeView::Agent { alias, id } => "  Delete '"@ + self.target + "' for agent '"@ + alias
                + "'?"@,
        }
    }
}

/// What a deletion by key came to.
#[derive(Debug)]
pub enum ClearOutcome {
    /// No entry has the key, or one that begins with it.
    NotFound { key: String },
    /// Several keys begin with it.
    Many { key: String, entries: Vec<KeyedEntry> },
    /// The agent has no entry under the key; these have.
    NotHeld { key: String, agent: String, holders: Vec<String> },
    /// Several agents have an entry under the key.
    HeldByMany { key: String, holders: Vec<String> },
    /// The operator said no.
    Aborted,
    /// The entry is gone.
    Deleted(Deletion),
    /// There was nothing to delete after all.
    NothingDeleted,
}

/// What a [`ClearOutcome`] says.
#[verifier::ext_equal]
pub enum ClearOutcomeView {
    NotFound { key: Seq<char> },
    Many { key: Seq<char>, entries: Seq<(Seq<char>, Seq<char>)> },
    NotHeld { key: Seq<char>, agent: Seq<char>, holders: Seq<Seq<char>> },
    HeldByMany { key: Seq<char>, holders: Seq<Seq<char>> },
    Aborted,
    Deleted(DeletionView),
    NothingDeleted,
}

impl ClearOutcome {
    pub open spec fn view(&self) -> ClearOutcomeView {
        match self {
            ClearOutcome::NotFound { key } => ClearOutcomeView::NotFound { key: key@ },
            ClearOutcome::Many { key, entries } => ClearOutcomeView::Many {
                key: key@,
                entries: keyed_views(entries@),
            },
            ClearOutcome::NotHeld { key, agent, holders } => ClearOutcomeView::NotHeld {
                key: key@,
                agent: agent@,
                holders: text::views(holders@),
            },
            ClearOutcome::HeldByMany { key, holders } => ClearOutcomeView::HeldByMany {
                key: key@,
                holders: text::views(holders@),
            },
            ClearOutcome::Aborted => ClearOutcomeView::Aborted,
            ClearOutcome::Deleted(deletion) => ClearOutcomeView::Deleted(deletion@),
            ClearOutcome::NothingDeleted => ClearOutcomeView::NothingDeleted,
        }
    }
}

/// What to ask next to delete by key.
#[derive(Debug)]
pub enum ClearStep {
    /// Whether an entry is there under the key: [`Target::looked_for`].
    Look(Target),
    /// All entries, for those whose key begins with it: [`Target::searched`].
    Search(Target),
    /// All entries, for those under the target: [`Target::listed`].
    Holders(Target),
    /// The operator, by [`Deletion::prompt`]: [`Deletion::confirmed`].
    Confirm(Deletion),
    /// To delete: [`Deletion::forgotten`].
    Forget(Deletion),
    /// Nothing more; or the words for what went wrong.
    Done(Result<ClearOutcome, String>),
}

/// What a [`ClearStep`] says.
#[verifier::ext_equal]
pub enum ClearStepView {
    Look(TargetView),
    Search(TargetView),
    Holders(TargetView),
    Confirm(DeletionView),
    Forget(DeletionView),
    Done(Result<ClearOutcomeView, Seq<char>>),
}

impl ClearStep {
    pub open spec fn view(&self) -> ClearStepView {
        match self {
            ClearStep::Look(target) => ClearStepView::Look(target@),
            ClearStep::Search(target) => ClearStepView::Search(target@),
            ClearStep::Holders(target) => ClearStepView::Holders(target@),
            ClearStep::Confirm(deletion) => ClearStepView::Confirm(deletion@),
            ClearStep::Forget(deletion) => ClearStepView::Forget(deletion@),
            ClearStep::Done(Ok(outcome)) => ClearStepView::Done(Ok(outcome@)),
            ClearStep::Done(Err(e)) => ClearStepView::Done(Err(e@)),
        }
    }
}

/// What an answer says.
pub open spec fn answer_view<T>(answer: Result<T, String>) -> Result<T, Seq<char>> {
    match answer {
        Ok(t) => Ok(t),
        Err(e) => Err(e@),
    }
}

/// What an answer says that holds entries.
pub open spec fn entries_view(entries: Result<Vec<MemoryEntry>, String>) -> Result<
    Seq<memory::EntryView>,
    Seq<char>,
> {
    match entries {
        Ok(list) => Ok(memory::entry_views(list@)),
        Err(e) => Err(e@),
    }
}

/// The step after the key has been looked for.
pub open spec fn after_look(target: TargetView, there: Result<bool, Seq<char>>) -> ClearStepView {
    match there {
        Err(e) => ClearStepView::Done(Err(e)),
        Ok(true) => ClearStepView::Holders(target),
        Ok(false) => ClearStepView::Search(target),
    }
}

/// The step after the entries have been searched.
pub open spec fn after_search(
    target: TargetView,
    entries: Result<Seq<memory::EntryView>, Seq<char>>,
) -> ClearStepView {
    match entries {
        Err(e) => ClearStepView::Done(Err(e)),
        Ok(entries) => match prefix_match(entries, target.key) {
            MatchView::Missing => ClearStepView::Done(
                Ok(ClearOutcomeView::NotFound { key: target.key }),
            ),
            MatchView::One(entry) => ClearStepView::Holders(
                TargetView { key: entry.key, ..target },
            ),
            MatchView::Many(entries) => ClearStepView::Done(
                Ok(ClearOutcomeView::Many { key: target.key, entries }),
            ),
        },
    }
}

/// The entries under a key.
pub open spec fn held(entries: Seq<memory::EntryView>, key: Seq<char>) -> Seq<memory::EntryView> {
    entries.filter(|e: memory::EntryView| e.key == key)
}

/// The holder of an entry, as it is shown: by the name under which the agent is
/// known, else by the agent itself, else as nobody's.
pub open spec fn holder_label(entry: memory::EntryView) -> Seq<char> {
    match entry.agent_alias {
        Some(alias) => alias,
        None => match entry.agent_id {
            Some(id) => id,
            None => "(unattributed)"@,
        },
    }
}

/// The holders of entries, as they are shown.
pub open spec fn holder_labels(entries: Seq<memory::EntryView>) -> Seq<Seq<char>> {
    entries.map_values(|e: memory::EntryView| holder_label(e))
}

/// The first entry of an agent, by the name under which it is known.
pub open spec fn held_by(entries: Seq<memory::EntryView>, alias: Seq<char>) -> Option<
    memory::EntryView,
>
    decreases entries.len(),
{
    if entries.len() == 0 {
        None
    } else if entries[0].agent_alias == Some(alias) {
        Some(entries[0])
    } else {
        held_by(entries.drop_first(), alias)
    }
}

/// What is said where an entry is nobody's, so that naming an agent would take
/// every entry under the key.
pub open spec fn unattributed(target: Seq<char>) -> Seq<char> {
    "Backend does not attribute '"@ + target
        + "' to an agent, so --agent cannot target it safely."@
}

/// The step that begins a deletion: asking the operator, unless told not to.
pub open spec fn deleting(deletion: DeletionView, yes: bool) -> ClearStepView {
    if yes {
        ClearStepView::Forget(deletion)
    } else {
        ClearStepView::Confirm(deletion)
    }
}

/// The step after the holders of the key are known.
pub open spec fn after_holders(
    target: TargetView,
    entries: Result<Seq<memory::EntryView>, Seq<char>>,
) -> ClearStepView {
    match entries {
        Err(e) => ClearStepView::Done(Err(e)),
        Ok(entries) => {
            let holders = held(entries, target.key);
            match target.agent {
                Some(alias) => match held_by(holders, alias) {
                    None => ClearStepView::Done(
                        Ok(
                            ClearOutcomeView::NotHeld {
                                key: target.key,
                                agent: alias,
                                holders: holder_labels(holders),
                            },
                        ),
                    ),
                    Some(entry) => match entry.agent_id {
                        None => ClearStepView::Done(Err(unattributed(target.key))),
                        Some(id) => deleting(
                            DeletionView {
                                target: target.key,
                                scope: ScopeView::Agent { alias, id },
                            },
                            target.yes,
                        ),
                    },
                },
                None => if holders.len() > 1 {
                    ClearStepView::Done(
                        Ok(
                            ClearOutcomeView::HeldByMany {
                                key: target.key,
                                holders: holder_labels(holders),
                            },
                        ),
                    )
                } else {
                    deleting(
                        DeletionView { target: target.key, scope: ScopeView::Everyone },
                        target.yes,
                    )
                },
            }
        },
    }
}

/// The step after the operator has been asked.
pub open spec fn after_confirm(
    deletion: DeletionView,
    confirmed: Result<bool, Seq<char>>,
) -> ClearStepView {
    match confirmed {
        Err(e) => ClearStepView::Done(Err(e)),
        Ok(true) => ClearStepView::Forget(deletion),
        Ok(false) => ClearStepView::Done(Ok(ClearOutcomeView::Aborted)),
    }
}

/// The step after the memory has been told to forget.
pub open spec fn after_forget(
    deletion: DeletionView,
    forgotten: Result<bool, Seq<char>>,
) -> ClearStepView {
    match forgotten {
        Err(e) => ClearStepView::Done(Err(e)),
        Ok(true) => ClearStepView::Done(Ok(ClearOutcomeView::Deleted(deletion))),
        Ok(false) => ClearStepView::Done(Ok(ClearOutcomeView::NothingDeleted)),
    }
}

fn find_held(entries: &Vec<MemoryEntry>, key: &str) -> (out: Vec<MemoryEntry>)
    ensures
        memory::entry_views(out@) == held(memory::entry_views(entries@), key@),
{
    let ghost all = memory::entry_views(entries@);
    let ghost keep = |e: memory::EntryView| e.key == key@;
    let mut found: Vec<MemoryEntry> = Vec::new();
    let mut i: usize = 0;
    proof {
        reveal(Seq::filter);
        assert(memory::entry_views(found@) =~= all.take(0).filter(keep));
    }
    while i < entries.len()
        invariant
            i <= entries@.len(),
            all == memory::entry_views(entries@),
            keep == (|e: memory::EntryView| e.key == key@),
            memory::entry_views(found@) == all.take(i as int).filter(keep),
        decreases entries@.len() - i,
    {
        let entry: &MemoryEntry = &entries[i];
        let ghost before = found@;
        proof {
            reveal(Seq::filter);
            assert(all.take(i + 1).drop_last() =~= all.take(i as int));
            assert(all.take(i + 1).last() == entry@);
        }
        if text::same(entry.key.as_str(), key) {
            found.push(entry.copy());
            proof {
                assert(memory::entry_views(found@) =~= memory::entry_views(before).push(entry@));
            }
        }
        i += 1;
    }
    proof {
        assert(all.take(i as int) =~= all);
    }
    found
}

fn label_of(entry: &MemoryEntry) -> (out: String)
    ensures
        out@ == holder_label(entry@),
{
    match &entry.agent_alias {
        Some(alias) => alias.clone(),
        None => match &entry.agent_id {
            Some(id) => id.clone(),
            None => "(unattributed)".to_owned(),
        },
    }
}

/// The holders of entries, as they are shown, so that a refusal says whose
/// entries it is about.
pub fn key_holders(entries: &Vec<MemoryEntry>) -> (out: Vec<String>)
    ensures
        text::views(out@) == holder_labels(memory::entry_views(entries@)),
{
    let ghost all = holder_labels(memory::entry_views(entries@));
    let mut out: Vec<String> = Vec::new();
    let mut i: usize = 0;
    while i < entries.len()
        invariant
            i <= entries@.len(),
            all == holder_labels(memory::entry_views(entries@)),
            text::views(out@) =~= all.take(i as int),
        decreases entries@.len() - i,
    {
        let ghost before = text::views(out@);
        out.push(label_of(&entries[i]));
        proof {
            assert(memory::entry_views(entries@)[i as int] == entries@[i as int]@);
            assert(text::views(out@) =~= before.push(all[i as int]));
            assert(all.take(i + 1) =~= before.push(all[i as int]));
        }
        i += 1;
    }
    proof {
        assert(all.take(i as int) =~= all);
    }
    out
}

fn find_held_by<'a>(entries: &'a Vec<MemoryEntry>, alias: &str) -> (out: Option<&'a MemoryEntry>)
    ensures
        held_by(memory::entry_views(entries@), alias@) == (match out {
            Some(entry) => Some(entry@),
            None => None,
        }),
{
    let ghost all = memory::entry_views(entries@);
    let mut i: usize = 0;
    proof {
        assert(all.skip(0) =~= all);
    }
    while i < entries.len()
        invariant
            i <= entries@.len(),
            all == memory::entry_views(entries@),
            held_by(all, alias@) == held_by(all.skip(i as int), alias@),
        decreases entries@.len() - i,
    {
        let entry: &MemoryEntry = &entries[i];
        proof {
            assert(all.skip(i as int)[0] == entry@);
            assert(all.skip(i as int).drop_first() =~= all.skip(i + 1));
        }
        let mine: bool = match &entry.agent_alias {
            Some(name) => text::same(name.as_str(), alias),
            None => false,
        };
        if mine {
            return Some(entry);
        }
        i += 1;
    }
    None
}

impl Target {
    /// The next step, once the key has been looked for.
    pub fn looked_for(self, there: Result<bool, String>) -> (out: ClearStep)
        ensures
            out@ == after_look(self@, answer_view(there)),
    {
        match there {
            Err(e) => ClearStep::Done(Err(e)),
            Ok(true) => ClearStep::Holders(self),
            Ok(false) => ClearStep::Search(self),
        }
    }

    /// The next step, once the entries have been searched for keys that begin
    /// with the one that was given.
    pub fn searched(self, entries: Result<Vec<MemoryEntry>, String>) -> (out: ClearStep)
        ensures
            out@ == after_search(self@, entries_view(entries)),
    {
        match entries {
            Err(e) => ClearStep::Done(Err(e)),
            Ok(entries) => match match_prefix(&entries, self.key.as_str()) {
                Match::Missing => ClearStep::Done(Ok(ClearOutcome::NotFound { key: self.key })),
                Match::One(entry) => ClearStep::Holders(
                    Target { key: entry.key, agent: self.agent, yes: self.yes },
                ),
                Match::Many(entries) => ClearStep::Done(
                    Ok(ClearOutcome::Many { key: self.key, entries }),
                ),
            },
        }
    }

    /// The next step, once the holders of the key are known. A key does not
    /// identify an entry: a shared key exists once for each agent, and forgetting
    /// a key takes every one of them. So an agent is named, or the only entry
    /// goes, or nothing.
    pub fn listed(self, entries: Result<Vec<MemoryEntry>, String>) -> (out: ClearStep)
        ensures
            out@ == after_holders(self@, entries_view(entries)),
    {
        let entries: Vec<MemoryEntry> = match entries {
            Err(e) => return ClearStep::Done(Err(e)),
            Ok(entries) => entries,
        };
        let Target { key, agent, yes } = self;
        let holders: Vec<MemoryEntry> = find_held(&entries, key.as_str());
        proof {
            assert(memory::entry_views(holders@).len() == holders@.len());
        }
        match agent {
            Some(alias) => match find_held_by(&holders, alias.as_str()) {
                None => ClearStep::Done(
                    Ok(
                        ClearOutcome::NotHeld {
                            key,
                            agent: alias,
                            holders: key_holders(&holders),
                        },
                    ),
                ),
                Some(entry) => match &entry.agent_id {
                    None => ClearStep::Done(
                        Err(
                            text::concat3(
                                "Backend does not attribute '",
                                key.as_str(),
                                "' to an agent, so --agent cannot target it safely.",
                            ),
                        ),
                    ),
                    Some(id) => {
                        let id: String = id.clone();
                        Deletion { target: key, scope: Scope::Agent { alias, id } }.begun(yes)
                    },
                },
            },
            None => if holders.len() > 1 {
                ClearStep::Done(
                    Ok(ClearOutcome::HeldByMany { key, holders: key_holders(&holders) }),
                )
            } else {
                Deletion { target: key, scope: Scope::Everyone }.begun(yes)
            },
        }
    }
}

impl Deletion {
    fn begun(self, yes: bool) -> (out: ClearStep)
        ensures
            out@ == deleting(self@, yes),
    {
        if yes {
            ClearStep::Forget(self)
        } else {
            ClearStep::Confirm(self)
        }
    }

    /// What the operator is asked.
    pub fn prompt(&self) -> (out: String)
        ensures
            out@ == self@.prompt(),
    {
        let start: String = text::concat2("  Delete '", self.target.as_str());
        match &self.scope {
            Scope::Everyone => text::concat2(start.as_str(), "'?"),
            Scope::Agent { alias, id: _ } => text::concat2(
                text::concat3(start.as_str(), "' for agent '", alias.as_str()).as_str(),
                "'?",
            ),
        }
    }

    /// The next step, once the operator has been asked.
    pub fn confirmed(self, confirmed: Result<bool, String>) -> (out: ClearStep)
        ensures
            out@ == after_confirm(self@, answer_view(confirmed)),
    {
        match confirmed {
            Err(e) => ClearStep::Done(Err(e)),
            Ok(true) => ClearStep::Forget(self),
            Ok(false) => ClearStep::Done(Ok(ClearOutcome::Aborted)),
        }
    }

    /// The last step, once the memory has been told to forget.
    pub fn forgotten(self, forgotten: Result<bool, String>) -> (out: ClearStep)
        ensures
            out@ == after_forget(self@, answer_view(forgotten)),
    {
        match forgotten {
            Err(e) => ClearStep::Done(Err(e)),
            Ok(true) => ClearStep::Done(Ok(ClearOutcome::Deleted(self))),
            Ok(false) => ClearStep::Done(Ok(ClearOutcome::NothingDeleted)),
        }
    }
}


/// All answers that a deletion by key can be given.
pub struct ClearAnswers {
    pub there: Result<bool, Seq<char>>,
    pub searched: Result<Seq<memory::EntryView>, Seq<char>>,
    pub holders: Result<Seq<memory::EntryView>, Seq<char>>,
    pub confirmed: Result<bool, Seq<char>>,
    pub forgotten: Result<bool, Seq<char>>,
}

/// The step that follows a step under some answers.
pub open spec fn next_step(step: ClearStepView, answers: ClearAnswers) -> ClearStepView {
    match step {
        ClearStepView::Look(target) => after_look(target, answers.there),
        ClearStepView::Search(target) => after_search(target, answers.searched),
        ClearStepView::Holders(target) => after_holders(target, answers.holders),
        ClearStepView::Confirm(deletion) => after_confirm(deletion, answers.confirmed),
        ClearStepView::Forget(deletion) => after_forget(deletion, answers.forgotten),
        ClearStepView::Done(_) => step,
    }
}

/// Where a deletion by key has come to after `n` answers.
pub open spec fn step_after(target: TargetView, answers: ClearAnswers, n: nat) -> ClearStepView
    decreases n,
{
    if n == 0 {
        ClearStepView::Look(target)
    } else {
        next_step(step_after(target, answers, (n - 1) as nat), answers)
    }
}

/// Whether a deletion is one that the operator asked for: of the key that was
/// given, or of the one key that begins with it; of the named agent's entry, or
/// of the only entry under the key.
pub open spec fn is_asked_for(
    deletion: DeletionView,
    target: TargetView,
    answers: ClearAnswers,
) -> bool {
    &&& deletion.target == target.key && answers.there == Ok::<bool, Seq<char>>(true) || {
        &&& answers.searched is Ok
        &&& with_prefix(answers.searched->Ok_0, target.key).len() == 1
        &&& with_prefix(answers.searched->Ok_0, target.key)[0].key == deletion.target
    }
    &&& answers.holders is Ok
    &&& match target.agent {
        Some(alias) => deletion.scope matches ScopeView::Agent { alias: named, id } && named
            == alias && exists|i: int|
            0 <= i < held(answers.holders->Ok_0, deletion.target).len() && (#[trigger] held(
                answers.holders->Ok_0,
                deletion.target,
            )[i]).agent_alias == Some(alias) && held(answers.holders->Ok_0, deletion.target)[i].agent_id
                == Some(id),
        None => deletion.scope is Everyone && held(
            answers.holders->Ok_0,
            deletion.target,
        ).len() <= 1,
    }
}

spec fn is_sound(step: ClearStepView, target: TargetView, answers: ClearAnswers) -> bool {
    match step {
        ClearStepView::Look(t) => t == target,
        ClearStepView::Search(t) => t == target,
        ClearStepView::Holders(t) => {
            &&& t.agent == target.agent && t.yes == target.yes
            &&& t.key == target.key && answers.there == Ok::<bool, Seq<char>>(true) || {
                &&& answers.searched is Ok
                &&& with_prefix(answers.searched->Ok_0, target.key).len() == 1
                &&& with_prefix(answers.searched->Ok_0, target.key)[0].key == t.key
            }
        },
        ClearStepView::Confirm(deletion) => is_asked_for(deletion, target, answers) && !target.yes,
        ClearStepView::Forget(deletion) => is_asked_for(deletion, target, answers) && (target.yes
            || answers.confirmed == Ok::<bool, Seq<char>>(true)),
        ClearStepView::Done(_) => true,
    }
}

proof fn lemma_held_by(entries: Seq<memory::EntryView>, alias: Seq<char>)
    ensures
        held_by(entries, alias) matches Some(entry) ==> entry.agent_alias == Some(alias) && exists|
            i: int,
        |
            0 <= i < entries.len() && (#[trigger] entries[i]) == entry,
    decreases entries.len(),
{
    if entries.len() > 0 && entries[0].agent_alias != Some(alias) {
        let rest = entries.drop_first();
        lemma_held_by(rest, alias);
        if let Some(entry) = held_by(rest, alias) {
            let i = choose|i: int| 0 <= i < rest.len() && (#[trigger] rest[i]) == entry;
            assert(entries[i + 1] == entry);
        }
    }
}

proof fn lemma_sound(target: TargetView, answers: ClearAnswers, n: nat)
    ensures
        is_sound(step_after(target, answers, n), target, answers),
    decreases n,
{
    if n > 0 {
        let step = step_after(target, answers, (n - 1) as nat);
        lemma_sound(target, answers, (n - 1) as nat);
        if let ClearStepView::Holders(t) = step {
            if let Ok(entries) = answers.holders {
                if let Some(alias) = target.agent {
                    let holders = held(entries, t.key);
                    lemma_held_by(holders, alias);
                    if let Some(entry) = held_by(holders, alias) {
                        let i = choose|i: int|
                            0 <= i < holders.len() && (#[trigger] holders[i]) == entry;
                        assert(holders[i].agent_alias == Some(alias));
                    }
                }
            }
        }
    }
}

/// What is deleted is what the operator asked for and said yes to: an ambiguous
/// key takes nothing, and naming an agent takes that agent's entry only.
pub proof fn law_only_what_was_asked_for_is_deleted(
    target: TargetView,
    answers: ClearAnswers,
    n: nat,
)
    requires
        step_after(target, answers, n) is Forget,
    ensures
        is_asked_for(step_after(target, answers, n)->Forget_0, target, answers),
        target.yes || answers.confirmed == Ok::<bool, Seq<char>>(true),
{
    lemma_sound(target, answers, n);
}

/// A key that more than one agent holds is never deleted without naming an
/// agent: the holders are named instead.
pub proof fn law_a_shared_key_is_not_deleted(target: TargetView, answers: ClearAnswers, n: nat)
    requires
        target.agent is None,
        answers.there == Ok::<bool, Seq<char>>(true),
        answers.holders is Ok,
        held(answers.holders->Ok_0, target.key).len() > 1,
        n >= 2,
    ensures
        step_after(target, answers, n) == ClearStepView::Done(
            Ok(
                ClearOutcomeView::HeldByMany {
                    key: target.key,
                    holders: holder_labels(held(answers.holders->Ok_0, target.key)),
                },
            ),
        ),
    decreases n,
{
    if n > 2 {
        law_a_shared_key_is_not_deleted(target, answers, (n - 1) as nat);
    } else {
        reveal_with_fuel(step_after, 3);
    }
}

/// A deletion by key asks for nothing more after five answers.
pub proof fn law_a_deletion_ends(target: TargetView, answers: ClearAnswers)
    ensures
        step_after(target, answers, 5) is Done,
{
    reveal_with_fuel(step_after, 6);
}

/// Entries that are deleted one after the other.
#[derive(Debug)]
pub struct Batch {
    /// Their keys.
    keys: Vec<String>,
    /// How many have been dealt with.
    at: usize,
    /// How many of these are gone.
    deleted: usize,
}

/// What a [`Batch`] says.
#[verifier::ext_equal]
pub struct BatchView {
    pub keys: Seq<Seq<char>>,
    pub at: int,
    pub deleted: int,
}

impl Batch {
    pub closed spec fn view(&self) -> BatchView {
        BatchView {
            keys: text::views(self.keys@),
            at: self.at as int,
            deleted: self.deleted as int,
        }
    }

    #[verifier::type_invariant]
    spec fn counted(self) -> bool {
        self.deleted <= self.at <= self.keys@.len()
    }

    /// How many entries there are.
    pub fn total(&self) -> (out: usize)
        ensures
            out == self@.keys.len(),
    {
        self.keys.len()
    }
}

/// What to do next to delete the entries of a category.
#[derive(Debug)]
pub enum BatchStep {
    /// Nothing: there are none.
    Empty,
    /// Ask the operator, by [`batch_prompt`]: [`Batch::confirmed`].
    Confirm(Batch),
    /// Forget the next key, [`Batch::next_key`]: [`Batch::forgotten`].
    Forget(Batch),
    /// Nothing more: the operator said no.
    Aborted,
    /// Nothing more: so many of so many are gone.
    Cleared { deleted: usize, total: usize },
    /// Nothing more: something went wrong.
    Failed(String),
}

/// What a [`BatchStep`] says.
#[verifier::ext_equal]
pub enum BatchStepView {
    Empty,
    Confirm(BatchView),
    Forget(BatchView),
    Aborted,
    Cleared { deleted: int, total: int },
    Failed(Seq<char>),
}

impl BatchStep {
    pub open spec fn view(&self) -> BatchStepView {
        match self {
            BatchStep::Empty => BatchStepView::Empty,
            BatchStep::Confirm(batch) => BatchStepView::Confirm(batch@),
            BatchStep::Forget(batch) => BatchStepView::Forget(batch@),
            BatchStep::Aborted => BatchStepView::Aborted,
            BatchStep::Cleared { deleted, total } => BatchStepView::Cleared {
                deleted: *deleted as int,
                total: *total as int,
            },
            BatchStep::Failed(e) => BatchStepView::Failed(e@),
        }
    }
}

/// The keys of some entries.
pub open spec fn keys_of(entries: Seq<memory::EntryView>) -> Seq<Seq<char>> {
    entries.map_values(|e: memory::EntryView| e.key)
}

/// The step of a batch: the next key, or the result.
pub open spec fn batch_step(batch: BatchView) -> BatchStepView {
    if batch.at < batch.keys.len() {
        BatchStepView::Forget(batch)
    } else {
        BatchStepView::Cleared { deleted: batch.deleted, total: batch.keys.len() as int }
    }
}

/// The first step of a batch.
pub open spec fn first_batch_step(
    entries: Result<Seq<memory::EntryView>, Seq<char>>,
    yes: bool,
) -> BatchStepView {
    match entries {
        Err(e) => BatchStepView::Failed(e),
        Ok(entries) => {
            let batch = BatchView { keys: keys_of(entries), at: 0, deleted: 0 };
            if entries.len() == 0 {
                BatchStepView::Empty
            } else if yes {
                BatchStepView::Forget(batch)
            } else {
                BatchStepView::Confirm(batch)
            }
        },
    }
}

/// The step after a key has been forgotten, or was not there.
pub open spec fn after_batch_forget(
    batch: BatchView,
    forgotten: Result<bool, Seq<char>>,
) -> BatchStepView {
    if batch.at < batch.keys.len() {
        match forgotten {
            Err(e) => BatchStepView::Failed(e),
            Ok(gone) => batch_step(
                BatchView {
                    keys: batch.keys,
                    at: batch.at + 1,
                    deleted: batch.deleted + if gone {
                        1int
                    } else {
                        0
                    },
                },
            ),
        }
    } else {
        batch_step(batch)
    }
}

/// Deletes the entries of a category, or all of them.
pub fn handle_clear(entries: Result<Vec<MemoryEntry>, String>, yes: bool) -> (out: BatchStep)
    ensures
        out@ == first_batch_step(entries_view(entries), yes),
{
    let entries: Vec<MemoryEntry> = match entries {
        Err(e) => return BatchStep::Failed(e),
        Ok(entries) => entries,
    };
    let ghost all = memory::entry_views(entries@);
    if entries.len() == 0 {
        return BatchStep::Empty;
    }
    let mut keys: Vec<String> = Vec::new();
    let mut i: usize = 0;
    while i < entries.len()
        invariant
            i <= entries@.len(),
            all == memory::entry_views(entries@),
            text::views(keys@) =~= keys_of(all).take(i as int),
        decreases entries@.len() - i,
    {
        let ghost before = text::views(keys@);
        keys.push(entries[i].key.clone());
        proof {
            assert(all[i as int] == entries@[i as int]@);
            assert(text::views(keys@) =~= before.push(all[i as int].key));
            assert(keys_of(all).take(i + 1) =~= before.push(all[i as int].key));
        }
        i += 1;
    }
    proof {
        assert(keys_of(all).take(i as int) =~= keys_of(all));
    }
    let batch: Batch = Batch { keys, at: 0, deleted: 0 };
    if yes {
        BatchStep::Forget(batch)
    } else {
        BatchStep::Confirm(batch)
    }
}

/// What the operator is asked before a batch.
pub fn batch_prompt(count: usize) -> (out: String)
    ensures
        out@ == "  Delete "@ + text::decimal(count as nat) + " entries?"@,
{
    text::concat3("  Delete ", text::decimal_text(count as u64).as_str(), " entries?")
}

impl Batch {
    /// The next step, once the operator has been asked.
    pub fn confirmed(self, confirmed: Result<bool, String>) -> (out: BatchStep)
        ensures
            out@ == (match answer_view(confirmed) {
                Err(e) => BatchStepView::Failed(e),
                Ok(true) => batch_step(self@),
                Ok(false) => BatchStepView::Aborted,
            }),
    {
        match confirmed {
            Err(e) => BatchStep::Failed(e),
            Ok(true) => self.go_on(),
            Ok(false) => BatchStep::Aborted,
        }
    }

    fn go_on(self) -> (out: BatchStep)
        ensures
            out@ == batch_step(self@),
    {
        if self.at < self.keys.len() {
            BatchStep::Forget(self)
        } else {
            BatchStep::Cleared { deleted: self.deleted, total: self.keys.len() }
        }
    }

    /// The key to forget next, where one is left.
    pub fn next_key(&self) -> (out: Option<&str>)
        ensures
            out is Some <==> self@.at < self@.keys.len(),
            out matches Some(key) ==> key@ == self@.keys[self@.at],
    {
        if self.at < self.keys.len() {
            Some(self.keys[self.at].as_str())
        } else {
            None
        }
    }

    /// The next step, once a key has been forgotten, or was not there.
    pub fn forgotten(self, forgotten: Result<bool, String>) -> (out: BatchStep)
        ensures
            out@ == after_batch_forget(self@, answer_view(forgotten)),
    {
        proof {
            use_type_invariant(&self);
        }
        if self.at >= self.keys.len() {
            return self.go_on();
        }
        match forgotten {
            Err(e) => BatchStep::Failed(e),
            Ok(gone) => {
                let at: usize = self.at + 1;
                let deleted: usize = if gone {
                    self.deleted + 1
                } else {
                    self.deleted
                };
                Batch { keys: self.keys, at, deleted }.go_on()
            },
        }
    }
}

/// How many of some answers say that an entry is gone.
pub open spec fn gone(answers: Seq<bool>) -> int
    decreases answers.len(),
{
    if answers.len() == 0 {
        0
    } else {
        gone(answers.drop_last()) + if answers.last() {
            1int
        } else {
            0
        }
    }
}

/// Where a batch has come to after some answers.
pub open spec fn batch_after(keys: Seq<Seq<char>>, answers: Seq<bool>) -> BatchStepView
    decreases answers.len(),
{
    if answers.len() == 0 {
        BatchStepView::Forget(BatchView { keys, at: 0, deleted: 0 })
    } else {
        match batch_after(keys, answers.drop_last()) {
            BatchStepView::Forget(batch) => after_batch_forget(batch, Ok(answers.last())),
            other => other,
        }
    }
}

/// A batch asks to forget each key once, in order, and reports how many of them
/// are gone.
pub proof fn law_a_batch_deletes_each_key_once(keys: Seq<Seq<char>>, answers: Seq<bool>)
    requires
        keys.len() > 0,
        answers.len() <= keys.len(),
    ensures
        batch_after(keys, answers) == (if answers.len() < keys.len() {
            BatchStepView::Forget(
                BatchView { keys, at: answers.len() as int, deleted: gone(answers) },
            )
        } else {
            BatchStepView::Cleared { deleted: gone(answers), total: keys.len() as int }
        }),
    decreases answers.len(),
{
    if answers.len() > 0 {
        law_a_batch_deletes_each_key_once(keys, answers.drop_last());
    }
}

/// What is said of an index that has been built anew.
pub open spec fn reindexed_text(count: nat) -> Seq<char> {
    if count == 0 {
        "FTS rebuilt. No embeddings to fill in (either everything is already embedded or the backend has no embedder configured)."@
    } else {
        "FTS rebuilt. Re-embedded "@ + text::decimal(count) + " "@ + (if count == 1 {
            "entry"@
        } else {
            "entries"@
        }) + "."@
    }
}

/// What is said of an index that has been built anew.
pub fn reindexed(count: usize) -> (out: String)
    ensures
        out@ == reindexed_text(count as nat),
{
    if count == 0 {
        return "FTS rebuilt. No embeddings to fill in (either everything is already embedded or the backend has no embedder configured).".to_owned();
    }
    let noun: &str = if count == 1 {
        "entry"
    } else {
        "entries"
    };
    let start: String = text::concat3(
        "FTS rebuilt. Re-embedded ",
        text::decimal_text(count as u64).as_str(),
        " ",
    );
    text::concat3(start.as_str(), noun, ".")
}

/// How many entries a category has.
#[derive(Debug)]
pub struct CategoryCount {
    pub category: String,
    pub count: usize,
}

/// What a [`CategoryCount`] says.
pub struct CountView {
    pub category: Seq<char>,
    pub count: nat,
}

impl CategoryCount {
    pub open spec fn view(&self) -> CountView {
        CountView { category: self.category@, count: self.count as nat }
    }
}

/// What some counts say.
pub open spec fn count_views(counts: Seq<CategoryCount>) -> Seq<CountView> {
    counts.map_values(|c: CategoryCount| c.view())
}

/// How many entries a category has.
pub open spec fn tally(entries: Seq<memory::EntryView>, category: Seq<char>) -> nat
    decreases entries.len(),
{
    if entries.len() == 0 {
        0
    } else {
        tally(entries.drop_last(), category) + if entries.last().category == category {
            1nat
        } else {
            0
        }
    }
}

/// Whether counts are those of some entries: one for each category that has an
/// entry, and for no other.
pub open spec fn is_count_of(counts: Seq<CountView>, entries: Seq<memory::EntryView>) -> bool {
    &&& forall|i: int, j: int|
        0 <= i < j < counts.len() ==> (#[trigger] counts[i]).category != (
        #[trigger] counts[j]).category
    &&& forall|i: int|
        0 <= i < counts.len() ==> (#[trigger] counts[i]).count == tally(
            entries,
            counts[i].category,
        ) && counts[i].count > 0
    &&& forall|k: int|
        0 <= k < entries.len() ==> has_count(counts, (#[trigger] entries[k]).category)
}

/// Whether a category has a count.
pub open spec fn has_count(counts: Seq<CountView>, category: Seq<char>) -> bool {
    exists|i: int| 0 <= i < counts.len() && (#[trigger] counts[i]).category == category
}

/// Whether larger counts stand in front.
pub open spec fn is_ranked(counts: Seq<CountView>) -> bool {
    forall|i: int, j: int|
        0 <= i < j < counts.len() ==> (#[trigger] counts[i]).count >= (#[trigger] counts[j]).count
}

fn count_entries(entries: &Vec<MemoryEntry>) -> (out: Vec<CategoryCount>)
    ensures
        is_count_of(count_views(out@), memory::entry_views(entries@)),
{
    let ghost all = memory::entry_views(entries@);
    let mut counts: Vec<CategoryCount> = Vec::new();
    let mut i: usize = 0;
    proof {
        assert(all.take(0) =~= Seq::<memory::EntryView>::empty());
    }
    while i < entries.len()
        invariant
            i <= entries@.len(),
            all == memory::entry_views(entries@),
            is_count_of(count_views(counts@), all.take(i as int)),
        decreases entries@.len() - i,
    {
        let category: &str = entries[i].category.as_str();
        let ghost before = count_views(counts@);
        let ghost seen = all.take(i as int);
        let mut j: usize = 0;
        while j < counts.len() && !text::same(counts[j].category.as_str(), category)
            invariant
                j <= counts@.len(),
                before == count_views(counts@),
                forall|k: int| 0 <= k < j ==> (#[trigger] before[k]).category != category@,
            ensures
                j <= counts@.len(),
                before == count_views(counts@),
                forall|k: int| 0 <= k < j ==> (#[trigger] before[k]).category != category@,
                j < counts@.len() ==> before[j as int].category == category@,
            decreases counts@.len() - j,
        {
            j += 1;
        }
        proof {
            assert(all.take(i + 1) =~= seen.push(all[i as int]));
            assert(all[i as int].category == category@);
            lemma_tally_bound(seen, category@);
        }
        if j < counts.len() {
            let count: usize = counts[j].count;
            proof {
                assert(before[j as int].count == count);
            }
            counts.set(j, CategoryCount { category: category.to_owned(), count: count + 1 });
            proof {
                let after = count_views(counts@);
                assert(after =~= before.update(
                    j as int,
                    CountView { category: category@, count: (count + 1) as nat },
                ));
                lemma_count_updated(before, after, seen, all[i as int], j as int);
            }
        } else {
            counts.push(CategoryCount { category: category.to_owned(), count: 1 });
            proof {
                let after = count_views(counts@);
                assert(after =~= before.push(CountView { category: category@, count: 1 }));
                lemma_count_added(before, after, seen, all[i as int]);
            }
        }
        i += 1;
    }
    proof {
        assert(all.take(i as int) =~= all);
    }
    counts
}

proof fn lemma_tally_bound(entries: Seq<memory::EntryView>, category: Seq<char>)
    ensures
        tally(entries, category) <= entries.len(),
    decreases entries.len(),
{
    if entries.len() > 0 {
        lemma_tally_bound(entries.drop_last(), category);
    }
}

proof fn lemma_tally_push(
    entries: Seq<memory::EntryView>,
    entry: memory::EntryView,
    category: Seq<char>,
)
    ensures
        tally(entries.push(entry), category) == tally(entries, category) + if entry.category
            == category {
            1nat
        } else {
            0
        },
{
    assert(entries.push(entry).drop_last() =~= entries);
}

proof fn lemma_tally_none(entries: Seq<memory::EntryView>, category: Seq<char>)
    requires
        forall|k: int| 0 <= k < entries.len() ==> (#[trigger] entries[k]).category != category,
    ensures
        tally(entries, category) == 0,
    decreases entries.len(),
{
    if entries.len() > 0 {
        assert forall|k: int| 0 <= k < entries.drop_last().len() implies (
        #[trigger] entries.drop_last()[k]).category != category by {
            assert(entries.drop_last()[k] == entries[k]);
        }
        lemma_tally_none(entries.drop_last(), category);
        assert(entries[entries.len() - 1] == entries.last());
    }
}

proof fn lemma_count_updated(
    before: Seq<CountView>,
    after: Seq<CountView>,
    seen: Seq<memory::EntryView>,
    entry: memory::EntryView,
    j: int,
)
    requires
        is_count_of(before, seen),
        0 <= j < before.len(),
        before[j].category == entry.category,
        after == before.update(
            j,
            CountView { category: entry.category, count: before[j].count + 1 },
        ),
    ensures
        is_count_of(after, seen.push(entry)),
{
    let more = seen.push(entry);
    assert forall|a: int, b: int| 0 <= a < b < after.len() implies (#[trigger] after[a]).category
        != (#[trigger] after[b]).category by {
        assert(before[a].category != before[b].category);
        assert(after[a].category == before[a].category);
        assert(after[b].category == before[b].category);
    }
    assert forall|a: int| 0 <= a < after.len() implies (#[trigger] after[a]).count == tally(
        more,
        after[a].category,
    ) && after[a].count > 0 by {
        assert(before[a].count == tally(seen, before[a].category));
        lemma_tally_push(seen, entry, after[a].category);
        if a != j {
            assert(before[a].category != before[j].category);
        }
    }
    assert forall|k: int| 0 <= k < more.len() implies has_count(
        after,
        (#[trigger] more[k]).category,
    ) by {
        if k < seen.len() {
            assert(has_count(before, seen[k].category));
            let i = choose|i: int|
                0 <= i < before.len() && (#[trigger] before[i]).category == seen[k].category;
            assert(after[i].category == before[i].category);
        } else {
            assert(after[j].category == entry.category);
        }
    }
}

proof fn lemma_count_added(
    before: Seq<CountView>,
    after: Seq<CountView>,
    seen: Seq<memory::EntryView>,
    entry: memory::EntryView,
)
    requires
        is_count_of(before, seen),
        forall|k: int| 0 <= k < before.len() ==> (#[trigger] before[k]).category != entry.category,
        after == before.push(CountView { category: entry.category, count: 1 }),
    ensures
        is_count_of(after, seen.push(entry)),
{
    let more = seen.push(entry);
    assert forall|k: int| 0 <= k < seen.len() implies (#[trigger] seen[k]).category
        != entry.category by {
        assert(has_count(before, seen[k].category));
    }
    lemma_tally_none(seen, entry.category);
    assert forall|a: int, b: int| 0 <= a < b < after.len() implies (#[trigger] after[a]).category
        != (#[trigger] after[b]).category by {
        assert(after[a] == before[a]);
        if b < before.len() {
            assert(after[b] == before[b]);
        }
    }
    assert forall|a: int| 0 <= a < after.len() implies (#[trigger] after[a]).count == tally(
        more,
        after[a].category,
    ) && after[a].count > 0 by {
        lemma_tally_push(seen, entry, after[a].category);
        if a < before.len() {
            assert(after[a] == before[a]);
        }
    }
    assert forall|k: int| 0 <= k < more.len() implies has_count(
        after,
        (#[trigger] more[k]).category,
    ) by {
        if k < seen.len() {
            assert(has_count(before, seen[k].category));
            let i = choose|i: int|
                0 <= i < before.len() && (#[trigger] before[i]).category == seen[k].category;
            assert(after[i] == before[i]);
        } else {
            assert(after[before.len() as int].category == entry.category);
        }
    }
}


/// Where an item comes from that stands at `i` after the last of `len` items has
/// been moved to `p`.
spec fn moved_from(i: int, p: int, len: int) -> int {
    if i < p {
        i
    } else if i == p {
        len - 1
    } else {
        i - 1
    }
}

proof fn lemma_count_moved(
    before: Seq<CountView>,
    after: Seq<CountView>,
    p: int,
    entries: Seq<memory::EntryView>,
)
    requires
        is_count_of(before, entries),
        0 <= p < before.len() == after.len(),
        forall|i: int|
            0 <= i < after.len() ==> (#[trigger] after[i]) == before[moved_from(
                i,
                p,
                after.len() as int,
            )],
    ensures
        is_count_of(after, entries),
{
    let len = after.len() as int;
    assert forall|a: int, b: int| 0 <= a < b < after.len() implies (#[trigger] after[a]).category
        != (#[trigger] after[b]).category by {
        let x = moved_from(a, p, len);
        let y = moved_from(b, p, len);
        if x < y {
            assert(before[x].category != before[y].category);
        } else {
            assert(before[y].category != before[x].category);
        }
    }
    assert forall|a: int| 0 <= a < after.len() implies (#[trigger] after[a]).count == tally(
        entries,
        after[a].category,
    ) && after[a].count > 0 by {
        let x = moved_from(a, p, len);
        assert(before[x].count == tally(entries, before[x].category));
    }
    assert forall|k: int| 0 <= k < entries.len() implies has_count(
        after,
        (#[trigger] entries[k]).category,
    ) by {
        assert(has_count(before, entries[k].category));
        let x = choose|x: int|
            0 <= x < before.len() && (#[trigger] before[x]).category == entries[k].category;
        let i = if x == len - 1 {
            p
        } else if x < p {
            x
        } else {
            x + 1
        };
        assert(moved_from(i, p, len) == x);
        assert(after[i] == before[x]);
    }
}

/// How many entries each category has, larger counts first. Which of two equal
/// counts comes first is left open.
pub fn handle_stats(entries: &Vec<MemoryEntry>) -> (out: Vec<CategoryCount>)
    ensures
        is_count_of(count_views(out@), memory::entry_views(entries@)),
        is_ranked(count_views(out@)),
{
    let ghost all = memory::entry_views(entries@);
    let mut rest: Vec<CategoryCount> = count_entries(entries);
    let mut ranked: Vec<CategoryCount> = Vec::new();
    proof {
        assert(count_views(ranked@) + count_views(rest@) =~= count_views(rest@));
    }
    while rest.len() > 0
        invariant
            is_count_of(count_views(ranked@) + count_views(rest@), all),
            is_ranked(count_views(ranked@)),
        decreases rest@.len(),
    {
        let ghost left = count_views(rest@);
        let ghost done = count_views(ranked@);
        if let Some(one) = rest.pop() {
            let mut p: usize = 0;
            while p < ranked.len() && ranked[p].count >= one.count
                invariant
                    p <= ranked@.len(),
                    done == count_views(ranked@),
                    forall|k: int| 0 <= k < p ==> (#[trigger] done[k]).count >= one.count,
                ensures
                    p <= ranked@.len(),
                    done == count_views(ranked@),
                    forall|k: int| 0 <= k < p ==> (#[trigger] done[k]).count >= one.count,
                    p < ranked@.len() ==> done[p as int].count < one.count,
                decreases ranked@.len() - p,
            {
                p += 1;
            }
            let ghost moved = one@;
            ranked.insert(p, one);
            proof {
                let after = count_views(ranked@);
                assert(left.last() == moved);
                assert(count_views(rest@) =~= left.drop_last());
                assert(after =~= done.insert(p as int, moved));
                lemma_count_moved(done + left, after + count_views(rest@), p as int, all);
                assert forall|i: int, j: int| 0 <= i < j < after.len() implies (
                #[trigger] after[i]).count >= (#[trigger] after[j]).count by {
                    let a = if i < p {
                        i
                    } else {
                        i - 1
                    };
                    let b = if j < p {
                        j
                    } else {
                        j - 1
                    };
                    if i != p {
                        assert(after[i] == done[a]);
                    }
                    if j != p {
                        assert(after[j] == done[b]);
                    }
                    if i == p {
                        if b > p {
                            assert(done[p as int].count >= done[b].count);
                        }
                    }
                }
            }
        }
    }
    proof {
        assert(count_views(ranked@) + count_views(rest@) =~= count_views(ranked@));
    }
    ranked
}

/// A category is named in any case and with white space around it; the three
/// known names stand for their categories, any other for itself in small letters.
pub proof fn law_categories_by_name(s: Seq<char>)
    ensures
        ({
            let name = text::lowered(text::trimmed(s));
            &&& name == "core"@ ==> parsed_category(s) is Core
            &&& name == "daily"@ ==> parsed_category(s) is Daily
            &&& name == "conversation"@ ==> parsed_category(s) is Conversation
            &&& name != "core"@ && name != "daily"@ && name != "conversation"@ ==> parsed_category(
                s,
            ) == memory::CategoryView::Custom(name)
        }),
        wanted_category(None) is None,
        wanted_category(Some(s)) == Some(parsed_category(s)),
{
    memory::law_names_of_categories(text::lowered(text::trimmed(s)));
}

/// A text is shown by its first line: whole where its bytes are few enough, and
/// otherwise by its first characters, three fewer than asked for, with three dots
/// behind them.
pub proof fn law_how_a_text_is_truncated(
    line: Seq<char>,
    rest: Seq<char>,
    max_len: usize,
    s: Seq<char>,
)
    requires
        !line.contains('\n'),
        line.len() == 0 || line.last() != '\r',
    ensures
        first_line(line.push('\n') + rest) == line,
        line.len() > 0 ==> first_line(line) == line,
        first_line(Seq::empty()) == Seq::<char>::empty(),
        text::byte_len(first_line(s)) <= max_len ==> truncated(s, max_len) == first_line(s),
        text::byte_len(first_line(s)) > max_len && max_len >= 3 && first_line(s).len() > max_len - 3
            ==> truncated(s, max_len) == first_line(s).take(max_len - 3) + "..."@,
        text::byte_len(first_line(s)) > max_len && max_len >= 3 && first_line(s).len() <= max_len
            - 3 ==> truncated(s, max_len) == first_line(s) + "..."@,
        text::byte_len(first_line(s)) > max_len && max_len < 3 ==> truncated(s, max_len) == "..."@,
{
    text::law_lines(line, rest);
    text::law_lines(Seq::empty(), rest);
    let shown = first_line(s);
    if text::byte_len(shown) > max_len && max_len < 3 {
        assert(text::head(shown, 0) + "..."@ =~= "..."@);
    }
}

/// What a command asks first. One that deletes is refused where nothing can be
/// deleted; any is refused where there is no memory; and what is asked is what
/// the operator said.
pub proof fn law_what_a_command_asks_first(
    command: MemoryCommands,
    backend: Seq<char>,
    kind: MemoryBackendKind,
)
    ensures
        command is Clear && (kind is Markdown || kind is Qdrant) ==> first_task(
            command,
            backend,
            kind,
        ) == Err::<TaskView, RefusalView>(RefusalView::AppendOnly(backend)),
        kind is Disabled ==> first_task(command, backend, kind) == Err::<TaskView, RefusalView>(
            RefusalView::Disabled,
        ),
        kind is Other || (!(kind is Disabled) && !(command is Clear)) ==> {
            let task = first_task(command, backend, kind);
            &&& command matches MemoryCommands::List { category, session, limit, offset } ==> (
            task matches Ok(TaskView::List {
                category: asked,
                session: of,
                limit: most,
                offset: from,
            }) && {
                &&& asked is Some <==> category is Some
                &&& category matches Some(c) ==> asked == Some(parsed_category(c@))
                &&& of is Some <==> session is Some
                &&& session matches Some(s) ==> of == Some(s@)
                &&& most == limit
                &&& from == offset
            })
            &&& command matches MemoryCommands::Get { key } ==> task == Ok::<TaskView, RefusalView>(
                TaskView::Get { key: key@ },
            )
            &&& command is Stats ==> task == Ok::<TaskView, RefusalView>(TaskView::Stats)
            &&& command is Reindex ==> task == Ok::<TaskView, RefusalView>(TaskView::Reindex)
            &&& command matches MemoryCommands::Clear { key, agent, category, yes } ==> {
                &&& key matches Some(k) ==> (task matches Ok(
                    TaskView::ClearKey(ClearStepView::Look(target)),
                ) && {
                    &&& target.key == k@
                    &&& target.agent is Some <==> agent is Some
                    &&& agent matches Some(a) ==> target.agent == Some(a@)
                    &&& target.yes == yes
                })
                &&& key is None ==> (task matches Ok(TaskView::Clear {
                    category: asked,
                    scope,
                    yes: told,
                }) && {
                    &&& asked is Some <==> category is Some
                    &&& category matches Some(c) ==> asked == Some(parsed_category(c@)) && scope
                        == c@
                    &&& category is None ==> scope == "all categories"@
                    &&& told == yes
                })
            }
        },
{
}

/// The words for a refusal.
pub proof fn law_words_for_refusals(backend: String)
    ensures
        Refusal::Disabled.spec_text()
            == "Memory backend is 'none' (disabled). No entries to manage."@,
        Refusal::AppendOnly(backend).spec_text()
            == "memory clear is unsupported for append-only backend '"@ + backend@
            + "'; switch to a deletable backend (sqlite, lucid, or postgres)"@,
{
}

/// A page holds the items from its offset on, as many as the limit or as are
/// left, in order.
pub proof fn law_a_page_holds_what_follows_its_offset<T>(
    items: Seq<T>,
    offset: nat,
    limit: nat,
    k: int,
)
    ensures
        offset >= items.len() ==> page(items, offset, limit).len() == 0,
        offset < items.len() && items.len() - offset <= limit ==> page(items, offset, limit).len()
            == items.len() - offset,
        offset < items.len() && items.len() - offset > limit ==> page(items, offset, limit).len()
            == limit,
        0 <= k < page(items, offset, limit).len() ==> page(items, offset, limit)[k] == items[offset
            + k],
{
}

/// A listing shows a page of entries, each by its key, its category and the
/// beginning of its content; it counts from one; and it tells where the next page
/// begins, where there is one.
pub proof fn law_a_listing_shows_a_page(
    entries: Seq<memory::EntryView>,
    limit: nat,
    offset: nat,
    k: int,
)
    ensures
        entries.len() == 0 ==> listing(entries, limit, offset) is Empty,
        entries.len() > 0 && (offset >= entries.len() || limit == 0) ==> listing(
            entries,
            limit,
            offset,
        ) == (ListingView::NoneAtOffset { offset: offset as int, total: entries.len() as int }),
        offset < entries.len() && limit > 0 ==> (listing(
            entries,
            limit,
            offset,
        ) matches ListingView::Page { total, from, to, entries: shown, next } && {
            &&& total == entries.len()
            &&& from == offset + 1
            &&& to == offset + shown.len()
            &&& shown.len() == limit || (shown.len() < limit && to == entries.len())
            &&& next is Some <==> to < entries.len()
            &&& next matches Some(n) ==> n == to
            &&& 0 <= k < shown.len() ==> {
                &&& shown[k].key == entries[offset + k].key
                &&& shown[k].category == entries[offset + k].category
                &&& shown[k].content == truncated(entries[offset + k].content, 80)
            }
        }),
{
    law_a_page_holds_what_follows_its_offset(entries, offset, limit, k);
}

/// Keys are matched by their beginnings: no entry, the one entry, or all of them
/// by key and category, in order.
pub proof fn law_keys_are_matched_by_their_beginnings(
    entries: Seq<memory::EntryView>,
    prefix: Seq<char>,
)
    ensures
        ({
            let found = entries.filter(|e: memory::EntryView| prefix.is_prefix_of(e.key));
            let matched = prefix_match(entries, prefix);
            &&& found.len() == 0 ==> matched is Missing
            &&& found.len() == 1 ==> matched == MatchView::One(found[0])
            &&& found.len() > 1 ==> matched == MatchView::Many(
                found.map_values(|e: memory::EntryView| (e.key, e.category)),
            )
        }),
{
    let ours = |e: memory::EntryView| text::starts_with(e.key, prefix);
    let theirs = |e: memory::EntryView| prefix.is_prefix_of(e.key);
    assert forall|e: memory::EntryView| #[trigger] ours(e) == theirs(e) by {
        text::law_containing(e.key, prefix);
    }
    assert(ours =~= theirs);
}

/// How a deletion by key goes on, answer by answer, until the holders of the key
/// are known: a key that is there stands for itself, one that is not for the one
/// key that begins with it.
pub proof fn law_which_key_a_deletion_means(
    target: TargetView,
    entries: Seq<memory::EntryView>,
    words: Seq<char>,
)
    ensures
        after_look(target, Err(words)) == ClearStepView::Done(Err(words)),
        after_look(target, Ok(true)) == ClearStepView::Holders(target),
        after_look(target, Ok(false)) == ClearStepView::Search(target),
        after_search(target, Err(words)) == ClearStepView::Done(Err(words)),
        prefix_match(entries, target.key) is Missing ==> after_search(target, Ok(entries))
            == ClearStepView::Done(Ok(ClearOutcomeView::NotFound { key: target.key })),
        prefix_match(entries, target.key) matches MatchView::One(entry) ==> after_search(
            target,
            Ok(entries),
        ) == ClearStepView::Holders(
            TargetView { key: entry.key, agent: target.agent, yes: target.yes },
        ),
        prefix_match(entries, target.key) matches MatchView::Many(keys) ==> after_search(
            target,
            Ok(entries),
        ) == ClearStepView::Done(Ok(ClearOutcomeView::Many { key: target.key, entries: keys })),
{
}

/// The first entry of an agent is found by its alias, and none where no entry has
/// it.
pub proof fn law_whose_entry_is_found(entries: Seq<memory::EntryView>, alias: Seq<char>, i: int)
    requires
        0 <= i < entries.len(),
    ensures
        entries[i].agent_alias == Some(alias) && (forall|j: int|
            0 <= j < i ==> (#[trigger] entries[j]).agent_alias != Some(alias)) ==> held_by(
            entries,
            alias,
        ) == Some(entries[i]),
        held_by(entries, alias) is None ==> entries[i].agent_alias != Some(alias),
    decreases entries.len(),
{
    if i > 0 {
        let rest = entries.drop_first();
        assert(rest[i - 1] == entries[i]);
        if forall|j: int| 0 <= j < i ==> (#[trigger] entries[j]).agent_alias != Some(alias) {
            assert(entries[0].agent_alias != Some(alias));
            assert forall|j: int| 0 <= j < i - 1 implies (#[trigger] rest[j]).agent_alias != Some(
                alias,
            ) by {
                assert(rest[j] == entries[j + 1]);
            }
        }
        law_whose_entry_is_found(rest, alias, i - 1);
    }
}

/// What is deleted once the holders of the key are known. With an agent named,
/// that agent's entry alone, where it has one and the memory tells whose it is;
/// without one, the only entry under the key. Otherwise nothing, and the holders
/// are named: by alias, else by id, else as nobody's.
pub proof fn law_whose_entry_a_deletion_takes(
    key: Seq<char>,
    alias: Seq<char>,
    yes: bool,
    entries: Seq<memory::EntryView>,
    words: Seq<char>,
    agent: Option<Seq<char>>,
    k: int,
)
    ensures
        after_holders(TargetView { key, agent, yes }, Err(words)) == ClearStepView::Done(
            Err(words),
        ),
        ({
            let holders = entries.filter(|e: memory::EntryView| e.key == key);
            let named = after_holders(TargetView { key, agent: Some(alias), yes }, Ok(entries));
            let unnamed = after_holders(TargetView { key, agent: None, yes }, Ok(entries));
            &&& held_by(holders, alias) is None ==> (named matches ClearStepView::Done(
                Ok(ClearOutcomeView::NotHeld { key: told, agent: whose, holders: labels }),
            ) && told == key && whose == alias && labels.len() == holders.len() && (0 <= k
                < labels.len() ==> labels[k] == (match holders[k].agent_alias {
                Some(a) => a,
                None => match holders[k].agent_id {
                    Some(id) => id,
                    None => "(unattributed)"@,
                },
            })))
            &&& held_by(holders, alias) matches Some(entry) ==> {
                &&& entry.agent_id is None ==> named == ClearStepView::Done(
                    Err(
                        "Backend does not attribute '"@ + key
                            + "' to an agent, so --agent cannot target it safely."@,
                    ),
                )
                &&& entry.agent_id matches Some(id) ==> {
                    let deletion = DeletionView {
                        target: key,
                        scope: ScopeView::Agent { alias, id },
                    };
                    &&& yes ==> named == ClearStepView::Forget(deletion)
                    &&& !yes ==> named == ClearStepView::Confirm(deletion)
                }
            }
            &&& holders.len() > 1 ==> (unnamed matches ClearStepView::Done(
                Ok(ClearOutcomeView::HeldByMany { key: told, holders: labels }),
            ) && told == key && labels.len() == holders.len() && (0 <= k < labels.len()
                ==> labels[k] == (match holders[k].agent_alias {
                Some(a) => a,
                None => match holders[k].agent_id {
                    Some(id) => id,
                    None => "(unattributed)"@,
                },
            })))
            &&& holders.len() <= 1 ==> {
                let deletion = DeletionView { target: key, scope: ScopeView::Everyone };
                &&& yes ==> unnamed == ClearStepView::Forget(deletion)
                &&& !yes ==> unnamed == ClearStepView::Confirm(deletion)
            }
        }),
{
}

/// A deletion that was decided: it is done only on a yes, a no aborts it, and
/// what is reported is what the memory says of it. What the operator is asked
/// names the key, and the agent where one was named.
pub proof fn law_how_a_deletion_ends(
    deletion: DeletionView,
    target: Seq<char>,
    alias: Seq<char>,
    id: Seq<char>,
    words: Seq<char>,
)
    ensures
        after_confirm(deletion, Err(words)) == ClearStepView::Done(Err(words)),
        after_confirm(deletion, Ok(true)) == ClearStepView::Forget(deletion),
        after_confirm(deletion, Ok(false)) == ClearStepView::Done(Ok(ClearOutcomeView::Aborted)),
        after_forget(deletion, Err(words)) == ClearStepView::Done(Err(words)),
        after_forget(deletion, Ok(true)) == ClearStepView::Done(
            Ok(ClearOutcomeView::Deleted(deletion)),
        ),
        after_forget(deletion, Ok(false)) == ClearStepView::Done(
            Ok(ClearOutcomeView::NothingDeleted),
        ),
        (DeletionView { target, scope: ScopeView::Everyone }).prompt() == "  Delete '"@ + target
            + "'?"@,
        (DeletionView { target, scope: ScopeView::Agent { alias, id } }).prompt() == "  Delete '"@
            + target + "' for agent '"@ + alias + "'?"@,
{
}

/// A batch is made of the keys of the entries, in order; it begins without asking
/// only where told so; and where there are no entries, or none came, it does not
/// begin.
pub proof fn law_how_a_batch_begins(
    entries: Seq<memory::EntryView>,
    yes: bool,
    words: Seq<char>,
    k: int,
)
    ensures
        first_batch_step(Err(words), yes) == BatchStepView::Failed(words),
        entries.len() == 0 ==> first_batch_step(Ok(entries), yes) is Empty,
        entries.len() > 0 && yes ==> (first_batch_step(
            Ok(entries),
            yes,
        ) matches BatchStepView::Forget(batch) && batch.at == 0 && batch.deleted == 0
            && batch.keys.len() == entries.len() && (0 <= k < entries.len() ==> batch.keys[k]
            == entries[k].key)),
        entries.len() > 0 && !yes ==> (first_batch_step(
            Ok(entries),
            yes,
        ) matches BatchStepView::Confirm(batch) && batch.at == 0 && batch.deleted == 0
            && batch.keys.len() == entries.len() && (0 <= k < entries.len() ==> batch.keys[k]
            == entries[k].key)),
{
}

/// A batch goes on key by key: what is gone is counted, what was not there is
/// not; behind the last key the count is told; and a failure ends it.
pub proof fn law_how_a_batch_goes_on(batch: BatchView, gone: bool, words: Seq<char>)
    requires
        0 <= batch.at < batch.keys.len(),
    ensures
        after_batch_forget(batch, Err(words)) == BatchStepView::Failed(words),
        ({
            let deleted = if gone {
                batch.deleted + 1
            } else {
                batch.deleted
            };
            &&& batch.at + 1 < batch.keys.len() ==> after_batch_forget(batch, Ok(gone))
                == BatchStepView::Forget(
                BatchView { keys: batch.keys, at: batch.at + 1, deleted },
            )
            &&& batch.at + 1 == batch.keys.len() ==> after_batch_forget(batch, Ok(gone)) == (
            BatchStepView::Cleared { deleted, total: batch.keys.len() as int })
        }),
        batch_step(batch) == BatchStepView::Forget(batch),
{
}

/// What is said of an index that was built anew: that nothing was to be embedded,
/// or how much was.
pub proof fn law_what_is_said_of_an_index(count: nat)
    ensures
        reindexed_text(0)
            == "FTS rebuilt. No embeddings to fill in (either everything is already embedded or the backend has no embedder configured)."@,
        reindexed_text(1) == "FTS rebuilt. Re-embedded "@ + seq!['1'] + " "@ + "entry"@ + "."@,
        count > 1 ==> reindexed_text(count) == "FTS rebuilt. Re-embedded "@ + text::decimal(count)
            + " "@ + "entries"@ + "."@,
{
    assert(text::decimal(1) =~= seq!['1']);
}

/// How many entries a category has is how many of the entries are in it.
pub proof fn law_a_count_counts_the_entries(
    entries: Seq<memory::EntryView>,
    category: Seq<char>,
)
    ensures
        tally(entries, category) == entries.filter(
            |e: memory::EntryView| e.category == category,
        ).len(),
    decreases entries.len(),
{
    reveal(Seq::filter);
    if entries.len() > 0 {
        law_a_count_counts_the_entries(entries.drop_last(), category);
    }
}

/// What the counts of entries must be: of different categories, each as many as
/// the category has and never none, and no category left out; the larger in
/// front.
pub proof fn law_counts_are_complete(
    counts: Seq<CountView>,
    entries: Seq<memory::EntryView>,
    i: int,
    j: int,
)
    requires
        is_count_of(counts, entries),
        is_ranked(counts),
    ensures
        0 <= i < j < counts.len() ==> counts[i].category != counts[j].category && counts[i].count
            >= counts[j].count,
        0 <= i < counts.len() ==> counts[i].count > 0 && counts[i].count == entries.filter(
            |e: memory::EntryView| e.category == counts[i].category,
        ).len(),
        0 <= i < entries.len() ==> exists|n: int|
            0 <= n < counts.len() && (#[trigger] counts[n]).category == entries[i].category,
{
    if 0 <= i < counts.len() {
        law_a_count_counts_the_entries(entries, counts[i].category);
    }
    if 0 <= i < entries.len() {
        assert(has_count(counts, entries[i].category));
    }
}

/// What targets, deletions and listed entries say is what they hold.
pub proof fn law_steps_say_what_they_hold(
    target: Target,
    deletion: Deletion,
    entry: ListedEntry,
    count: CategoryCount,
)
    ensures
        target@.key == target.key@,
        target@.agent is Some <==> target.agent is Some,
        target.agent matches Some(a) ==> target@.agent == Some(a@),
        target@.yes == target.yes,
        deletion@.target == deletion.target@,
        deletion.scope is Everyone <==> deletion@.scope is Everyone,
        deletion.scope matches Scope::Agent { alias, id } ==> deletion@.scope == (ScopeView::Agent {
            alias: alias@,
            id: id@,
        }),
        entry@.key == entry.key@,
        entry@.category == entry.category@,
        entry@.content == entry.content@,
        count@.category == count.category@,
        count@.count == count.count,
{
}

/// What tasks, listings and matches say is what they hold.
pub proof fn law_listings_say_what_they_hold(
    task: Task,
    refusal: Refusal,
    listing: Listing,
    found: Match,
    entries: Seq<KeyedEntry>,
    lines: Seq<ListedEntry>,
    counts: Seq<CategoryCount>,
    k: int,
)
    ensures
        task matches Task::List { category, session, limit, offset } ==> (task@ matches TaskView::List {
            category: asked,
            session: of,
            limit: most,
            offset: from,
        } && {
            &&& asked is Some <==> category is Some
            &&& category matches Some(c) ==> asked == Some(c@)
            &&& of is Some <==> session is Some
            &&& session matches Some(s) ==> of == Some(s@)
            &&& most == limit && from == offset
        }),
        task matches Task::Get { key } ==> task@ == (TaskView::Get { key: key@ }),
        task is Stats ==> task@ is Stats,
        task matches Task::ClearKey(step) ==> task@ == TaskView::ClearKey(step@),
        task matches Task::Clear { category, scope, yes } ==> (task@ matches TaskView::Clear {
            category: asked,
            scope: said,
            yes: told,
        } && {
            &&& asked is Some <==> category is Some
            &&& category matches Some(c) ==> asked == Some(c@)
            &&& said == scope@ && told == yes
        }),
        task is Reindex ==> task@ is Reindex,
        task_view(Ok(task)) == Ok::<TaskView, RefusalView>(task@),
        refusal is Disabled ==> task_view(Err(refusal)) == Err::<TaskView, RefusalView>(
            RefusalView::Disabled,
        ),
        refusal matches Refusal::AppendOnly(backend) ==> task_view(Err(refusal)) == Err::<
            TaskView,
            RefusalView,
        >(RefusalView::AppendOnly(backend@)),
        listing is Empty ==> listing@ is Empty,
        listing matches Listing::NoneAtOffset { offset, total } ==> listing@ == (
        ListingView::NoneAtOffset { offset: offset as int, total: total as int }),
        listing matches Listing::Page { total, from, to, entries: shown, next } ==> (
        listing@ matches ListingView::Page {
            total: all,
            from: first,
            to: last,
            entries: told,
            next: more,
        } && {
            &&& all == total && first == from && last == to
            &&& told.len() == shown@.len()
            &&& 0 <= k < shown@.len() ==> told[k] == shown@[k]@
            &&& more is Some <==> next is Some
            &&& next matches Some(n) ==> more == Some(n as int)
        }),
        found is Missing ==> found@ is Missing,
        found matches Match::One(entry) ==> found@ == MatchView::One(entry@),
        found matches Match::Many(list) ==> found@ == MatchView::Many(keyed_views(list@)),
        keyed_views(entries).len() == entries.len(),
        0 <= k < entries.len() ==> keyed_views(entries)[k] == (
            entries[k].key@,
            entries[k].category@,
        ),
        listed_views(lines).len() == lines.len(),
        0 <= k < lines.len() ==> listed_views(lines)[k] == lines[k]@,
        count_views(counts).len() == counts.len(),
        0 <= k < counts.len() ==> count_views(counts)[k] == counts[k]@,
{
}

/// What the steps of a deletion and its outcome say is what they hold.
pub proof fn law_deletions_say_what_they_hold(
    outcome: ClearOutcome,
    step: ClearStep,
    batch: BatchStep,
    said: Result<bool, String>,
    listed: Result<Vec<MemoryEntry>, String>,
)
    ensures
        outcome matches ClearOutcome::NotFound { key } ==> outcome@ == (ClearOutcomeView::NotFound {
            key: key@,
        }),
        outcome matches ClearOutcome::Many { key, entries } ==> outcome@ == (
        ClearOutcomeView::Many { key: key@, entries: keyed_views(entries@) }),
        outcome matches ClearOutcome::NotHeld { key, agent, holders } ==> outcome@ == (
        ClearOutcomeView::NotHeld { key: key@, agent: agent@, holders: text::views(holders@) }),
        outcome matches ClearOutcome::HeldByMany { key, holders } ==> outcome@ == (
        ClearOutcomeView::HeldByMany { key: key@, holders: text::views(holders@) }),
        outcome is Aborted ==> outcome@ is Aborted,
        outcome matches ClearOutcome::Deleted(deletion) ==> outcome@ == ClearOutcomeView::Deleted(
            deletion@,
        ),
        outcome is NothingDeleted ==> outcome@ is NothingDeleted,
        step matches ClearStep::Look(target) ==> step@ == ClearStepView::Look(target@),
        step matches ClearStep::Search(target) ==> step@ == ClearStepView::Search(target@),
        step matches ClearStep::Holders(target) ==> step@ == ClearStepView::Holders(target@),
        step matches ClearStep::Confirm(deletion) ==> step@ == ClearStepView::Confirm(deletion@),
        step matches ClearStep::Forget(deletion) ==> step@ == ClearStepView::Forget(deletion@),
        step matches ClearStep::Done(Ok(end)) ==> step@ == ClearStepView::Done(Ok(end@)),
        step matches ClearStep::Done(Err(e)) ==> step@ == ClearStepView::Done(Err(e@)),
        batch is Empty ==> batch@ is Empty,
        batch matches BatchStep::Confirm(b) ==> batch@ == BatchStepView::Confirm(b@),
        batch matches BatchStep::Forget(b) ==> batch@ == BatchStepView::Forget(b@),
        batch is Aborted ==> batch@ is Aborted,
        batch matches BatchStep::Cleared { deleted, total } ==> batch@ == (BatchStepView::Cleared {
            deleted: deleted as int,
            total: total as int,
        }),
        batch matches BatchStep::Failed(e) ==> batch@ == BatchStepView::Failed(e@),
        said matches Ok(b) ==> answer_view(said) == Ok::<bool, Seq<char>>(b),
        said matches Err(e) ==> answer_view(said) == Err::<bool, Seq<char>>(e@),
        listed matches Ok(list) ==> entries_view(listed) == Ok::<
            Seq<memory::EntryView>,
            Seq<char>,
        >(memory::entry_views(list@)),
        listed matches Err(e) ==> entries_view(listed) == Err::<Seq<memory::EntryView>, Seq<char>>(
            e@,
        ),
{
}

}
