//! Memories: what is remembered, for whom, and under which category.
use vstd::prelude::*;

use crate::text;

verus! {

/// What kind of memory an entry is.
#[derive(Debug, PartialEq, Eq)]
pub enum MemoryCategory {
    /// Permanent facts.
    Core,
    /// Notes of a day.
    Daily,
    /// The context of a chat.
    Conversation,
    /// Anything else, by name.
    Custom(String),
}

/// What a [`MemoryCategory`] says.
pub enum CategoryView {
    Core,
    Daily,
    Conversation,
    Custom(Seq<char>),
}

impl MemoryCategory {
    pub open spec fn view(&self) -> CategoryView {
        match self {
            MemoryCategory::Core => CategoryView::Core,
            MemoryCategory::Daily => CategoryView::Daily,
            MemoryCategory::Conversation => CategoryView::Conversation,
            MemoryCategory::Custom(name) => CategoryView::Custom(name@),
        }
    }
}

impl Clone for MemoryCategory {
    fn clone(&self) -> (out: Self)
        ensures
            out@ == self@,
    {
        match self {
            MemoryCategory::Core => MemoryCategory::Core,
            MemoryCategory::Daily => MemoryCategory::Daily,
            MemoryCategory::Conversation => MemoryCategory::Conversation,
            MemoryCategory::Custom(name) => MemoryCategory::Custom(name.clone()),
        }
    }
}

/// The category of a name.
pub open spec fn category_named(name: Seq<char>) -> CategoryView {
    if name == "core"@ {
        CategoryView::Core
    } else if name == "daily"@ {
        CategoryView::Daily
    } else if name == "conversation"@ {
        CategoryView::Conversation
    } else {
        CategoryView::Custom(name)
    }
}

/// The category of a name.
pub fn named_category(name: &str) -> (out: MemoryCategory)
    ensures
        out@ == category_named(name@),
{
    if text::same(name, "core") {
        MemoryCategory::Core
    } else if text::same(name, "daily") {
        MemoryCategory::Daily
    } else if text::same(name, "conversation") {
        MemoryCategory::Conversation
    } else {
        MemoryCategory::Custom(name.to_owned())
    }
}

/// One entry of a memory.
#[derive(Debug)]
pub struct MemoryEntry {
    pub id: String,
    pub key: String,
    pub content: String,
    /// The category, as it is shown.
    pub category: String,
    /// When it was stored, as it is shown.
    pub timestamp: String,
    pub session_id: Option<String>,
    /// The agent whose memory it is, by the name under which it is known.
    pub agent_alias: Option<String>,
    /// The agent whose memory it is.
    pub agent_id: Option<String>,
    /// The entry that took its place. Such an entry is kept as evidence, but no
    /// longer recalled.
    pub superseded_by: Option<String>,
}

/// What a [`MemoryEntry`] says.
pub struct EntryView {
    pub id: Seq<char>,
    pub key: Seq<char>,
    pub content: Seq<char>,
    pub category: Seq<char>,
    pub timestamp: Seq<char>,
    pub session_id: Option<Seq<char>>,
    pub agent_alias: Option<Seq<char>>,
    pub agent_id: Option<Seq<char>>,
    pub superseded_by: Option<Seq<char>>,
}

impl MemoryEntry {
    pub open spec fn view(&self) -> EntryView {
        EntryView {
            id: self.id@,
            key: self.key@,
            content: self.content@,
            category: self.category@,
            timestamp: self.timestamp@,
            session_id: text::option_view(self.session_id),
            agent_alias: text::option_view(self.agent_alias),
            agent_id: text::option_view(self.agent_id),
            superseded_by: text::option_view(self.superseded_by),
        }
    }

    /// An entry that says the same.
    pub fn copy(&self) -> (out: MemoryEntry)
        ensures
            out@ == self@,
    {
        MemoryEntry {
            id: self.id.clone(),
            key: self.key.clone(),
            content: self.content.clone(),
            category: self.category.clone(),
            timestamp: self.timestamp.clone(),
            session_id: text::copy_option(&self.session_id),
            agent_alias: text::copy_option(&self.agent_alias),
            agent_id: text::copy_option(&self.agent_id),
            superseded_by: text::copy_option(&self.superseded_by),
        }
    }
}

/// What some entries say.
pub open spec fn entry_views(entries: Seq<MemoryEntry>) -> Seq<EntryView> {
    entries.map_values(|e: MemoryEntry| e.view())
}

/// The three names that are known stand for their categories, each for its own;
/// any other name stands for itself.
pub proof fn law_names_of_categories(name: Seq<char>)
    ensures
        category_named("core"@) == CategoryView::Core,
        category_named("daily"@) == CategoryView::Daily,
        category_named("conversation"@) == CategoryView::Conversation,
        name != "core"@ && name != "daily"@ && name != "conversation"@ ==> category_named(name)
            == CategoryView::Custom(name),
{
    reveal_strlit("core");
    reveal_strlit("daily");
    reveal_strlit("conversation");
    assert("core"@.len() == 4 && "daily"@.len() == 5 && "conversation"@.len() == 12);
}

/// What a category and an entry say is what they hold.
pub proof fn law_entries_say_what_they_hold(
    entry: MemoryEntry,
    category: MemoryCategory,
    entries: Seq<MemoryEntry>,
    i: int,
)
    requires
        0 <= i < entries.len(),
    ensures
        entry@.id == entry.id@,
        entry@.key == entry.key@,
        entry@.content == entry.content@,
        entry@.category == entry.category@,
        entry@.timestamp == entry.timestamp@,
        entry@.session_id is Some <==> entry.session_id is Some,
        entry.session_id matches Some(s) ==> entry@.session_id == Some(s@),
        entry@.agent_alias is Some <==> entry.agent_alias is Some,
        entry.agent_alias matches Some(s) ==> entry@.agent_alias == Some(s@),
        entry@.agent_id is Some <==> entry.agent_id is Some,
        entry.agent_id matches Some(s) ==> entry@.agent_id == Some(s@),
        entry@.superseded_by is Some <==> entry.superseded_by is Some,
        entry.superseded_by matches Some(s) ==> entry@.superseded_by == Some(s@),
        category is Core <==> category@ is Core,
        category is Daily <==> category@ is Daily,
        category is Conversation <==> category@ is Conversation,
        category matches MemoryCategory::Custom(name) ==> category@ == CategoryView::Custom(name@),
        entry_views(entries).len() == entries.len(),
        entry_views(entries)[i] == entries[i]@,
{
}

}
