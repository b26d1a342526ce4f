//! Session lifecycle frames (metadata only).
//!
//! Builds the `session_created`, `session_update` and `session_closed` frames
//! that keep a dashboard's session list live without polling. Frames carry
//! session metadata only, never message content.
use vstd::prelude::*;

use crate::clock;
use crate::clock::Moment;
use crate::json;
use crate::json::{Fields, Json};
use crate::text;

verus! {

/// Which lifecycle transition a frame announces.
#[derive(Clone, Copy, Debug, PartialEq, Eq, Structural)]
pub enum SessionEventKind {
    Created,
    Update,
    Closed,
}

impl SessionEventKind {
    pub open spec fn name(self) -> Seq<char> {
        match self {
            SessionEventKind::Created => "session_created"@,
            SessionEventKind::Update => "session_update"@,
            SessionEventKind::Closed => "session_closed"@,
        }
    }

    /// The type that a frame of this kind carries.
    pub fn as_str(self) -> (out: &'static str)
        ensures
            out@ == self.name(),
    {
        match self {
            SessionEventKind::Created => "session_created",
            SessionEventKind::Update => "session_update",
            SessionEventKind::Closed => "session_closed",
        }
    }
}

/// Optional metadata carried on a lifecycle frame. Everything here is session
/// metadata: a field of message content has no place in it.
#[derive(Debug)]
pub struct SessionEventFields {
    pub agent_alias: Option<String>,
    pub name: Option<String>,
    pub message_count: Option<u64>,
    /// `"idle"`, `"running"` or `"error"` when known.
    pub state: Option<String>,
}

/// What [`SessionEventFields`] say.
pub struct FieldsView {
    pub agent_alias: Option<Seq<char>>,
    pub name: Option<Seq<char>>,
    pub message_count: Option<u64>,
    pub state: Option<Seq<char>>,
}

impl SessionEventFields {
    pub open spec fn view(&self) -> FieldsView {
        FieldsView {
            agent_alias: text::option_view(self.agent_alias),
            name: text::option_view(self.name),
            message_count: self.message_count,
            state: text::option_view(self.state),
        }
    }
}

impl Default for SessionEventFields {
    /// Nothing known.
    fn default() -> (out: Self)
        ensures
            out@ == (FieldsView { agent_alias: None, name: None, message_count: None, state: None }),
    {
        SessionEventFields { agent_alias: None, name: None, message_count: None, state: None }
    }
}

/// The metadata row of a session, as far as a lifecycle frame carries it.
#[derive(Debug)]
pub struct SessionRow {
    pub agent_alias: Option<String>,
    pub name: Option<String>,
    pub message_count: usize,
}

/// The fields of a frame from the backend's metadata row and state row. Missing
/// rows yield empty fields (the frame still carries key, id and timestamp).
pub fn fields_from_backend(row: Option<SessionRow>, state: Option<String>) -> (out:
    SessionEventFields)
    ensures
        out@ == (FieldsView {
            agent_alias: match row {
                Some(r) => text::option_view(r.agent_alias),
                None => None,
            },
            name: match row {
                Some(r) => text::option_view(r.name),
                None => None,
            },
            message_count: match row {
                Some(r) => Some(r.message_count as u64),
                None => None,
            },
            state: text::option_view(state),
        }),
{
    match row {
        Some(r) => SessionEventFields {
            agent_alias: r.agent_alias,
            name: r.name,
            message_count: Some(r.message_count as u64),
            state,
        },
        None => SessionEventFields { agent_alias: None, name: None, message_count: None, state },
    }
}

/// The form of a session key that is shown: without `gw_` for gateway sessions,
/// the full key for the others.
pub open spec fn display_id(key: Seq<char>) -> Seq<char> {
    if text::starts_with(key, "gw_"@) {
        key.skip(3)
    } else {
        key
    }
}

/// The form of a session key that is shown.
pub fn session_id(key: &str) -> (out: String)
    ensures
        out@ == display_id(key@),
{
    let chars: Vec<char> = text::chars_of(key);
    proof {
        reveal_strlit("gw_");
    }
    if text::starts_with_chars(&chars, "gw_") {
        let out: String = text::text_of(&chars, 3, chars.len());
        proof {
            assert(out@ =~= key@.skip(3));
        }
        out
    } else {
        key.to_owned()
    }
}

/// A text field where there is a text, nothing where there is none.
pub open spec fn with_text(
    fields: Map<Seq<char>, json::Document>,
    key: Seq<char>,
    value: Option<Seq<char>>,
) -> Map<Seq<char>, json::Document> {
    match value {
        Some(s) => fields.insert(key, json::Document::Text(s)),
        None => fields,
    }
}

/// The fields that every frame has.
pub open spec fn common_fields(
    kind: SessionEventKind,
    key: Seq<char>,
    timestamp: Seq<char>,
) -> Map<Seq<char>, json::Document> {
    Map::<Seq<char>, json::Document>::empty().insert(
        "type"@,
        json::Document::Text(kind.name()),
    ).insert("source"@, json::Document::Text("sessions"@)).insert(
        "session_key"@,
        json::Document::Text(key),
    ).insert("session_id"@, json::Document::Text(display_id(key))).insert(
        "timestamp"@,
        json::Document::Text(timestamp),
    )
}

/// A lifecycle frame.
pub open spec fn event_fields(
    kind: SessionEventKind,
    key: Seq<char>,
    fields: FieldsView,
    timestamp: Seq<char>,
) -> Map<Seq<char>, json::Document> {
    let named = with_text(
        with_text(common_fields(kind, key, timestamp), "agent_alias"@, fields.agent_alias),
        "name"@,
        fields.name,
    );
    let counted = match fields.message_count {
        Some(n) => named.insert("message_count"@, json::Document::Number(json::number_of(n))),
        None => named,
    };
    with_text(counted, "state"@, fields.state)
}

fn put_text(fields: &mut Fields, key: &str, value: &Option<String>)
    ensures
        final(fields)@ == with_text(old(fields)@, key@, text::option_view(*value)),
{
    if let Some(s) = value {
        fields.insert(key, Json::text(s.as_str()));
    }
}

/// Builds a lifecycle frame for a known moment.
pub fn build_session_event_at(
    kind: SessionEventKind,
    session_key: &str,
    fields: &SessionEventFields,
    timestamp: &str,
) -> (out: Json)
    ensures
        out@ == json::Document::Object(event_fields(kind, session_key@, fields@, timestamp@)),
{
    let mut frame: Fields = Fields::new();
    frame.insert("type", Json::text(kind.as_str()));
    frame.insert("source", Json::text("sessions"));
    frame.insert("session_key", Json::text(session_key));
    frame.insert("session_id", Json::text(session_id(session_key).as_str()));
    frame.insert("timestamp", Json::text(timestamp));
    put_text(&mut frame, "agent_alias", &fields.agent_alias);
    put_text(&mut frame, "name", &fields.name);
    if let Some(count) = fields.message_count {
        frame.insert("message_count", Json::number(count));
    }
    put_text(&mut frame, "state", &fields.state);
    Json::Object(frame)
}

/// Builds a lifecycle frame, stamped with the present moment. `session_id` is
/// the form of the key that is shown.
pub fn build_session_event(
    kind: SessionEventKind,
    session_key: &str,
    fields: &SessionEventFields,
) -> (out: Json)
    ensures
        exists|seconds: int, nanos: int| #[trigger]
            clock::is_moment(seconds, nanos) && out@ == json::Document::Object(
                event_fields(kind, session_key@, fields@, clock::rfc3339(seconds, nanos)),
            ),
{
    let now: Moment = Moment::now();
    build_session_event_at(kind, session_key, fields, now.to_rfc3339().as_str())
}

/// The names of the fields that a frame may have.
pub open spec fn is_metadata(name: Seq<char>) -> bool {
    ||| name == "type"@
    ||| name == "source"@
    ||| name == "session_key"@
    ||| name == "session_id"@
    ||| name == "timestamp"@
    ||| name == "agent_alias"@
    ||| name == "name"@
    ||| name == "message_count"@
    ||| name == "state"@
}

/// A frame carries metadata only: no field but the nine, and never content.
pub proof fn law_frames_carry_metadata_only(
    kind: SessionEventKind,
    key: Seq<char>,
    fields: FieldsView,
    timestamp: Seq<char>,
)
    ensures
        forall|name: Seq<char>| #[trigger]
            event_fields(kind, key, fields, timestamp).contains_key(name) ==> is_metadata(name),
        !event_fields(kind, key, fields, timestamp).contains_key("content"@),
{
    reveal_strlit("content");
    reveal_strlit("type");
    reveal_strlit("source");
    reveal_strlit("session_key");
    reveal_strlit("session_id");
    reveal_strlit("timestamp");
    reveal_strlit("agent_alias");
    reveal_strlit("name");
    reveal_strlit("message_count");
    reveal_strlit("state");
    assert("content"@.len() == 7);
    assert(!is_metadata("content"@));
}

/// Each frame says which session it is about, under the key itself and under
/// the form of it that is shown, and that it comes from the sessions.
pub proof fn law_frames_name_their_session(
    kind: SessionEventKind,
    key: Seq<char>,
    fields: FieldsView,
    timestamp: Seq<char>,
)
    ensures
        ({
            let frame = json::Document::Object(event_fields(kind, key, fields, timestamp));
            &&& frame.at("type"@) == json::Document::Text(kind.name())
            &&& frame.at("source"@) == json::Document::Text("sessions"@)
            &&& frame.at("session_key"@) == json::Document::Text(key)
            &&& frame.at("session_id"@) == json::Document::Text(display_id(key))
            &&& frame.at("timestamp"@) == json::Document::Text(timestamp)
        }),
{
    reveal_strlit("type");
    reveal_strlit("source");
    reveal_strlit("session_key");
    reveal_strlit("session_id");
    reveal_strlit("timestamp");
    reveal_strlit("agent_alias");
    reveal_strlit("name");
    reveal_strlit("message_count");
    reveal_strlit("state");
    assert("type"@[0] == 't' && "name"@[0] == 'n');
    assert("source"@.len() == 6 && "session_key"@.len() == 11 && "session_id"@.len() == 10);
    assert("timestamp"@.len() == 9);
    assert("agent_alias"@[0] == 'a' && "session_key"@[0] == 's');
    assert("message_count"@.len() == 13 && "state"@.len() == 5);
    assert("type"@.len() == 4 && "name"@.len() == 4);
}

/// The types of the frames.
pub proof fn law_types_of_frames()
    ensures
        SessionEventKind::Created.name() == "session_created"@,
        SessionEventKind::Update.name() == "session_update"@,
        SessionEventKind::Closed.name() == "session_closed"@,
{
}

/// A gateway session is shown without the `gw_` in front of its key, whatever
/// else the key holds; any other session under its whole key.
pub proof fn law_shown_keys(id: Seq<char>, key: Seq<char>)
    ensures
        display_id("gw_"@ + id) == id,
        !"gw_"@.is_prefix_of(key) ==> display_id(key) == key,
{
    reveal_strlit("gw_");
    text::law_containing("gw_"@ + id, "gw_"@);
    assert(("gw_"@ + id).subrange(0, 3) =~= "gw_"@);
    assert(("gw_"@ + id).skip(3) =~= id);
    text::law_containing(key, "gw_"@);
}

/// A frame tells of a session what is known of it, each under its own name, and
/// leaves out what is not.
pub proof fn law_frames_tell_what_is_known(
    kind: SessionEventKind,
    key: Seq<char>,
    fields: FieldsView,
    timestamp: Seq<char>,
)
    ensures
        ({
            let frame = json::Document::Object(event_fields(kind, key, fields, timestamp));
            &&& frame.get("agent_alias"@) == (match fields.agent_alias {
                Some(s) => Some(json::Document::Text(s)),
                None => None,
            })
            &&& frame.get("name"@) == (match fields.name {
                Some(s) => Some(json::Document::Text(s)),
                None => None,
            })
            &&& frame.get("message_count"@) == (match fields.message_count {
                Some(n) => Some(json::Document::Number(json::number_of(n))),
                None => None,
            })
            &&& frame.get("state"@) == (match fields.state {
                Some(s) => Some(json::Document::Text(s)),
                None => None,
            })
        }),
{
    reveal_strlit("type");
    reveal_strlit("source");
    reveal_strlit("session_key");
    reveal_strlit("session_id");
    reveal_strlit("timestamp");
    reveal_strlit("agent_alias");
    reveal_strlit("name");
    reveal_strlit("message_count");
    reveal_strlit("state");
    assert("type"@.len() == 4 && "source"@.len() == 6 && "session_key"@.len() == 11);
    assert("session_id"@.len() == 10 && "timestamp"@.len() == 9 && "agent_alias"@.len() == 11);
    assert("name"@.len() == 4 && "message_count"@.len() == 13 && "state"@.len() == 5);
    assert("session_key"@[0] != "agent_alias"@[0]);
    assert("type"@[0] != "name"@[0]);
}

/// What fields say is what they hold.
pub proof fn law_fields_say_what_they_hold(fields: SessionEventFields)
    ensures
        fields@.agent_alias is Some <==> fields.agent_alias is Some,
        fields.agent_alias matches Some(s) ==> fields@.agent_alias == Some(s@),
        fields@.name is Some <==> fields.name is Some,
        fields.name matches Some(s) ==> fields@.name == Some(s@),
        fields@.message_count == fields.message_count,
        fields@.state is Some <==> fields.state is Some,
        fields.state matches Some(s) ==> fields@.state == Some(s@),
{
}

}
