//! Read-only images explicitly referenced by persisted assistant or tool output
//! in a visible session. The transcript owns the allowlist; there is no
//! unauthenticated or arbitrary-file route.
use vstd::prelude::*;

use crate::json;
use crate::json::Json;
use crate::path;
use crate::render_delivery;
use crate::reply;
use crate::reply::{Body, Reply, StatusCode};
use crate::session_jobs;
use crate::text;

verus! {

/// The most bytes that an image may have.
pub const MAX_IMAGE_BYTES: u64 = 24 * 1024 * 1024;

/// Whether a text stands in one of the texts of a document, at any depth. The
/// names of an object's fields do not count; an object has finitely many.
pub open spec fn mentions(document: json::Document, marker: Seq<char>) -> bool
    decreases document,
{
    match document {
        json::Document::Text(s) => text::contains(s, marker),
        json::Document::Array(items) => exists|i: int|
            0 <= i < items.len() && mentions(#[trigger] items[i], marker),
        json::Document::Object(fields) => fields.dom().finite() && exists|k: Seq<char>|
            #[trigger] fields.contains_key(k) && mentions(fields[k], marker),
        _ => false,
    }
}

/// Whether a message refers to an image by its marker. `document` is what the
/// message spells, if it spells a document: then only the document's texts count.
pub open spec fn references(
    content: Seq<char>,
    document: Option<json::Document>,
    marker: Seq<char>,
) -> bool {
    match document {
        Some(d) => mentions(d, marker),
        None => text::contains(content, marker),
    }
}

/// Whether a text stands in one of the texts of a value, at any depth.
pub fn visit(value: &Json, marker: &str) -> (out: bool)
    ensures
        out == mentions(value@, marker@),
    decreases value@,
{
    match value {
        Json::Text(s) => text::contains_text(s.as_str(), marker),
        Json::Array(items) => {
            let ghost docs = json::documents_of(items@);
            let mut i: usize = 0;
            while i < items.len()
                invariant
                    i <= items@.len(),
                    *value == Json::Array(*items),
                    docs == json::documents_of(items@),
                    value@ == json::Document::Array(docs),
                    forall|j: int| 0 <= j < i ==> !mentions(#[trigger] docs[j], marker@),
                decreases items@.len() - i,
            {
                proof {
                    assert(docs[i as int] == items@[i as int]@);
                    assert(decreases_to!(value@ => value@->Array_0));
                    assert(decreases_to!(docs => docs[i as int]));
                }
                if visit(&items[i], marker) {
                    proof {
                        assert(mentions(docs[i as int], marker@));
                    }
                    return true;
                }
                i += 1;
            }
            false
        },
        Json::Object(fields) => {
            let size: usize = fields.len();
            let ghost docs = fields@;
            let mut i: usize = 0;
            while i < size
                invariant
                    i <= size == fields.spec_len(),
                    *value == Json::Object(*fields),
                    docs == fields@,
                    docs.dom().finite(),
                    value@ == json::Document::Object(docs),
                    forall|j: int|
                        0 <= j < size ==> docs.contains_key(#[trigger] fields.spec_name(j)),
                    forall|j: int|
                        0 <= j < i ==> !mentions(docs[#[trigger] fields.spec_name(j)], marker@),
                decreases size - i,
            {
                let part: &Json = fields.value_at(i);
                proof {
                    assert(decreases_to!(value@ => value@->Object_0));
                    assert(decreases_to!(docs => docs[fields.spec_name(i as int)]));
                }
                if visit(part, marker) {
                    proof {
                        assert(mentions(docs[fields.spec_name(i as int)], marker@));
                    }
                    return true;
                }
                i += 1;
            }
            proof {
                assert forall|k: Seq<char>| #[trigger] docs.contains_key(k) implies !mentions(
                    docs[k],
                    marker@,
                ) by {
                    let j = choose|j: int| 0 <= j < size && #[trigger] fields.spec_name(j) == k;
                    assert(!mentions(docs[fields.spec_name(j)], marker@));
                }
            }
            false
        },
        _ => false,
    }
}

/// Whether a message refers to an image by its marker: in a text of the document
/// that the message spells, or, where it spells none, in the message itself.
pub fn references_image(content: &str, marker: &str) -> (out: bool)
    ensures
        out == references(content@, json::parsed_text(content@), marker@),
{
    match Json::parse(content) {
        Some(value) => visit(&value, marker),
        None => text::contains_text(content, marker),
    }
}


/// The stored key of the session whose image is asked for, or the status under
/// which the request is refused.
pub open spec fn media_access(
    access: Result<Seq<char>, StatusCode>,
    path: Seq<char>,
) -> Result<Seq<char>, StatusCode> {
    match access {
        Ok(key) => if path::is_clean_absolute(path) {
            Ok(key)
        } else {
            Err(StatusCode::BadRequest)
        },
        Err(status) => Err(status),
    }
}

/// Serves an image, first part: the session whose transcript decides. Unlike
/// the general dashboard, file delivery always requires an actual paired
/// credential.
pub fn read(access: Result<String, StatusCode>, path: &str) -> (out: Result<String, Reply>)
    ensures
        match out {
            Ok(key) => media_access(session_jobs::text_result(access), path@) == Ok::<
                Seq<char>,
                StatusCode,
            >(key@),
            Err(refusal) => media_access(session_jobs::text_result(access), path@) is Err
                && refusal@ == reply::status_view(
                media_access(session_jobs::text_result(access), path@)->Err_0,
            ),
        },
{
    match access {
        Ok(key) => if path::clean_absolute(path) {
            Ok(key)
        } else {
            Err(reply::bare(StatusCode::BadRequest))
        },
        Err(status) => Err(reply::bare(status)),
    }
}

/// One row of a session's transcript.
#[derive(Debug)]
pub struct TranscriptRow {
    pub role: String,
    pub content: String,
}

/// What a [`TranscriptRow`] says.
pub struct RowView {
    pub role: Seq<char>,
    pub content: Seq<char>,
}

impl TranscriptRow {
    pub open spec fn view(&self) -> RowView {
        RowView { role: self.role@, content: self.content@ }
    }
}

/// What some rows say.
pub open spec fn row_views(rows: Seq<TranscriptRow>) -> Seq<RowView> {
    rows.map_values(|r: TranscriptRow| r.view())
}

/// Whether a row of the assistant or of a tool refers to the image at `path`.
pub open spec fn row_allows(row: RowView, path: Seq<char>) -> bool {
    (row.role == "assistant"@ || row.role == "tool"@) && references(
        row.content,
        json::parsed_text(row.content),
        render_delivery::marker_for(path),
    )
}

/// Whether a transcript refers to the image at `path`.
pub open spec fn transcript_allows(rows: Seq<RowView>, path: Seq<char>) -> bool {
    exists|i: int| 0 <= i < rows.len() && row_allows(#[trigger] rows[i], path)
}

/// Whether a transcript refers to the image at `path`: in a row of the assistant
/// or of a tool, by the image's marker.
pub fn allowed(rows: &Vec<TranscriptRow>, path: &str) -> (out: bool)
    ensures
        out == transcript_allows(row_views(rows@), path@),
{
    let marker: String = text::concat3("[IMAGE:", path, "]");
    let ghost all = row_views(rows@);
    let mut i: usize = 0;
    while i < rows.len()
        invariant
            i <= rows@.len(),
            all == row_views(rows@),
            marker@ == render_delivery::marker_for(path@),
            forall|j: int| 0 <= j < i ==> !row_allows(#[trigger] all[j], path@),
        decreases rows@.len() - i,
    {
        let row: &TranscriptRow = &rows[i];
        proof {
            assert(all[i as int] == row@);
        }
        if (text::same(row.role.as_str(), "assistant") || text::same(row.role.as_str(), "tool"))
            && references_image(row.content.as_str(), marker.as_str()) {
            proof {
                assert(row_allows(all[i as int], path@));
            }
            return true;
        }
        i += 1;
    }
    false
}

/// Serves an image, second part: whether the session's transcript refers to it.
/// Where it does not, nothing more is said than that there is no such image.
pub fn read_allowed(rows: &Vec<TranscriptRow>, path: &str) -> (out: Result<(), Reply>)
    ensures
        match out {
            Ok(()) => transcript_allows(row_views(rows@), path@),
            Err(refusal) => !transcript_allows(row_views(rows@), path@) && refusal@
                == reply::status_view(StatusCode::NotFound),
        },
{
    if allowed(rows, path) {
        Ok(())
    } else {
        Err(reply::bare(StatusCode::NotFound))
    }
}

/// Whether a file may be opened as an image, or the status under which it may
/// not. `canonical` is the path that the file system finds behind `path`, and
/// `regular` whether a regular file is there; each is missing where the file
/// system gave no answer.
pub open spec fn file_access(
    path: Seq<char>,
    canonical: Option<Seq<char>>,
    regular: Option<bool>,
    size: u64,
) -> Result<(), StatusCode> {
    match canonical {
        None => Err(StatusCode::NotFound),
        Some(found) => if !path::is_same_place(found, path) || regular != Some(true) {
            Err(StatusCode::NotFound)
        } else if size > MAX_IMAGE_BYTES {
            Err(StatusCode::PayloadTooLarge)
        } else {
            Ok(())
        },
    }
}

/// Whether a file may be opened as an image. Symbolic links and files that are
/// not regular are refused before they are opened: a path cannot redirect the
/// allowlist.
pub fn check_file(path: &str, canonical: Option<&str>, regular: Option<bool>, size: u64) -> (out:
    Result<(), StatusCode>)
    ensures
        out == file_access(path@, text::option_str_view(canonical), regular, size),
{
    match canonical {
        None => Err(StatusCode::NotFound),
        Some(found) => {
            let is_regular: bool = match regular {
                Some(b) => b,
                None => false,
            };
            if !path::same_place(found, path) || !is_regular {
                Err(StatusCode::NotFound)
            } else if size > MAX_IMAGE_BYTES {
                Err(StatusCode::PayloadTooLarge)
            } else {
                Ok(())
            }
        },
    }
}

/// The image types that are served.
pub open spec fn is_served_type(mime: Seq<char>) -> bool {
    mime == "image/png"@ || mime == "image/jpeg"@ || mime == "image/webp"@ || mime == "image/gif"@
}

/// What was read of a file, as an image. `mime` is the image type that the
/// first bytes tell of.
pub fn read_image(bytes: Vec<u8>, mime: Option<String>) -> (out: Result<
    (String, Vec<u8>),
    StatusCode,
>)
    ensures
        session_jobs::image_result(out) == (if bytes@.len() > MAX_IMAGE_BYTES {
            Err(StatusCode::PayloadTooLarge)
        } else {
            match text::option_view(mime) {
                Some(m) => if is_served_type(m) {
                    Ok((m, bytes@))
                } else {
                    Err(StatusCode::UnsupportedMediaType)
                },
                None => Err(StatusCode::UnsupportedMediaType),
            }
        }),
{
    if bytes.len() as u64 > MAX_IMAGE_BYTES {
        return Err(StatusCode::PayloadTooLarge);
    }
    match mime {
        Some(m) => {
            let served: bool = text::same(m.as_str(), "image/png") || text::same(
                m.as_str(),
                "image/jpeg",
            ) || text::same(m.as_str(), "image/webp") || text::same(m.as_str(), "image/gif");
            if served {
                Ok((m, bytes))
            } else {
                Err(StatusCode::UnsupportedMediaType)
            }
        },
        None => Err(StatusCode::UnsupportedMediaType),
    }
}

/// The answer to a request for an image, given what reading the file came to;
/// where the reading itself broke off there is nothing.
pub open spec fn read_answer(
    read: Option<Result<(Seq<char>, Seq<u8>), StatusCode>>,
) -> reply::ReplyView {
    match read {
        Some(Ok(image)) => reply::image_view(image.0, image.1),
        Some(Err(StatusCode::NotFound)) => reply::ReplyView {
            status: StatusCode::NotFound,
            private: false,
            body: reply::BodyView::Json(reply::error_document("image_file_unavailable"@)),
        },
        Some(Err(status)) => reply::status_view(status),
        None => reply::status_view(StatusCode::InternalServerError),
    }
}

/// Serves an image, last part: the answer, given what reading the file came to.
pub fn read_reply(read: Option<Result<(String, Vec<u8>), StatusCode>>) -> (out: Reply)
    ensures
        out@ == read_answer(
            match read {
                Some(read) => Some(session_jobs::image_result(read)),
                None => None,
            },
        ),
{
    match read {
        Some(Ok((mime, bytes))) => reply::image_response(mime, bytes),
        Some(Err(StatusCode::NotFound)) => Reply {
            status: StatusCode::NotFound,
            private: false,
            body: Body::Json(reply::error_json("image_file_unavailable")),
        },
        Some(Err(status)) => reply::bare(status),
        None => reply::bare(StatusCode::InternalServerError),
    }
}

/// An image is read only for a paired device, of a session that it may see,
/// under a clean path, and where the session's transcript refers to it.
pub proof fn law_only_referenced_images_are_read(
    token: Option<Seq<char>>,
    known: bool,
    resolved: Option<Seq<char>>,
    hidden: bool,
    path: Seq<char>,
    rows: Seq<RowView>,
)
    requires
        media_access(session_jobs::access(token, known, resolved, hidden), path) is Ok,
        transcript_allows(rows, path),
    ensures
        session_jobs::paired(token, known),
        resolved is Some && !hidden,
        path::is_clean_absolute(path),
        exists|i: int|
            0 <= i < rows.len() && (#[trigger] rows[i]).role != "user"@ && references(
                rows[i].content,
                json::parsed_text(rows[i].content),
                render_delivery::marker_for(path),
            ),
{
    reveal_strlit("user");
    reveal_strlit("assistant");
    reveal_strlit("tool");
    let i = choose|i: int| 0 <= i < rows.len() && row_allows(#[trigger] rows[i], path);
    assert("user"@[0] == 'u' && "assistant"@[0] == 'a' && "tool"@[0] == 't');
    assert(rows[i].role != "user"@);
}

/// A text is mentioned by a text that contains it, by a list one of whose items
/// mentions it, and by an object one of whose values does; by nothing else.
pub proof fn law_where_a_marker_counts(
    said: Seq<char>,
    items: Seq<json::Document>,
    fields: Map<Seq<char>, json::Document>,
    b: bool,
    n: serde_json::Number,
    marker: Seq<char>,
)
    ensures
        mentions(json::Document::Text(said), marker) <==> exists|
            before: Seq<char>,
            after: Seq<char>,
        | said == #[trigger] (before + marker + after),
        mentions(json::Document::Array(items), marker) <==> exists|i: int|
            0 <= i < items.len() && mentions(#[trigger] items[i], marker),
        fields.dom().finite() ==> (mentions(json::Document::Object(fields), marker) <==> exists|
            k: Seq<char>,
        | #[trigger] fields.contains_key(k) && mentions(fields[k], marker)),
        !mentions(json::Document::Null, marker),
        !mentions(json::Document::Bool(b), marker),
        !mentions(json::Document::Number(n), marker),
{
    reveal_with_fuel(mentions, 2);
    text::law_containing(said, marker);
    let list = json::Document::Array(items);
    let object = json::Document::Object(fields);
    if mentions(list, marker) {
        assert(exists|i: int|
            0 <= i < list->Array_0.len() && mentions(#[trigger] list->Array_0[i], marker));
        let i = choose|i: int|
            0 <= i < list->Array_0.len() && mentions(#[trigger] list->Array_0[i], marker);
        assert(mentions(items[i], marker));
    }
    if exists|i: int| 0 <= i < items.len() && mentions(#[trigger] items[i], marker) {
        let i = choose|i: int| 0 <= i < items.len() && mentions(#[trigger] items[i], marker);
        assert(list->Array_0[i] == items[i]);
        assert(mentions(list, marker));
    }
    if mentions(object, marker) {
        let k = choose|k: Seq<char>| #[trigger]
            fields.contains_key(k) && mentions(fields[k], marker);
        assert(mentions(fields[k], marker));
    }
}

/// An image is allowed exactly where a row of the assistant's or of a tool's
/// carries its marker: in a text of the document that the row spells, or, where
/// it spells none, anywhere in the row.
pub proof fn law_which_images_are_allowed(rows: Seq<RowView>, path: Seq<char>)
    ensures
        transcript_allows(rows, path) <==> exists|i: int|
            {
                &&& 0 <= i < rows.len()
                &&& (#[trigger] rows[i]).role == "assistant"@ || rows[i].role == "tool"@
                &&& match json::parsed_text(rows[i].content) {
                    Some(document) => mentions(document, "[IMAGE:"@ + path + "]"@),
                    None => text::contains(rows[i].content, "[IMAGE:"@ + path + "]"@),
                }
            },
{
    if transcript_allows(rows, path) {
        let i = choose|i: int| 0 <= i < rows.len() && row_allows(#[trigger] rows[i], path);
        assert(rows[i].role == "assistant"@ || rows[i].role == "tool"@);
    }
    if exists|i: int|
        {
            &&& 0 <= i < rows.len()
            &&& (#[trigger] rows[i]).role == "assistant"@ || rows[i].role == "tool"@
            &&& match json::parsed_text(rows[i].content) {
                Some(document) => mentions(document, "[IMAGE:"@ + path + "]"@),
                None => text::contains(rows[i].content, "[IMAGE:"@ + path + "]"@),
            }
        } {
        let i = choose|i: int|
            {
                &&& 0 <= i < rows.len()
                &&& (#[trigger] rows[i]).role == "assistant"@ || rows[i].role == "tool"@
                &&& match json::parsed_text(rows[i].content) {
                    Some(document) => mentions(document, "[IMAGE:"@ + path + "]"@),
                    None => text::contains(rows[i].content, "[IMAGE:"@ + path + "]"@),
                }
            };
        assert(row_allows(rows[i], path));
    }
}

/// A granted key stands for a request with a clean absolute path, and every
/// other path is a bad request; a refused one stays refused as it was.
pub proof fn law_which_requests_are_looked_into(
    key: Seq<char>,
    status: StatusCode,
    path: Seq<char>,
)
    ensures
        path.len() > 0 && path[0] == '/' && !path::has_parent(path) ==> media_access(Ok(key), path)
            == Ok::<Seq<char>, StatusCode>(key),
        path.len() == 0 || path[0] != '/' || path::has_parent(path) ==> media_access(Ok(key), path)
            == Err::<Seq<char>, StatusCode>(StatusCode::BadRequest),
        media_access(Err(status), path) == Err::<Seq<char>, StatusCode>(status),
{
}

/// A file is opened exactly where the file system finds it at the very path, as
/// a regular file of at most 24 megabytes; a larger one is too large, and
/// anything else is not found.
pub proof fn law_which_files_are_opened(
    path: Seq<char>,
    canonical: Option<Seq<char>>,
    regular: Option<bool>,
    size: u64,
)
    ensures
        ({
            let there = canonical is Some && path::is_same_place(canonical->Some_0, path) && regular
                == Some(true);
            &&& there && size <= 25_165_824 ==> file_access(path, canonical, regular, size) == Ok::<
                (),
                StatusCode,
            >(())
            &&& there && size > 25_165_824 ==> file_access(path, canonical, regular, size) == Err::<
                (),
                StatusCode,
            >(StatusCode::PayloadTooLarge)
            &&& !there ==> file_access(path, canonical, regular, size) == Err::<(), StatusCode>(
                StatusCode::NotFound,
            )
        }),
{
}

/// Images of four types are served, under their own type and as they were read;
/// a file that is not there is named so; every other status is answered bare.
pub proof fn law_how_images_are_served(
    mime: Seq<char>,
    bytes: Seq<u8>,
    status: StatusCode,
)
    ensures
        is_served_type("image/png"@) && is_served_type("image/jpeg"@) && is_served_type(
            "image/webp"@,
        ) && is_served_type("image/gif"@),
        is_served_type(mime) ==> mime == "image/png"@ || mime == "image/jpeg"@ || mime
            == "image/webp"@ || mime == "image/gif"@,
        read_answer(Some(Ok((mime, bytes)))) == reply::image_view(mime, bytes),
        ({
            let missing = read_answer(Some(Err(StatusCode::NotFound)));
            &&& missing.status is NotFound
            &&& !missing.private
            &&& missing.body == reply::BodyView::Json(
                reply::error_document("image_file_unavailable"@),
            )
        }),
        !(status is NotFound) ==> read_answer(Some(Err(status))) == reply::status_view(status),
        read_answer(None) == reply::status_view(StatusCode::InternalServerError),
{
}

/// What rows say is what they hold, in order.
pub proof fn law_rows_say_what_they_hold(rows: Seq<TranscriptRow>, i: int)
    requires
        0 <= i < rows.len(),
    ensures
        row_views(rows).len() == rows.len(),
        row_views(rows)[i].role == rows[i].role@,
        row_views(rows)[i].content == rows[i].content@,
{
}

}
