//! Answers of the gateway to a request, before they take the form of HTTP.
use vstd::prelude::*;

use crate::json;
use crate::json::{Fields, Json};

verus! {

/// The statuses that the session handlers answer with.
#[derive(Clone, Copy, Debug, PartialEq, Eq, Structural)]
pub enum StatusCode {
    Success,
    BadRequest,
    Unauthorized,
    NotFound,
    PayloadTooLarge,
    UnsupportedMediaType,
    InternalServerError,
    NotImplemented,
    BadGateway,
    ServiceUnavailable,
}

impl StatusCode {
    pub open spec fn spec_number(self) -> u16 {
        match self {
            StatusCode::Success => 200,
            StatusCode::BadRequest => 400,
            StatusCode::Unauthorized => 401,
            StatusCode::NotFound => 404,
            StatusCode::PayloadTooLarge => 413,
            StatusCode::UnsupportedMediaType => 415,
            StatusCode::InternalServerError => 500,
            StatusCode::NotImplemented => 501,
            StatusCode::BadGateway => 502,
            StatusCode::ServiceUnavailable => 503,
        }
    }

    /// The number of the status in HTTP.
    pub fn number(self) -> (out: u16)
        ensures
            out == self.spec_number(),
    {
        match self {
            StatusCode::Success => 200,
            StatusCode::BadRequest => 400,
            StatusCode::Unauthorized => 401,
            StatusCode::NotFound => 404,
            StatusCode::PayloadTooLarge => 413,
            StatusCode::UnsupportedMediaType => 415,
            StatusCode::InternalServerError => 500,
            StatusCode::NotImplemented => 501,
            StatusCode::BadGateway => 502,
            StatusCode::ServiceUnavailable => 503,
        }
    }
}

/// What an answer carries.
#[derive(Debug)]
pub enum Body {
    /// Nothing: the status says it all.
    Empty,
    /// A document.
    Json(Json),
    /// An image, sent under its own type and no other (`nosniff`).
    Image { mime: String, bytes: Vec<u8> },
}

/// An answer.
#[derive(Debug)]
pub struct Reply {
    pub status: StatusCode,
    /// Whether caches are told to keep no copy (`private, no-store`).
    pub private: bool,
    pub body: Body,
}

/// What a [`Body`] says.
pub enum BodyView {
    Empty,
    Json(json::Document),
    Image { mime: Seq<char>, bytes: Seq<u8> },
}

/// What a [`Reply`] says.
pub struct ReplyView {
    pub status: StatusCode,
    pub private: bool,
    pub body: BodyView,
}

impl Body {
    pub open spec fn view(&self) -> BodyView {
        match self {
            Body::Empty => BodyView::Empty,
            Body::Json(value) => BodyView::Json(value@),
            Body::Image { mime, bytes } => BodyView::Image { mime: mime@, bytes: bytes@ },
        }
    }
}

impl Reply {
    pub open spec fn view(&self) -> ReplyView {
        ReplyView { status: self.status, private: self.private, body: self.body.view() }
    }
}

/// `{"error": message}`.
pub open spec fn error_document(message: Seq<char>) -> json::Document {
    json::Document::Object(Map::empty().insert("error"@, json::Document::Text(message)))
}

/// A refusal with its reason.
pub open spec fn error_view(status: StatusCode, message: Seq<char>) -> ReplyView {
    ReplyView { status, private: true, body: BodyView::Json(error_document(message)) }
}

/// A bare status.
pub open spec fn status_view(status: StatusCode) -> ReplyView {
    ReplyView { status, private: false, body: BodyView::Empty }
}

/// A document.
pub open spec fn json_view(document: json::Document) -> ReplyView {
    ReplyView { status: StatusCode::Success, private: true, body: BodyView::Json(document) }
}

/// An image.
pub open spec fn image_view(mime: Seq<char>, bytes: Seq<u8>) -> ReplyView {
    ReplyView { status: StatusCode::Success, private: true, body: BodyView::Image { mime, bytes } }
}

/// `{"error": message}`.
pub fn error_json(message: &str) -> (out: Json)
    ensures
        out@ == error_document(message@),
{
    let mut fields: Fields = Fields::new();
    fields.insert("error", Json::text(message));
    Json::Object(fields)
}

/// A refusal with its reason.
pub fn error(status: StatusCode, message: &str) -> (out: Reply)
    ensures
        out@ == error_view(status, message@),
{
    Reply { status, private: true, body: Body::Json(error_json(message)) }
}

/// A bare status.
pub fn bare(status: StatusCode) -> (out: Reply)
    ensures
        out@ == status_view(status),
{
    Reply { status, private: false, body: Body::Empty }
}

/// A document that no cache keeps.
pub fn json_response(value: Json) -> (out: Reply)
    ensures
        out@ == json_view(value@),
{
    Reply { status: StatusCode::Success, private: true, body: Body::Json(value) }
}

/// An image that no cache keeps.
pub fn image_response(mime: String, bytes: Vec<u8>) -> (out: Reply)
    ensures
        out@ == image_view(mime@, bytes@),
{
    Reply { status: StatusCode::Success, private: true, body: Body::Image { mime, bytes } }
}

/// The numbers of the statuses are those of HTTP.
pub proof fn law_status_numbers(status: StatusCode)
    ensures
        status.spec_number() == 200 <==> status is Success,
        status.spec_number() == 400 <==> status is BadRequest,
        status.spec_number() == 401 <==> status is Unauthorized,
        status.spec_number() == 404 <==> status is NotFound,
        status.spec_number() == 413 <==> status is PayloadTooLarge,
        status.spec_number() == 415 <==> status is UnsupportedMediaType,
        status.spec_number() == 500 <==> status is InternalServerError,
        status.spec_number() == 501 <==> status is NotImplemented,
        status.spec_number() == 502 <==> status is BadGateway,
        status.spec_number() == 503 <==> status is ServiceUnavailable,
{
}

/// A refusal carries its status and its reason and nothing else; a bare status
/// carries nothing; a document and an image are carried as they are, with
/// success. What is carried is kept by no cache.
pub proof fn law_answers_carry_what_they_are_given(
    status: StatusCode,
    message: Seq<char>,
    document: json::Document,
    mime: Seq<char>,
    bytes: Seq<u8>,
)
    ensures
        ({
            let refusal = error_view(status, message);
            &&& refusal.status == status
            &&& refusal.private
            &&& refusal.body matches BodyView::Json(said)
            &&& said.at("error"@) == json::Document::Text(message)
            &&& said matches json::Document::Object(fields)
            &&& forall|name: Seq<char>| #[trigger] fields.contains_key(name) <==> name == "error"@
        }),
        ({
            let bare = status_view(status);
            bare.status == status && !bare.private && bare.body is Empty
        }),
        ({
            let answer = json_view(document);
            &&& answer.status is Success
            &&& answer.private
            &&& answer.body == BodyView::Json(document)
        }),
        ({
            let image = image_view(mime, bytes);
            &&& image.status is Success
            &&& image.private
            &&& image.body == (BodyView::Image { mime, bytes })
        }),
{
}

/// What an answer says is what it holds.
pub proof fn law_answers_say_what_they_hold(answer: Reply)
    ensures
        answer@.status == answer.status,
        answer@.private == answer.private,
        answer.body is Empty <==> answer@.body is Empty,
        answer.body matches Body::Json(value) ==> answer@.body == BodyView::Json(value@),
        answer.body matches Body::Image { mime, bytes } ==> answer@.body == (BodyView::Image {
            mime: mime@,
            bytes: bytes@,
        }),
{
}

}
