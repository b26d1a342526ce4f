//! Session-scoped access to the job observer, a helper program whose durable
//! receipts own job identity and outputs. This module decides who may ask,
//! what the observer is asked, and what its answer is worth.
use vstd::prelude::*;
use vstd::string::*;

use crate::json;
use crate::json::Json;
use crate::path;
use crate::reply;
use crate::reply::{Reply, StatusCode};
use crate::text;

verus! {

/// The most bytes that a reply of the observer may have.
pub const MAX_REPLY: usize = 2 * 1024 * 1024;

/// The most bytes that the observer may say on its error stream.
pub const MAX_ERROR: usize = 8192;

/// The outputs of a job are numbered below this.
pub const MAX_OUTPUTS: u64 = 64;

/// Whether a request carries a credential of a paired device: a token that is
/// not empty, and whose hash (`known`) is among the paired ones.
pub open spec fn paired(token: Option<Seq<char>>, known: bool) -> bool {
    token matches Some(t) && t.len() > 0 && known
}

/// Who may reach a session: `resolved` is the stored key that the session id
/// stands for, `hidden` whether that session is hidden from the device.
pub open spec fn access(
    token: Option<Seq<char>>,
    known: bool,
    resolved: Option<Seq<char>>,
    hidden: bool,
) -> Result<Seq<char>, StatusCode> {
    if !paired(token, known) {
        Err(StatusCode::Unauthorized)
    } else {
        match resolved {
            Some(key) => if hidden {
                Err(StatusCode::NotFound)
            } else {
                Ok(key)
            },
            None => Err(StatusCode::NotFound),
        }
    }
}

/// What an outcome says, where success is a text.
pub open spec fn text_result<E>(outcome: Result<String, E>) -> Result<Seq<char>, E> {
    match outcome {
        Ok(s) => Ok(s@),
        Err(e) => Err(e),
    }
}

/// Who may reach a session. A device without a paired credential learns
/// nothing, not even whether the session exists; a session that is hidden from
/// the device looks as if it did not.
pub fn authorize(
    token: Option<&str>,
    known: bool,
    resolved: Option<String>,
    hidden: bool,
) -> (out: Result<String, StatusCode>)
    ensures
        text_result(out) == access(
            text::option_str_view(token),
            known,
            text::option_view(resolved),
            hidden,
        ),
{
    let has_token: bool = match token {
        Some(t) => !t.is_empty(),
        None => false,
    };
    if !has_token || !known {
        return Err(StatusCode::Unauthorized);
    }
    match resolved {
        Some(key) => if hidden {
            Err(StatusCode::NotFound)
        } else {
            Ok(key)
        },
        None => Err(StatusCode::NotFound),
    }
}

/// A character of a job id.
pub open spec fn is_id_char(c: char) -> bool {
    text::is_alphanumeric(c) || c == '-' || c == '_'
}

/// A job id: one to 128 letters, digits, `-` and `_`.
pub open spec fn is_valid_id(id: Seq<char>) -> bool {
    &&& 0 < id.len() <= 128
    &&& forall|i: int| 0 <= i < id.len() ==> is_id_char(#[trigger] id[i])
}

/// Whether a job id is well formed.
pub fn valid_id(id: &str) -> (out: bool)
    ensures
        out == is_valid_id(id@),
{
    let chars: Vec<char> = text::chars_of(id);
    if chars.len() == 0 || chars.len() > 128 {
        return false;
    }
    let mut i: usize = 0;
    while i < chars.len()
        invariant
            i <= chars@.len(),
            chars@ == id@,
            forall|j: int| 0 <= j < i ==> is_id_char(#[trigger] chars@[j]),
        decreases chars@.len() - i,
    {
        let c: char = chars[i];
        if !(text::is_letter_or_digit(c) || c == '-' || c == '_') {
            proof {
                assert(!is_id_char(id@[i as int]));
            }
            return false;
        }
        i += 1;
    }
    true
}

/// One render output the receipts can vouch for: an existing absolute file.
#[derive(Debug, PartialEq, Eq)]
pub struct Deliverable {
    pub job: String,
    pub index: u64,
    pub label: String,
    pub kind: String,
    pub path: String,
    pub source: String,
}

/// What a [`Deliverable`] says.
pub struct DeliverableView {
    pub job: Seq<char>,
    pub index: u64,
    pub label: Seq<char>,
    pub kind: Seq<char>,
    pub path: Seq<char>,
    pub source: Seq<char>,
}

impl Deliverable {
    pub open spec fn view(&self) -> DeliverableView {
        DeliverableView {
            job: self.job@,
            index: self.index,
            label: self.label@,
            kind: self.kind@,
            path: self.path@,
            source: self.source@,
        }
    }
}

impl Clone for Deliverable {
    fn clone(&self) -> (out: Self)
        ensures
            out@ == self@,
    {
        Deliverable {
            job: self.job.clone(),
            index: self.index,
            label: self.label.clone(),
            kind: self.kind.clone(),
            path: self.path.clone(),
            source: self.source.clone(),
        }
    }
}

pub open spec fn deliverable_views(list: Seq<Deliverable>) -> Seq<DeliverableView> {
    list.map_values(|d: Deliverable| d.view())
}

/// A text field of a document, or what stands for it where there is none.
pub open spec fn text_or(document: json::Document, key: Seq<char>, other: Seq<char>) -> Seq<char> {
    match document.at(key).as_text() {
        Some(s) => s,
        None => other,
    }
}

/// The deliverable that one result of the observer describes, if its path is
/// clean, its job id well formed and its index in range.
pub open spec fn deliverable_in(result: json::Document) -> Option<DeliverableView> {
    match result.at("deliver_path"@).as_text() {
        Some(path) => {
            let job = text_or(result, "job"@, Seq::empty());
            match result.at("index"@).as_u64() {
                Some(index) => if path::is_clean_absolute(path) && is_valid_id(job) && index
                    < MAX_OUTPUTS {
                    Some(
                        DeliverableView {
                            job,
                            index,
                            label: text_or(result, "label"@, Seq::empty()),
                            kind: text_or(result, "kind"@, "image"@),
                            path,
                            source: text_or(result, "deliver_source"@, Seq::empty()),
                        },
                    )
                } else {
                    None
                },
                None => None,
            }
        },
        None => None,
    }
}

/// The deliverables that results describe. The results come newest first; the
/// deliverables stand oldest first.
pub open spec fn oldest_first(results: Seq<json::Document>) -> Seq<DeliverableView>
    decreases results.len(),
{
    if results.len() == 0 {
        Seq::empty()
    } else {
        let rest = oldest_first(results.drop_first());
        match deliverable_in(results.first()) {
            Some(d) => rest.push(d),
            None => rest,
        }
    }
}

/// Whether a document speaks the observer's first version about a session.
pub open spec fn speaks_of(document: json::Document, session: Seq<char>) -> bool {
    document.at("version"@).as_i64() == Some(1i64) && document.at("session_id"@).as_text() == Some(
        session,
    )
}

/// What a reply to `where --deliverable` is worth.
pub open spec fn deliverables_spec(
    document: json::Document,
    session: Seq<char>,
) -> Result<Seq<DeliverableView>, Seq<char>> {
    if !speaks_of(document, session) {
        Err("Comfy job observer returned a different session or unsupported response"@)
    } else {
        match document.at("results"@).as_array() {
            Some(results) => Ok(oldest_first(results)),
            None => Err("Comfy job observer returned no results array"@),
        }
    }
}

/// What an outcome says.
pub open spec fn deliverables_view(
    outcome: Result<Vec<Deliverable>, String>,
) -> Result<Seq<DeliverableView>, Seq<char>> {
    match outcome {
        Ok(list) => Ok(deliverable_views(list@)),
        Err(e) => Err(e@),
    }
}

/// A text field of a value, or what stands for it where there is none.
fn text_field_or(value: &Json, key: &str, other: &str) -> (out: String)
    ensures
        out@ == text_or(value@, key@, other@),
{
    match value.text_field(key) {
        Some(s) => s.to_owned(),
        None => other.to_owned(),
    }
}

/// Whether a value speaks the observer's first version about a session.
fn value_speaks_of(value: &Json, session: &str) -> (out: bool)
    ensures
        out == speaks_of(value@, session@),
{
    let first_version: bool = match value.get("version") {
        Some(version) => match version.as_i64() {
            Some(n) => n == 1,
            None => false,
        },
        None => false,
    };
    first_version && match value.text_field("session_id") {
        Some(s) => text::same(s, session),
        None => false,
    }
}

/// The deliverable that one result describes.
fn deliverable_of(result: &Json) -> (out: Option<Deliverable>)
    ensures
        match out {
            Some(d) => deliverable_in(result@) == Some(d@),
            None => deliverable_in(result@) is None,
        },
{
    let path: &str = match result.text_field("deliver_path") {
        Some(path) => path,
        None => {
            return None;
        },
    };
    if !path::clean_absolute(path) {
        return None;
    }
    let job: String = text_field_or(result, "job", "");
    proof {
        reveal_strlit("");
        assert(""@ =~= Seq::empty());
    }
    let index: u64 = match result.get("index") {
        Some(index) => match index.as_u64() {
            Some(index) => index,
            None => {
                return None;
            },
        },
        None => {
            return None;
        },
    };
    if !valid_id(job.as_str()) || index >= MAX_OUTPUTS {
        return None;
    }
    Some(
        Deliverable {
            job,
            index,
            label: text_field_or(result, "label", ""),
            kind: text_field_or(result, "kind", "image"),
            path: path.to_owned(),
            source: text_field_or(result, "deliver_source", ""),
        },
    )
}

/// Validates a reply to `where --deliverable`: the receipts are trusted for
/// identity, but every path still has to be absolute and clean before it becomes
/// a marker.
pub fn deliverables_from(value: &Json, session: &str) -> (out: Result<Vec<Deliverable>, String>)
    ensures
        deliverables_view(out) == deliverables_spec(value@, session@),
{
    if !value_speaks_of(value, session) {
        return Err(
            "Comfy job observer returned a different session or unsupported response".to_owned(),
        );
    }
    let results: &Vec<Json> = match value.get("results") {
        Some(results) => match results.as_array() {
            Some(results) => results,
            None => {
                return Err("Comfy job observer returned no results array".to_owned());
            },
        },
        None => {
            return Err("Comfy job observer returned no results array".to_owned());
        },
    };
    let ghost all = json::documents_of(results@);
    let mut out: Vec<Deliverable> = Vec::new();
    let mut i: usize = results.len();
    proof {
        assert(all.skip(i as int) =~= Seq::empty());
        assert(deliverable_views(out@) =~= Seq::empty());
    }
    while i > 0
        invariant
            i <= results@.len(),
            all == json::documents_of(results@),
            deliverable_views(out@) == oldest_first(all.skip(i as int)),
        decreases i,
    {
        let ghost before = out@;
        i -= 1;
        proof {
            assert(all.skip(i as int).first() == results@[i as int]@);
            assert(all.skip(i as int).drop_first() =~= all.skip(i + 1));
        }
        if let Some(d) = deliverable_of(&results[i]) {
            out.push(d);
            proof {
                assert(deliverable_views(out@) =~= deliverable_views(before).push(d@));
            }
        }
    }
    proof {
        assert(all.skip(0) =~= all);
    }
    Ok(out)
}


/// Why a helper program cannot be called.
#[derive(Clone, Copy, Debug, PartialEq, Eq, Structural)]
pub enum HelperFault {
    /// The service environment names no helper.
    NotEnabled,
    /// It names one by a path that does not start at the root.
    NotAbsolute,
}

/// The path of a helper program that the service environment names.
pub open spec fn helper_spec(exe: Option<Seq<char>>) -> Result<Seq<char>, HelperFault> {
    match exe {
        None => Err(HelperFault::NotEnabled),
        Some(path) => if path::is_absolute(path) {
            Ok(path)
        } else {
            Err(HelperFault::NotAbsolute)
        },
    }
}

/// The path of a helper program that the service environment names.
pub fn helper(exe: Option<&str>) -> (out: Result<String, HelperFault>)
    ensures
        text_result(out) == helper_spec(text::option_str_view(exe)),
{
    match exe {
        None => Err(HelperFault::NotEnabled),
        Some(path) => if path::absolute(path) {
            Ok(path.to_owned())
        } else {
            Err(HelperFault::NotAbsolute)
        },
    }
}

/// What is said of an observer that cannot be called.
pub open spec fn fault_message(fault: HelperFault) -> Seq<char> {
    match fault {
        HelperFault::NotEnabled => "Comfy job tracking is not enabled on this gateway"@,
        HelperFault::NotAbsolute => "Comfy job tracking executable must be an absolute path"@,
    }
}

/// The status under which it is said.
pub open spec fn fault_status(fault: HelperFault) -> StatusCode {
    match fault {
        HelperFault::NotEnabled => StatusCode::NotImplemented,
        HelperFault::NotAbsolute => StatusCode::ServiceUnavailable,
    }
}

fn fault_text(fault: HelperFault) -> (out: &'static str)
    ensures
        out@ == fault_message(fault),
{
    match fault {
        HelperFault::NotEnabled => "Comfy job tracking is not enabled on this gateway",
        HelperFault::NotAbsolute => "Comfy job tracking executable must be an absolute path",
    }
}

/// The status under which a fault is reported.
pub fn fault_code(fault: HelperFault) -> (out: StatusCode)
    ensures
        out == fault_status(fault),
{
    match fault {
        HelperFault::NotEnabled => StatusCode::NotImplemented,
        HelperFault::NotAbsolute => StatusCode::ServiceUnavailable,
    }
}

/// One call of a helper program: a fixed executable and an argument array,
/// never a shell.
#[derive(Debug)]
pub struct HelperCall {
    pub exe: String,
    pub args: Vec<String>,
}

/// What a [`HelperCall`] says.
pub struct CallView {
    pub exe: Seq<char>,
    pub args: Seq<Seq<char>>,
}

impl HelperCall {
    pub open spec fn view(&self) -> CallView {
        CallView { exe: self.exe@, args: text::views(self.args@) }
    }
}

/// What an outcome says.
pub open spec fn call_view(outcome: Result<HelperCall, Reply>) -> Result<
    CallView,
    reply::ReplyView,
> {
    match outcome {
        Ok(call) => Ok(call@),
        Err(refusal) => Err(refusal@),
    }
}

/// The arguments of a lookup of renders that a session began at or after
/// `since`.
pub open spec fn where_args_spec(session: Seq<char>, since: nat) -> Seq<Seq<char>> {
    seq![
        "where"@,
        "--session"@,
        session,
        "--since"@,
        text::decimal(since),
        "--latest"@,
        "64"@,
        "--deliverable"@,
    ]
}

/// The arguments of a lookup of renders that a session began at or after
/// `since`.
pub fn where_args(session: &str, since: u64) -> (out: Vec<String>)
    ensures
        text::views(out@) == where_args_spec(session@, since as nat),
{
    let mut out: Vec<String> = Vec::new();
    out.push("where".to_owned());
    out.push("--session".to_owned());
    out.push(session.to_owned());
    out.push("--since".to_owned());
    out.push(text::decimal_text(since));
    out.push("--latest".to_owned());
    out.push("64".to_owned());
    out.push("--deliverable".to_owned());
    proof {
        assert(text::views(out@) =~= where_args_spec(session@, since as nat));
    }
    out
}

/// The lookup of the renders that a session began at or after `since`, or why
/// it cannot be made. [`deliverables_from`] reads its reply.
pub fn deliverables(exe: Option<&str>, session: &str, since: u64) -> (out: Result<
    HelperCall,
    String,
>)
    ensures
        match helper_spec(text::option_str_view(exe)) {
            Ok(path) => out matches Ok(call) && call@ == (CallView {
                exe: path,
                args: where_args_spec(session@, since as nat),
            }),
            Err(fault) => out matches Err(e) && e@ == fault_message(fault),
        },
{
    match helper(exe) {
        Ok(exe) => Ok(HelperCall { exe, args: where_args(session, since) }),
        Err(fault) => Err(fault_text(fault).to_owned()),
    }
}

/// The arguments of an observer command about a session, about one of its jobs,
/// or about one output of a job.
pub open spec fn job_args_spec(
    command: Seq<char>,
    session: Seq<char>,
    job: Option<Seq<char>>,
    index: Option<nat>,
) -> Seq<Seq<char>> {
    let base = seq![command, "--session"@, session];
    let with_job = match job {
        Some(id) => base + seq!["--job"@, id],
        None => base,
    };
    match index {
        Some(i) => with_job + seq!["--index"@, text::decimal(i)],
        None => with_job,
    }
}

/// The arguments of an observer command.
pub fn job_args(
    command: &str,
    session: &str,
    job: Option<&str>,
    index: Option<u64>,
) -> (out: Vec<String>)
    ensures
        text::views(out@) == job_args_spec(
            command@,
            session@,
            text::option_str_view(job),
            match index {
                Some(i) => Some(i as nat),
                None => None,
            },
        ),
{
    let mut out: Vec<String> = Vec::new();
    out.push(command.to_owned());
    out.push("--session".to_owned());
    out.push(session.to_owned());
    let ghost base = seq![command@, "--session"@, session@];
    proof {
        assert(text::views(out@) =~= base);
    }
    if let Some(id) = job {
        out.push("--job".to_owned());
        out.push(id.to_owned());
        proof {
            assert(text::views(out@) =~= base + seq!["--job"@, id@]);
        }
    }
    let ghost with_job = text::views(out@);
    if let Some(i) = index {
        out.push("--index".to_owned());
        out.push(text::decimal_text(i));
        proof {
            assert(text::views(out@) =~= with_job + seq!["--index"@, text::decimal(i as nat)]);
        }
    }
    out
}

/// A call of the observer, or the refusal where there is no observer to call.
pub open spec fn invoke_spec(
    exe: Option<Seq<char>>,
    args: Seq<Seq<char>>,
) -> Result<CallView, reply::ReplyView> {
    match helper_spec(exe) {
        Ok(path) => Ok(CallView { exe: path, args }),
        Err(fault) => Err(reply::error_view(fault_status(fault), fault_message(fault))),
    }
}

fn invoke(exe: Option<&str>, args: Vec<String>) -> (out: Result<HelperCall, Reply>)
    ensures
        call_view(out) == invoke_spec(text::option_str_view(exe), text::views(args@)),
{
    match helper(exe) {
        Ok(exe) => Ok(HelperCall { exe, args }),
        Err(fault) => Err(reply::error(fault_code(fault), fault_text(fault))),
    }
}

/// The text that bytes spell, with a replacement character where they are no
/// UTF-8 (`String::from_utf8_lossy`).
pub uninterp spec fn lossy(bytes: Seq<u8>) -> Seq<char>;

/// `String::from_utf8_lossy`: bytes that are UTF-8 are decoded as they stand.
#[verifier::external_body]
fn lossy_text(bytes: &[u8]) -> (out: String)
    ensures
        out@ == lossy(bytes@),
        vstd::utf8::valid_utf8(bytes@) ==> out@ == vstd::utf8::decode_utf8(bytes@),
{
    String::from_utf8_lossy(bytes).into_owned()
}

/// What an outcome says.
pub open spec fn json_result(outcome: Result<Json, String>) -> Result<json::Document, Seq<char>> {
    match outcome {
        Ok(value) => Ok(value@),
        Err(e) => Err(e@),
    }
}

/// What a finished helper has said, given how many bytes it wrote to its output
/// and to its error stream, the text of the latter, and the document on the
/// former.
pub open spec fn helper_reply_spec(
    size: nat,
    error_size: nat,
    reason: Seq<char>,
    success: bool,
    document: Option<json::Document>,
) -> Result<json::Document, Seq<char>> {
    if size > MAX_REPLY || error_size > MAX_ERROR {
        Err("Comfy job response exceeded its size limit"@)
    } else if !success {
        Err("Comfy job observer: "@ + text::trimmed(text::head(reason, 2000)))
    } else {
        match document {
            Some(d) => Ok(d),
            None => Err("Comfy job observer returned invalid JSON"@),
        }
    }
}

/// What a finished helper has said: the document on its output, or why there
/// is none.
pub fn helper_reply(out: &[u8], err: &[u8], success: bool) -> (reply: Result<Json, String>)
    ensures
        json_result(reply) == helper_reply_spec(
            out@.len(),
            err@.len(),
            lossy(err@),
            success,
            json::parsed_bytes(out@),
        ),
{
    if out.len() > MAX_REPLY || err.len() > MAX_ERROR {
        return Err("Comfy job response exceeded its size limit".to_owned());
    }
    if !success {
        return Err(failure_text(lossy_text(err).as_str()));
    }
    match Json::parse_bytes(out) {
        Some(value) => Ok(value),
        None => Err("Comfy job observer returned invalid JSON".to_owned()),
    }
}

/// How a run of a helper ended.
#[derive(Debug)]
pub enum HelperEnd {
    /// It could not be started, and why.
    NotStarted(String),
    /// It has no output to read.
    NoOutput,
    /// It has no error stream to read.
    NoErrorStream,
    /// It took too long.
    TimedOut,
    /// It could not be listened to, and why.
    Unreadable(String),
    /// It finished: its output, its error stream, and whether it succeeded.
    Finished { out: Vec<u8>, err: Vec<u8>, success: bool },
}

/// What a run of a helper came to.
pub open spec fn run_spec(end: HelperEnd) -> Result<json::Document, Seq<char>> {
    match end {
        HelperEnd::NotStarted(e) => Err("Comfy job observer could not start: "@ + e@),
        HelperEnd::NoOutput => Err("Comfy job observer has no stdout"@),
        HelperEnd::NoErrorStream => Err("Comfy job observer has no stderr"@),
        HelperEnd::TimedOut => Err(
            "Comfy job observer timed out; refresh to check the outcome"@,
        ),
        HelperEnd::Unreadable(e) => Err("Comfy job observer I/O failed: "@ + e@),
        HelperEnd::Finished { out, err, success } => helper_reply_spec(
            out@.len(),
            err@.len(),
            lossy(err@),
            success,
            json::parsed_bytes(out@),
        ),
    }
}

/// What a run of a helper came to: the document that it said, or why there is
/// none.
pub fn run_reply(end: &HelperEnd) -> (out: Result<Json, String>)
    ensures
        json_result(out) == run_spec(*end),
{
    match end {
        HelperEnd::NotStarted(e) => Err(
            text::concat2("Comfy job observer could not start: ", e.as_str()),
        ),
        HelperEnd::NoOutput => Err("Comfy job observer has no stdout".to_owned()),
        HelperEnd::NoErrorStream => Err("Comfy job observer has no stderr".to_owned()),
        HelperEnd::TimedOut => Err(
            "Comfy job observer timed out; refresh to check the outcome".to_owned(),
        ),
        HelperEnd::Unreadable(e) => Err(
            text::concat2("Comfy job observer I/O failed: ", e.as_str()),
        ),
        HelperEnd::Finished { out, err, success } => helper_reply(
            out.as_slice(),
            err.as_slice(),
            *success,
        ),
    }
}

/// What is said of a helper that failed with `reason` on its error stream.
pub fn failure_text(reason: &str) -> (out: String)
    ensures
        out@ == "Comfy job observer: "@ + text::trimmed(text::head(reason@, 2000)),
{
    text::concat2(
        "Comfy job observer: ",
        text::trim(text::head_text(reason, 2000).as_str()).as_str(),
    )
}

/// What is said of a stream of `size` bytes under a limit: nothing where it
/// keeps to it.
pub fn check_size(size: usize, limit: usize) -> (out: Result<(), String>)
    ensures
        match out {
            Ok(()) => size <= limit,
            Err(e) => size > limit && e@ == "Comfy job response exceeded its size limit"@,
        },
{
    if size > limit {
        Err("Comfy job response exceeded its size limit".to_owned())
    } else {
        Ok(())
    }
}

/// The call with which the jobs of a session are listed.
pub open spec fn list_call(
    access: Result<Seq<char>, StatusCode>,
    exe: Option<Seq<char>>,
) -> Result<CallView, reply::ReplyView> {
    match access {
        Err(status) => Err(reply::status_view(status)),
        Ok(key) => invoke_spec(exe, job_args_spec("jobs"@, key, None, None)),
    }
}

/// Lists the jobs of a session, first half: the call to make.
pub fn list(access: Result<String, StatusCode>, exe: Option<&str>) -> (out: Result<
    HelperCall,
    Reply,
>)
    ensures
        call_view(out) == list_call(text_result(access), text::option_str_view(exe)),
{
    match access {
        Err(status) => Err(reply::bare(status)),
        Ok(key) => invoke(exe, job_args("jobs", key.as_str(), None, None)),
    }
}

/// The answer that lists the jobs of a session.
pub open spec fn list_answer(
    key: Seq<char>,
    said: Result<json::Document, Seq<char>>,
) -> reply::ReplyView {
    match said {
        Ok(document) => if speaks_of(document, key) && document.at("jobs"@) is Array {
            reply::json_view(document)
        } else {
            reply::error_view(
                StatusCode::BadGateway,
                "Comfy job observer returned a different session or unsupported response"@,
            )
        },
        Err(message) => reply::error_view(StatusCode::BadGateway, message),
    }
}

/// Lists the jobs of a session, second half: the answer, given what the
/// observer said.
pub fn list_reply(key: &str, said: Result<Json, String>) -> (out: Reply)
    ensures
        out@ == list_answer(key@, json_result(said)),
{
    match said {
        Ok(value) => {
            let has_jobs: bool = match value.get("jobs") {
                Some(jobs) => jobs.as_array().is_some(),
                None => false,
            };
            if value_speaks_of(&value, key) && has_jobs {
                reply::json_response(value)
            } else {
                reply::error(
                    StatusCode::BadGateway,
                    "Comfy job observer returned a different session or unsupported response",
                )
            }
        },
        Err(message) => reply::error(StatusCode::BadGateway, message.as_str()),
    }
}

/// The call with which a job is cancelled.
pub open spec fn cancel_call(
    access: Result<Seq<char>, StatusCode>,
    id: Seq<char>,
    exe: Option<Seq<char>>,
) -> Result<CallView, reply::ReplyView> {
    match access {
        Err(status) => Err(reply::status_view(status)),
        Ok(key) => if !is_valid_id(id) {
            Err(reply::status_view(StatusCode::BadRequest))
        } else {
            invoke_spec(exe, job_args_spec("job-cancel"@, key, Some(id), None))
        },
    }
}

/// Cancels a job, first half: the call to make.
pub fn cancel(access: Result<String, StatusCode>, id: &str, exe: Option<&str>) -> (out: Result<
    HelperCall,
    Reply,
>)
    ensures
        call_view(out) == cancel_call(text_result(access), id@, text::option_str_view(exe)),
{
    match access {
        Err(status) => Err(reply::bare(status)),
        Ok(key) => if !valid_id(id) {
            Err(reply::bare(StatusCode::BadRequest))
        } else {
            invoke(exe, job_args("job-cancel", key.as_str(), Some(id), None))
        },
    }
}

/// The answer that passes on what a helper said.
pub open spec fn passed_on(said: Result<json::Document, Seq<char>>) -> reply::ReplyView {
    match said {
        Ok(document) => reply::json_view(document),
        Err(message) => reply::error_view(StatusCode::BadGateway, message),
    }
}

/// Passes on what a helper said: the second half of cancelling a job.
pub fn pass_on(said: Result<Json, String>) -> (out: Reply)
    ensures
        out@ == passed_on(json_result(said)),
{
    match said {
        Ok(value) => reply::json_response(value),
        Err(message) => reply::error(StatusCode::BadGateway, message.as_str()),
    }
}

/// The call with which an output of a job is found.
pub open spec fn output_call(
    access: Result<Seq<char>, StatusCode>,
    id: Seq<char>,
    index: nat,
    exe: Option<Seq<char>>,
) -> Result<CallView, reply::ReplyView> {
    match access {
        Err(status) => Err(reply::status_view(status)),
        Ok(key) => if !is_valid_id(id) || index >= MAX_OUTPUTS {
            Err(reply::status_view(StatusCode::BadRequest))
        } else {
            invoke_spec(exe, job_args_spec("job-output"@, key, Some(id), Some(index)))
        },
    }
}

/// Serves an output of a job, first part: the call to make.
pub fn output(
    access: Result<String, StatusCode>,
    id: &str,
    index: u64,
    exe: Option<&str>,
) -> (out: Result<HelperCall, Reply>)
    ensures
        call_view(out) == output_call(
            text_result(access),
            id@,
            index as nat,
            text::option_str_view(exe),
        ),
{
    match access {
        Err(status) => Err(reply::bare(status)),
        Ok(key) => if !valid_id(id) || index >= MAX_OUTPUTS {
            Err(reply::bare(StatusCode::BadRequest))
        } else {
            invoke(exe, job_args("job-output", key.as_str(), Some(id), Some(index)))
        },
    }
}

/// The file that holds an output, given what the observer said.
pub open spec fn output_file(said: Result<json::Document, Seq<char>>) -> Result<
    Seq<char>,
    reply::ReplyView,
> {
    match said {
        Ok(document) => match document.at("path"@).as_text() {
            Some(path) => Ok(path),
            None => Err(
                reply::error_view(StatusCode::BadGateway, "Job output path is missing"@),
            ),
        },
        Err(message) => Err(reply::error_view(StatusCode::BadGateway, message)),
    }
}

/// Serves an output of a job, second part: the file to read.
pub fn output_path(said: Result<Json, String>) -> (out: Result<String, Reply>)
    ensures
        match out {
            Ok(path) => output_file(json_result(said)) == Ok::<Seq<char>, reply::ReplyView>(path@),
            Err(refusal) => output_file(json_result(said)) == Err::<Seq<char>, reply::ReplyView>(
                refusal@,
            ),
        },
{
    match said {
        Ok(value) => match value.text_field("path") {
            Some(path) => Ok(path.to_owned()),
            None => Err(reply::error(StatusCode::BadGateway, "Job output path is missing")),
        },
        Err(message) => Err(reply::error(StatusCode::BadGateway, message.as_str())),
    }
}

/// An image file that was read, or the status under which it was refused.
pub open spec fn image_result(read: Result<(String, Vec<u8>), StatusCode>) -> Result<
    (Seq<char>, Seq<u8>),
    StatusCode,
> {
    match read {
        Ok(image) => Ok((image.0@, image.1@)),
        Err(status) => Err(status),
    }
}

/// Serves an output of a job, last part: the answer, given what reading the file
/// came to. Where the reading itself broke off there is nothing.
pub fn output_reply(read: Option<Result<(String, Vec<u8>), StatusCode>>) -> (out: Reply)
    ensures
        out@ == (match read {
            Some(read) => match image_result(read) {
                Ok(image) => reply::image_view(image.0, image.1),
                Err(status) => reply::error_view(status, "Saved job image is unavailable"@),
            },
            None => reply::error_view(
                StatusCode::InternalServerError,
                "Job image could not be read"@,
            ),
        }),
{
    match read {
        Some(Ok((mime, bytes))) => reply::image_response(mime, bytes),
        Some(Err(status)) => reply::error(status, "Saved job image is unavailable"),
        None => reply::error(StatusCode::InternalServerError, "Job image could not be read"),
    }
}

/// The observer is called only for a paired device and a session that it may
/// see; what is called is the configured program, under an absolute path; and
/// the session's stored key, the job's id and the output's number stand in the
/// arguments as they are.
pub proof fn law_every_call_is_authorized(
    token: Option<Seq<char>>,
    known: bool,
    resolved: Option<Seq<char>>,
    hidden: bool,
    id: Seq<char>,
    index: nat,
    exe: Option<Seq<char>>,
)
    ensures
        ({
            let allowed = access(token, known, resolved, hidden);
            let lists = list_call(allowed, exe);
            let cancels = cancel_call(allowed, id, exe);
            let outputs = output_call(allowed, id, index, exe);
            &&& lists is Ok || cancels is Ok || outputs is Ok ==> {
                &&& paired(token, known)
                &&& resolved is Some && !hidden
                &&& exe is Some && path::is_absolute(exe->Some_0)
            }
            &&& lists matches Ok(call) ==> {
                &&& Some(call.exe) == exe
                &&& call.args == seq!["jobs"@, "--session"@, resolved->Some_0]
            }
            &&& cancels matches Ok(call) ==> {
                &&& Some(call.exe) == exe
                &&& is_valid_id(id)
                &&& call.args == seq!["job-cancel"@, "--session"@, resolved->Some_0, "--job"@, id]
            }
            &&& outputs matches Ok(call) ==> {
                &&& Some(call.exe) == exe
                &&& is_valid_id(id)
                &&& index < MAX_OUTPUTS
                &&& call.args == seq![
                    "job-output"@,
                    "--session"@,
                    resolved->Some_0,
                    "--job"@,
                    id,
                    "--index"@,
                    text::decimal(index),
                ]
            }
        }),
{
    if let Some(key) = resolved {
        assert(seq!["job-cancel"@, "--session"@, key] + seq!["--job"@, id] =~= seq![
            "job-cancel"@,
            "--session"@,
            key,
            "--job"@,
            id,
        ]);
        assert(seq!["job-output"@, "--session"@, key] + seq!["--job"@, id] + seq![
            "--index"@,
            text::decimal(index),
        ] =~= seq![
            "job-output"@,
            "--session"@,
            key,
            "--job"@,
            id,
            "--index"@,
            text::decimal(index),
        ]);
    }
}

/// A device that is not paired learns nothing but that; a session that is not
/// there and one that is hidden from the device are answered alike.
pub proof fn law_refusals_tell_nothing(
    token: Option<Seq<char>>,
    known: bool,
    resolved: Option<Seq<char>>,
    hidden: bool,
    key: Seq<char>,
)
    ensures
        !paired(token, known) ==> access(token, known, resolved, hidden) == Err::<
            Seq<char>,
            StatusCode,
        >(StatusCode::Unauthorized),
        access(token, known, None, hidden) == access(token, known, Some(key), true),
{
}

/// Whatever the observer says, a deliverable has a clean absolute path, a well
/// formed job id and a number in range; and an answer about another session
/// yields none.
pub proof fn law_deliverables_are_clean(document: json::Document, session: Seq<char>, i: int)
    requires
        deliverables_spec(document, session) is Ok,
        0 <= i < deliverables_spec(document, session)->Ok_0.len(),
    ensures
        speaks_of(document, session),
        ({
            let d = deliverables_spec(document, session)->Ok_0[i];
            &&& path::is_clean_absolute(d.path)
            &&& is_valid_id(d.job)
            &&& d.index < MAX_OUTPUTS
        }),
{
    lemma_oldest_first_clean(document.at("results"@)->Array_0, i);
}

proof fn lemma_oldest_first_clean(results: Seq<json::Document>, i: int)
    requires
        0 <= i < oldest_first(results).len(),
    ensures
        ({
            let d = oldest_first(results)[i];
            &&& path::is_clean_absolute(d.path)
            &&& is_valid_id(d.job)
            &&& d.index < MAX_OUTPUTS
        }),
    decreases results.len(),
{
    if results.len() > 0 {
        let rest = oldest_first(results.drop_first());
        if i < rest.len() {
            lemma_oldest_first_clean(results.drop_first(), i);
        }
    }
}

/// The deliverables stand in the order opposite to that of the results.
pub proof fn law_deliverables_stand_oldest_first(
    newer: Seq<json::Document>,
    older: Seq<json::Document>,
)
    ensures
        oldest_first(newer + older) == oldest_first(older) + oldest_first(newer),
    decreases newer.len(),
{
    if newer.len() == 0 {
        assert(newer + older =~= older);
        assert(oldest_first(older) + oldest_first(newer) =~= oldest_first(older));
    } else {
        law_deliverables_stand_oldest_first(newer.drop_first(), older);
        assert((newer + older).drop_first() =~= newer.drop_first() + older);
        assert((newer + older).first() == newer.first());
        if let Some(d) = deliverable_in(newer.first()) {
            assert((oldest_first(older) + oldest_first(newer.drop_first())).push(d)
                =~= oldest_first(older) + oldest_first(newer.drop_first()).push(d));
        }
    }
}

/// Who is let in: a device that gives a token that is not empty and whose hash is
/// known, to a session that is stored and not hidden from it, under the stored
/// key. Without such a token it is unauthorized; otherwise the session is not
/// found.
pub proof fn law_who_is_let_in(
    token: Option<Seq<char>>,
    known: bool,
    resolved: Option<Seq<char>>,
    hidden: bool,
    key: Seq<char>,
)
    ensures
        paired(token, known) <==> token is Some && token->Some_0.len() > 0 && known,
        access(token, known, resolved, hidden) == Ok::<Seq<char>, StatusCode>(key) <==> token is Some
            && token->Some_0.len() > 0 && known && resolved == Some(key) && !hidden,
        access(token, known, resolved, hidden) == Err::<Seq<char>, StatusCode>(
            StatusCode::Unauthorized,
        ) <==> token is None || token->Some_0.len() == 0 || !known,
        access(token, known, resolved, hidden) is Err ==> access(
            token,
            known,
            resolved,
            hidden,
        )->Err_0 is Unauthorized || access(token, known, resolved, hidden)->Err_0 is NotFound,
{
}

/// A job id is made of one to 128 ASCII letters, digits, hyphens and underscores.
pub proof fn law_job_ids(id: Seq<char>)
    ensures
        is_valid_id(id) <==> 1 <= id.len() <= 128 && forall|i: int|
            0 <= i < id.len() ==> {
                ||| 48 <= (#[trigger] id[i]) as int <= 57
                ||| 65 <= id[i] as int <= 90
                ||| 97 <= id[i] as int <= 122
                ||| id[i] == '-'
                ||| id[i] == '_'
            },
{
    if is_valid_id(id) {
        assert forall|i: int| 0 <= i < id.len() implies {
            ||| 48 <= (#[trigger] id[i]) as int <= 57
            ||| 65 <= id[i] as int <= 90
            ||| 97 <= id[i] as int <= 122
            ||| id[i] == '-'
            ||| id[i] == '_'
        } by {
            assert(is_id_char(id[i]));
        }
    }
}

/// The deliverables of an answer are all its results with a clean absolute path,
/// a well formed job id and an index below 64, and no other, the last result
/// first; each carries the path, the job and the index of its result, and its
/// label, kind and source where it tells them.
pub proof fn law_every_clean_result_is_delivered(
    document: json::Document,
    session: Seq<char>,
    results: Seq<json::Document>,
)
    requires
        document.at("version"@).as_i64() == Some(1i64),
        document.at("session_id"@) == json::Document::Text(session),
        document.at("results"@) == json::Document::Array(results),
    ensures
        deliverables_spec(document, session) == Ok::<Seq<DeliverableView>, Seq<char>>(
            results.reverse().filter(
                |r: json::Document|
                    {
                        &&& r.at("deliver_path"@) is Text
                        &&& path::is_clean_absolute(r.at("deliver_path"@)->Text_0)
                        &&& r.at("job"@) is Text
                        &&& is_valid_id(r.at("job"@)->Text_0)
                        &&& r.at("index"@).as_u64() is Some
                        &&& r.at("index"@).as_u64()->Some_0 < 64
                    },
            ).map_values(
                |r: json::Document|
                    DeliverableView {
                        job: r.at("job"@)->Text_0,
                        index: r.at("index"@).as_u64()->Some_0,
                        label: match r.at("label"@) {
                            json::Document::Text(s) => s,
                            _ => Seq::empty(),
                        },
                        kind: match r.at("kind"@) {
                            json::Document::Text(s) => s,
                            _ => "image"@,
                        },
                        path: r.at("deliver_path"@)->Text_0,
                        source: match r.at("deliver_source"@) {
                            json::Document::Text(s) => s,
                            _ => Seq::empty(),
                        },
                    },
            ),
        ),
{
    let keep = |r: json::Document|
        {
            &&& r.at("deliver_path"@) is Text
            &&& path::is_clean_absolute(r.at("deliver_path"@)->Text_0)
            &&& r.at("job"@) is Text
            &&& is_valid_id(r.at("job"@)->Text_0)
            &&& r.at("index"@).as_u64() is Some
            &&& r.at("index"@).as_u64()->Some_0 < 64
        };
    let show = |r: json::Document|
        DeliverableView {
            job: r.at("job"@)->Text_0,
            index: r.at("index"@).as_u64()->Some_0,
            label: match r.at("label"@) {
                json::Document::Text(s) => s,
                _ => Seq::empty(),
            },
            kind: match r.at("kind"@) {
                json::Document::Text(s) => s,
                _ => "image"@,
            },
            path: r.at("deliver_path"@)->Text_0,
            source: match r.at("deliver_source"@) {
                json::Document::Text(s) => s,
                _ => Seq::empty(),
            },
        };
    assert forall|r: json::Document| #[trigger] deliverable_in(r) == (if keep(r) {
        Some(show(r))
    } else {
        None
    }) by {}
    lemma_oldest_first_is_filtered(results, keep, show);
}

proof fn lemma_oldest_first_is_filtered(
    results: Seq<json::Document>,
    keep: spec_fn(json::Document) -> bool,
    show: spec_fn(json::Document) -> DeliverableView,
)
    requires
        forall|r: json::Document| #[trigger] deliverable_in(r) == (if keep(r) {
            Some(show(r))
        } else {
            None
        }),
    ensures
        oldest_first(results) == results.reverse().filter(keep).map_values(show),
    decreases results.len(),
{
    reveal(Seq::filter);
    if results.len() == 0 {
        assert(results.reverse().filter(keep).map_values(show) =~= Seq::<DeliverableView>::empty());
    } else {
        let rest = results.drop_first();
        lemma_oldest_first_is_filtered(rest, keep, show);
        let turned = results.reverse();
        assert(turned.drop_last() =~= rest.reverse());
        assert(turned.last() == results.first());
        assert(deliverable_in(results.first()) == (if keep(results.first()) {
            Some(show(results.first()))
        } else {
            None
        }));
        let kept = rest.reverse().filter(keep);
        assert(kept.push(results.first()).map_values(show) =~= kept.map_values(show).push(
            show(results.first()),
        ));
    }
}

/// An answer of another version, about another session or without results is
/// refused in words.
pub proof fn law_other_answers_deliver_nothing(document: json::Document, session: Seq<char>)
    ensures
        document.at("version"@).as_i64() != Some(1i64) || document.at("session_id"@)
            != json::Document::Text(session) ==> deliverables_spec(document, session) == Err::<
            Seq<DeliverableView>,
            Seq<char>,
        >("Comfy job observer returned a different session or unsupported response"@),
        document.at("version"@).as_i64() == Some(1i64) && document.at("session_id"@)
            == json::Document::Text(session) && !(document.at("results"@) is Array)
            ==> deliverables_spec(document, session) == Err::<Seq<DeliverableView>, Seq<char>>(
            "Comfy job observer returned no results array"@,
        ),
        speaks_of(document, session) <==> document.at("version"@).as_i64() == Some(1i64)
            && document.at("session_id"@) == json::Document::Text(session),
{
}

/// A lookup asks the observer where the renders are that a session began at or
/// after a moment, the latest 64, in the form that can be delivered.
pub proof fn law_what_a_lookup_asks(session: Seq<char>, since: nat)
    ensures
        ({
            let args = where_args_spec(session, since);
            &&& args.len() == 8
            &&& args[0] == "where"@
            &&& args[1] == "--session"@ && args[2] == session
            &&& args[3] == "--since"@ && text::number_in(args[4]) == since
            &&& args[5] == "--latest"@ && args[6] == "64"@
            &&& args[7] == "--deliverable"@
        }),
{
    text::law_decimal(since);
}

/// A helper is called by the path that is configured, where it starts at the
/// root; otherwise the call is refused, and why is said.
pub proof fn law_which_helper_is_called(exe: Option<Seq<char>>, args: Seq<Seq<char>>)
    ensures
        exe is None ==> helper_spec(exe) == Err::<Seq<char>, HelperFault>(HelperFault::NotEnabled),
        exe matches Some(path) ==> helper_spec(exe) == (if path.len() > 0 && path[0] == '/' {
            Ok::<Seq<char>, HelperFault>(path)
        } else {
            Err(HelperFault::NotAbsolute)
        }),
        helper_spec(exe) matches Ok(path) ==> invoke_spec(exe, args) == Ok::<
            CallView,
            reply::ReplyView,
        >(CallView { exe: path, args }),
        exe is None ==> invoke_spec(exe, args) == Err::<CallView, reply::ReplyView>(
            reply::error_view(
                StatusCode::NotImplemented,
                "Comfy job tracking is not enabled on this gateway"@,
            ),
        ),
        exe is Some && helper_spec(exe) is Err ==> invoke_spec(exe, args) == Err::<
            CallView,
            reply::ReplyView,
        >(
            reply::error_view(
                StatusCode::ServiceUnavailable,
                "Comfy job tracking executable must be an absolute path"@,
            ),
        ),
{
}

/// A rightful request is never refused: with a key that was granted and a helper
/// under an absolute path the call is made, for a job whose id is well formed and
/// an output below 64; a request with another id or index is a bad one; and a
/// status under which access was refused is answered as it is.
pub proof fn law_a_rightful_call_is_made(
    key: Seq<char>,
    status: StatusCode,
    id: Seq<char>,
    index: nat,
    exe: Seq<char>,
    any: Option<Seq<char>>,
)
    requires
        exe.len() > 0 && exe[0] == '/',
    ensures
        list_call(Ok(key), Some(exe)) == Ok::<CallView, reply::ReplyView>(
            CallView { exe, args: seq!["jobs"@, "--session"@, key] },
        ),
        is_valid_id(id) ==> cancel_call(Ok(key), id, Some(exe)) == Ok::<CallView, reply::ReplyView>(
            CallView { exe, args: seq!["job-cancel"@, "--session"@, key, "--job"@, id] },
        ),
        is_valid_id(id) && index < 64 ==> output_call(Ok(key), id, index, Some(exe)) == Ok::<
            CallView,
            reply::ReplyView,
        >(
            CallView {
                exe,
                args: seq![
                    "job-output"@,
                    "--session"@,
                    key,
                    "--job"@,
                    id,
                    "--index"@,
                    text::decimal(index),
                ],
            },
        ),
        !is_valid_id(id) ==> cancel_call(Ok(key), id, any) == Err::<CallView, reply::ReplyView>(
            reply::status_view(StatusCode::BadRequest),
        ),
        !is_valid_id(id) || index >= 64 ==> output_call(Ok(key), id, index, any) == Err::<
            CallView,
            reply::ReplyView,
        >(reply::status_view(StatusCode::BadRequest)),
        list_call(Err(status), any) == Err::<CallView, reply::ReplyView>(
            reply::status_view(status),
        ),
        cancel_call(Err(status), id, any) == Err::<CallView, reply::ReplyView>(
            reply::status_view(status),
        ),
        output_call(Err(status), id, index, any) == Err::<CallView, reply::ReplyView>(
            reply::status_view(status),
        ),
{
    let base = seq!["jobs"@, "--session"@, key];
    assert(job_args_spec("jobs"@, key, None, None) =~= base);
    assert(job_args_spec("job-cancel"@, key, Some(id), None) =~= seq![
        "job-cancel"@,
        "--session"@,
        key,
        "--job"@,
        id,
    ]);
    assert(job_args_spec("job-output"@, key, Some(id), Some(index)) =~= seq![
        "job-output"@,
        "--session"@,
        key,
        "--job"@,
        id,
        "--index"@,
        text::decimal(index),
    ]);
}

/// What a helper's run is worth: its document, where it succeeded, kept to two
/// megabytes of output and eight kilobytes of errors, and spelled one; otherwise
/// why there is none.
pub proof fn law_what_a_helper_said(
    size: nat,
    error_size: nat,
    reason: Seq<char>,
    success: bool,
    document: Option<json::Document>,
    end: HelperEnd,
)
    ensures
        ({
            let said = helper_reply_spec(size, error_size, reason, success, document);
            let fits = size <= 2_097_152 && error_size <= 8192;
            &&& !fits ==> said == Err::<json::Document, Seq<char>>(
                "Comfy job response exceeded its size limit"@,
            )
            &&& fits && !success && reason.len() <= 2000 ==> said == Err::<
                json::Document,
                Seq<char>,
            >("Comfy job observer: "@ + text::trimmed(reason))
            &&& fits && !success && reason.len() > 2000 ==> said == Err::<
                json::Document,
                Seq<char>,
            >("Comfy job observer: "@ + text::trimmed(reason.take(2000)))
            &&& fits && success && document is Some ==> said == Ok::<json::Document, Seq<char>>(
                document->Some_0,
            )
            &&& fits && success && document is None ==> said == Err::<json::Document, Seq<char>>(
                "Comfy job observer returned invalid JSON"@,
            )
        }),
        end matches HelperEnd::NotStarted(e) ==> run_spec(end) == Err::<json::Document, Seq<char>>(
            "Comfy job observer could not start: "@ + e@,
        ),
        end is NoOutput ==> run_spec(end) == Err::<json::Document, Seq<char>>(
            "Comfy job observer has no stdout"@,
        ),
        end is NoErrorStream ==> run_spec(end) == Err::<json::Document, Seq<char>>(
            "Comfy job observer has no stderr"@,
        ),
        end is TimedOut ==> run_spec(end) == Err::<json::Document, Seq<char>>(
            "Comfy job observer timed out; refresh to check the outcome"@,
        ),
        end matches HelperEnd::Unreadable(e) ==> run_spec(end) == Err::<json::Document, Seq<char>>(
            "Comfy job observer I/O failed: "@ + e@,
        ),
        end matches HelperEnd::Finished { out, err, success: done } ==> run_spec(end)
            == helper_reply_spec(
            out@.len(),
            err@.len(),
            lossy(err@),
            done,
            json::parsed_bytes(out@),
        ),
{
}

/// What the observer says is answered as it is, where it speaks of the session
/// and of jobs; anything else, and any failure, is a bad gateway with its reason.
pub proof fn law_what_is_answered(
    key: Seq<char>,
    document: json::Document,
    message: Seq<char>,
    path: Seq<char>,
)
    ensures
        document.at("version"@).as_i64() == Some(1i64) && document.at("session_id"@)
            == json::Document::Text(key) && document.at("jobs"@) is Array ==> list_answer(
            key,
            Ok(document),
        ) == reply::json_view(document),
        !(document.at("version"@).as_i64() == Some(1i64) && document.at("session_id"@)
            == json::Document::Text(key) && document.at("jobs"@) is Array) ==> list_answer(
            key,
            Ok(document),
        ) == reply::error_view(
            StatusCode::BadGateway,
            "Comfy job observer returned a different session or unsupported response"@,
        ),
        list_answer(key, Err(message)) == reply::error_view(StatusCode::BadGateway, message),
        passed_on(Ok(document)) == reply::json_view(document),
        passed_on(Err(message)) == reply::error_view(StatusCode::BadGateway, message),
        document.at("path"@) == json::Document::Text(path) ==> output_file(Ok(document)) == Ok::<
            Seq<char>,
            reply::ReplyView,
        >(path),
        !(document.at("path"@) is Text) ==> output_file(Ok(document)) == Err::<
            Seq<char>,
            reply::ReplyView,
        >(reply::error_view(StatusCode::BadGateway, "Job output path is missing"@)),
        output_file(Err(message)) == Err::<Seq<char>, reply::ReplyView>(
            reply::error_view(StatusCode::BadGateway, message),
        ),
{
}

/// What deliverables and calls say is what they hold, in order.
pub proof fn law_deliverables_say_what_they_hold(
    deliverable: Deliverable,
    list: Seq<Deliverable>,
    call: HelperCall,
    i: int,
)
    requires
        0 <= i < list.len(),
    ensures
        deliverable@.job == deliverable.job@,
        deliverable@.index == deliverable.index,
        deliverable@.label == deliverable.label@,
        deliverable@.kind == deliverable.kind@,
        deliverable@.path == deliverable.path@,
        deliverable@.source == deliverable.source@,
        deliverable_views(list).len() == list.len(),
        deliverable_views(list)[i] == list[i]@,
        call@.exe == call.exe@,
        call@.args == text::views(call.args@),
{
}

/// What outcomes say is what they hold: the good one, or what went wrong.
pub proof fn law_outcomes_say_what_they_hold(
    named: Result<String, StatusCode>,
    called: Result<HelperCall, Reply>,
    delivered: Result<Vec<Deliverable>, String>,
    said: Result<Json, String>,
    read: Result<(String, Vec<u8>), StatusCode>,
)
    ensures
        named matches Ok(s) ==> text_result(named) == Ok::<Seq<char>, StatusCode>(s@),
        named matches Err(e) ==> text_result(named) == Err::<Seq<char>, StatusCode>(e),
        called matches Ok(call) ==> call_view(called) == Ok::<CallView, reply::ReplyView>(call@),
        called matches Err(refusal) ==> call_view(called) == Err::<CallView, reply::ReplyView>(
            refusal@,
        ),
        delivered matches Ok(list) ==> (deliverables_view(delivered) matches Ok(told) && told.len()
            == list@.len() && forall|i: int|
            0 <= i < list@.len() ==> #[trigger] told[i] == list@[i]@),
        delivered matches Err(e) ==> deliverables_view(delivered) == Err::<
            Seq<DeliverableView>,
            Seq<char>,
        >(e@),
        said matches Ok(value) ==> json_result(said) == Ok::<json::Document, Seq<char>>(value@),
        said matches Err(e) ==> json_result(said) == Err::<json::Document, Seq<char>>(e@),
        read matches Ok(image) ==> image_result(read) == Ok::<(Seq<char>, Seq<u8>), StatusCode>(
            (image.0@, image.1@),
        ),
        read matches Err(e) ==> image_result(read) == Err::<(Seq<char>, Seq<u8>), StatusCode>(e),
{
}

}
