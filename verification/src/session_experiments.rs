//! Session-scoped access to render A/B experiments, for a rating card.
//!
//! The helper owns what an experiment means: which candidate is the baseline,
//! what a pick implies, when the feedback ledger learns about it. The gateway
//! owns paired-device authorization and nothing else, as it does for the job
//! observer. The session in a request carries authorization, not filtering:
//! every paired session sees the same experiments.
use vstd::prelude::*;

use crate::json;
use crate::json::Json;
use crate::reply;
use crate::reply::{Reply, StatusCode};
use crate::session_jobs;
use crate::session_jobs::{HelperCall, HelperFault};
use crate::text;

verus! {

/// A character of an experiment's name.
pub open spec fn is_name_char(c: char) -> bool {
    text::is_alphanumeric(c) || c == '-' || c == '_' || c == '.'
}

/// An experiment's name: a directory name of one to 128 letters, digits, `-`,
/// `_` and dots that does not begin with a dot.
pub open spec fn is_valid_name(name: Seq<char>) -> bool {
    &&& 0 < name.len() <= 128
    &&& name[0] != '.'
    &&& forall|i: int| 0 <= i < name.len() ==> is_name_char(#[trigger] name[i])
}

/// Whether a name is that of an experiment: a directory name, never a traversal
/// and never a separator, so that a crafted name does not reach the helper.
pub fn valid_name(name: &str) -> (out: bool)
    ensures
        out == is_valid_name(name@),
{
    let chars: Vec<char> = text::chars_of(name);
    if chars.len() == 0 || chars.len() > 128 || chars[0] == '.' {
        return false;
    }
    let mut i: usize = 0;
    while i < chars.len()
        invariant
            i <= chars@.len(),
            chars@ == name@,
            forall|j: int| 0 <= j < i ==> is_name_char(#[trigger] chars@[j]),
        decreases chars@.len() - i,
    {
        let c: char = chars[i];
        if !(text::is_letter_or_digit(c) || c == '-' || c == '_' || c == '.') {
            proof {
                assert(!is_name_char(name@[i as int]));
            }
            return false;
        }
        i += 1;
    }
    true
}

/// What is said of a helper that cannot be called.
pub open spec fn fault_message(fault: HelperFault) -> Seq<char> {
    match fault {
        HelperFault::NotEnabled => "Render experiments are not enabled on this gateway"@,
        HelperFault::NotAbsolute => "Render experiment helper must be an absolute path"@,
    }
}

/// A call of the helper, or the refusal where there is no helper to call.
pub open spec fn invoke_spec(
    exe: Option<Seq<char>>,
    args: Seq<Seq<char>>,
) -> Result<session_jobs::CallView, reply::ReplyView> {
    match session_jobs::helper_spec(exe) {
        Ok(path) => Ok(session_jobs::CallView { exe: path, args }),
        Err(fault) => Err(
            reply::error_view(session_jobs::fault_status(fault), fault_message(fault)),
        ),
    }
}

fn invoke(exe: Option<&str>, args: Vec<String>) -> (out: Result<HelperCall, Reply>)
    ensures
        session_jobs::call_view(out) == invoke_spec(
            text::option_str_view(exe),
            text::views(args@),
        ),
{
    match session_jobs::helper(exe) {
        Ok(exe) => Ok(HelperCall { exe, args }),
        Err(fault) => {
            let message: &str = match fault {
                HelperFault::NotEnabled => "Render experiments are not enabled on this gateway",
                HelperFault::NotAbsolute => "Render experiment helper must be an absolute path",
            };
            Err(reply::error(session_jobs::fault_code(fault), message))
        },
    }
}

/// The call with which the experiments are listed.
pub open spec fn list_call(
    access: Result<Seq<char>, StatusCode>,
    exe: Option<Seq<char>>,
) -> Result<session_jobs::CallView, reply::ReplyView> {
    match access {
        Err(status) => Err(reply::status_view(status)),
        Ok(_) => invoke_spec(exe, seq!["list"@]),
    }
}

/// Lists the experiments, first half: the call to make.
pub fn list(access: Result<String, StatusCode>, exe: Option<&str>) -> (out: Result<
    HelperCall,
    Reply,
>)
    ensures
        session_jobs::call_view(out) == list_call(
            session_jobs::text_result(access),
            text::option_str_view(exe),
        ),
{
    match access {
        Err(status) => Err(reply::bare(status)),
        Ok(_) => {
            let mut args: Vec<String> = Vec::new();
            args.push("list".to_owned());
            proof {
                assert(text::views(args@) =~= seq!["list"@]);
            }
            invoke(exe, args)
        },
    }
}

/// The answer that lists the experiments.
pub open spec fn list_answer(said: Result<json::Document, Seq<char>>) -> reply::ReplyView {
    match said {
        Ok(document) => if document.at("experiments"@) is Array {
            reply::json_view(document)
        } else {
            reply::error_view(
                StatusCode::BadGateway,
                "Render experiment helper returned an unsupported response"@,
            )
        },
        Err(message) => reply::error_view(StatusCode::BadGateway, message),
    }
}

/// Lists the experiments, second half: the answer, given what the helper said.
pub fn list_reply(said: Result<Json, String>) -> (out: Reply)
    ensures
        out@ == list_answer(session_jobs::json_result(said)),
{
    match said {
        Ok(value) => {
            let listed: bool = match value.get("experiments") {
                Some(experiments) => experiments.as_array().is_some(),
                None => false,
            };
            if listed {
                reply::json_response(value)
            } else {
                reply::error(
                    StatusCode::BadGateway,
                    "Render experiment helper returned an unsupported response",
                )
            }
        },
        Err(message) => reply::error(StatusCode::BadGateway, message.as_str()),
    }
}

/// The part of a tap's arguments that gives the rating, or why there is none.
pub open spec fn rating(body: json::Document) -> Result<Seq<Seq<char>>, Seq<char>> {
    match body.get("winner"@) {
        Some(winner) => match winner.as_u64() {
            Some(index) => if index == 0 || index == 1 {
                Ok(seq!["--winner"@, text::decimal(index as nat)])
            } else {
                Err("winner must be 0 or 1"@)
            },
            None => Err("winner must be 0 or 1"@),
        },
        None => if body.at("verdict"@) == json::Document::Text("unrated"@) {
            Ok(seq!["--clear"@])
        } else if body.at("verdict"@) == json::Document::Text("keep"@) {
            Ok(seq!["--both"@, "keep"@])
        } else if body.at("verdict"@) == json::Document::Text("reject"@) {
            Ok(seq!["--both"@, "reject"@])
        } else {
            Err(
                "send {\"winner\":0|1} to pick one, {\"verdict\":\"keep\"|\"reject\"} to rate both alike, or {\"verdict\":\"unrated\"} to clear"@,
            )
        },
    }
}

/// The part of a tap's arguments that gives the notes.
pub open spec fn notes(body: json::Document) -> Seq<Seq<char>> {
    match body.at("notes"@) {
        json::Document::Text(said) => if said.len() > 0 {
            seq!["--notes"@, text::head(said, 1800)]
        } else {
            Seq::empty()
        },
        _ => Seq::empty(),
    }
}

/// The helper's arguments for one tap.
pub open spec fn pick_args_spec(name: Seq<char>, body: json::Document) -> Result<
    Seq<Seq<char>>,
    Seq<char>,
> {
    match rating(body) {
        Ok(given) => Ok(seq!["pick"@, name] + given + notes(body)),
        Err(message) => Err(message),
    }
}

/// What an outcome says.
pub open spec fn args_view(outcome: Result<Vec<String>, &'static str>) -> Result<
    Seq<Seq<char>>,
    Seq<char>,
> {
    match outcome {
        Ok(args) => Ok(text::views(args@)),
        Err(message) => Err(message@),
    }
}

fn rating_args(body: &Json) -> (out: Result<Vec<String>, &'static str>)
    ensures
        args_view(out) == rating(body@),
{
    let mut args: Vec<String> = Vec::new();
    match body.get("winner") {
        Some(winner) => match winner.as_u64() {
            Some(index) => if index == 0 || index == 1 {
                args.push("--winner".to_owned());
                args.push(text::decimal_text(index));
                proof {
                    assert(text::views(args@) =~= seq!["--winner"@, text::decimal(index as nat)]);
                }
                Ok(args)
            } else {
                Err("winner must be 0 or 1")
            },
            None => Err("winner must be 0 or 1"),
        },
        None => {
            if let Some(verdict) = body.text_field("verdict") {
                if text::same(verdict, "unrated") {
                    args.push("--clear".to_owned());
                    proof {
                        assert(text::views(args@) =~= seq!["--clear"@]);
                    }
                    return Ok(args);
                }
                if text::same(verdict, "keep") || text::same(verdict, "reject") {
                    args.push("--both".to_owned());
                    args.push(verdict.to_owned());
                    proof {
                        reveal_strlit("unrated");
                        reveal_strlit("keep");
                        reveal_strlit("reject");
                        assert(text::views(args@) =~= seq!["--both"@, verdict@]);
                    }
                    return Ok(args);
                }
            }
            Err(
                "send {\"winner\":0|1} to pick one, {\"verdict\":\"keep\"|\"reject\"} to rate both alike, or {\"verdict\":\"unrated\"} to clear",
            )
        },
    }
}

/// The helper's arguments for one tap: a winner, one verdict for both candidates
/// (`keep` rates them equal, `reject` rates both bad), or a clear.
pub fn pick_args(name: String, body: &Json) -> (out: Result<Vec<String>, &'static str>)
    ensures
        args_view(out) == pick_args_spec(name@, body@),
{
    let given: Vec<String> = match rating_args(body) {
        Ok(given) => given,
        Err(message) => return Err(message),
    };
    let mut args: Vec<String> = Vec::new();
    let ghost named = name@;
    args.push("pick".to_owned());
    args.push(name);
    let mut i: usize = 0;
    proof {
        assert(text::views(args@) =~= seq!["pick"@, named] + text::views(given@).take(0));
    }
    while i < given.len()
        invariant
            i <= given@.len(),
            text::views(args@) == seq!["pick"@, named] + text::views(given@).take(i as int),
        decreases given@.len() - i,
    {
        let ghost before = text::views(args@);
        args.push(given[i].clone());
        proof {
            assert(text::views(args@) =~= before.push(given@[i as int]@));
            assert(text::views(args@) =~= seq!["pick"@, named] + text::views(given@).take(i + 1));
        }
        i += 1;
    }
    proof {
        assert(text::views(given@).take(i as int) =~= text::views(given@));
    }
    let ghost before = text::views(args@);
    if let Some(said) = body.text_field("notes") {
        if !said.is_empty() {
            args.push("--notes".to_owned());
            args.push(text::head_text(said, 1800));
            proof {
                assert(text::views(args@) =~= before + seq!["--notes"@, text::head(said@, 1800)]);
            }
        }
    }
    proof {
        assert(text::views(args@) =~= before + notes(body@));
    }
    Ok(args)
}

/// The call that one tap makes.
pub open spec fn pick_call(
    access: Result<Seq<char>, StatusCode>,
    name: Seq<char>,
    body: json::Document,
    exe: Option<Seq<char>>,
) -> Result<session_jobs::CallView, reply::ReplyView> {
    match access {
        Err(status) => Err(reply::status_view(status)),
        Ok(_) => if !is_valid_name(name) {
            Err(reply::status_view(StatusCode::BadRequest))
        } else {
            match pick_args_spec(name, body) {
                Err(message) => Err(reply::error_view(StatusCode::BadRequest, message)),
                Ok(args) => invoke_spec(exe, args),
            }
        },
    }
}

/// One whole tap, first half: the call to make. Winner kept and loser rejected,
/// both candidates given one verdict, or both cleared: always a single call, so
/// that no flaky connection leaves an experiment half-rated. What the helper
/// says is passed on as it is ([`session_jobs::pass_on`]).
pub fn pick(
    access: Result<String, StatusCode>,
    name: String,
    body: &Json,
    exe: Option<&str>,
) -> (out: Result<HelperCall, Reply>)
    ensures
        session_jobs::call_view(out) == pick_call(
            session_jobs::text_result(access),
            name@,
            body@,
            text::option_str_view(exe),
        ),
{
    if let Err(status) = access {
        return Err(reply::bare(status));
    }
    if !valid_name(name.as_str()) {
        return Err(reply::bare(StatusCode::BadRequest));
    }
    match pick_args(name, body) {
        Ok(args) => invoke(exe, args),
        Err(message) => Err(reply::error(StatusCode::BadRequest, message)),
    }
}

/// A tap that reaches the helper comes from a paired device with a session that
/// it may see; the name stands in the arguments as it was sent, and is one that
/// leads nowhere but into the experiment root.
pub proof fn law_a_tap_is_one_authorized_call(
    token: Option<Seq<char>>,
    known: bool,
    resolved: Option<Seq<char>>,
    hidden: bool,
    name: Seq<char>,
    body: json::Document,
    exe: Option<Seq<char>>,
)
    requires
        pick_call(session_jobs::access(token, known, resolved, hidden), name, body, exe) is Ok,
    ensures
        session_jobs::paired(token, known),
        resolved is Some && !hidden,
        ({
            let call = pick_call(
                session_jobs::access(token, known, resolved, hidden),
                name,
                body,
                exe,
            )->Ok_0;
            &&& exe == Some(call.exe)
            &&& call.args.len() >= 3
            &&& call.args[0] == "pick"@
            &&& call.args[1] == name
        }),
        !name.contains('/'),
        name != "."@ && name != ".."@,
{
    reveal_strlit(".");
    reveal_strlit("..");
    assert("."@[0] == '.' && ".."@[0] == '.');
    if name.contains('/') {
        let i = choose|i: int| 0 <= i < name.len() && name[i] == '/';
        assert(is_name_char(name[i]));
    }
}

/// A name is made of one to 128 ASCII letters, digits, hyphens, underscores and
/// dots, and does not begin with a dot.
pub proof fn law_names_of_experiments(name: Seq<char>)
    ensures
        is_valid_name(name) <==> 1 <= name.len() <= 128 && name.first() != '.' && forall|i: int|
            0 <= i < name.len() ==> {
                ||| 48 <= (#[trigger] name[i]) as int <= 57
                ||| 65 <= name[i] as int <= 90
                ||| 97 <= name[i] as int <= 122
                ||| name[i] == '-'
                ||| name[i] == '_'
                ||| name[i] == '.'
            },
{
    if is_valid_name(name) {
        assert forall|i: int| 0 <= i < name.len() implies {
            ||| 48 <= (#[trigger] name[i]) as int <= 57
            ||| 65 <= name[i] as int <= 90
            ||| 97 <= name[i] as int <= 122
            ||| name[i] == '-'
            ||| name[i] == '_'
            ||| name[i] == '.'
        } by {
            assert(is_name_char(name[i]));
        }
    }
}

/// The helper's arguments for a tap. A winner is one of the two candidates, and
/// wins over any verdict; a verdict rates both alike or clears both; anything
/// else is refused. Notes follow, if there are any, at most 1800 characters of
/// them.
pub proof fn law_arguments_of_a_tap(name: Seq<char>, body: json::Document)
    ensures
        ({
            let args = pick_args_spec(name, body);
            let noted = match body.at("notes"@) {
                json::Document::Text(said) => if said.len() == 0 {
                    Seq::<Seq<char>>::empty()
                } else if said.len() <= 1800 {
                    seq!["--notes"@, said]
                } else {
                    seq!["--notes"@, said.take(1800)]
                },
                _ => Seq::empty(),
            };
            let verdict = body.at("verdict"@);
            &&& body.get("winner"@) matches Some(winner) ==> {
                &&& winner.as_u64() == Some(0u64) ==> args == Ok::<Seq<Seq<char>>, Seq<char>>(
                    seq!["pick"@, name, "--winner"@, "0"@] + noted,
                )
                &&& winner.as_u64() == Some(1u64) ==> args == Ok::<Seq<Seq<char>>, Seq<char>>(
                    seq!["pick"@, name, "--winner"@, "1"@] + noted,
                )
                &&& winner.as_u64() != Some(0u64) && winner.as_u64() != Some(1u64) ==> args == Err::<
                    Seq<Seq<char>>,
                    Seq<char>,
                >("winner must be 0 or 1"@)
            }
            &&& body.get("winner"@) is None ==> {
                &&& verdict == json::Document::Text("unrated"@) ==> args == Ok::<
                    Seq<Seq<char>>,
                    Seq<char>,
                >(seq!["pick"@, name, "--clear"@] + noted)
                &&& verdict == json::Document::Text("keep"@) ==> args == Ok::<
                    Seq<Seq<char>>,
                    Seq<char>,
                >(seq!["pick"@, name, "--both"@, "keep"@] + noted)
                &&& verdict == json::Document::Text("reject"@) ==> args == Ok::<
                    Seq<Seq<char>>,
                    Seq<char>,
                >(seq!["pick"@, name, "--both"@, "reject"@] + noted)
                &&& args is Err <==> verdict != json::Document::Text("unrated"@) && verdict
                    != json::Document::Text("keep"@) && verdict != json::Document::Text("reject"@)
            }
        }),
{
    reveal_strlit("unrated");
    reveal_strlit("keep");
    reveal_strlit("reject");
    reveal_strlit("0");
    reveal_strlit("1");
    assert("unrated"@.len() == 7 && "keep"@.len() == 4 && "reject"@.len() == 6);
    assert(text::decimal(0) =~= "0"@);
    assert(text::decimal(1) =~= "1"@);
    let noted = notes(body);
    assert(seq!["pick"@, name] + seq!["--winner"@, "0"@] + noted =~= seq![
        "pick"@,
        name,
        "--winner"@,
        "0"@,
    ] + noted);
    assert(seq!["pick"@, name] + seq!["--winner"@, "1"@] + noted =~= seq![
        "pick"@,
        name,
        "--winner"@,
        "1"@,
    ] + noted);
    assert(seq!["pick"@, name] + seq!["--clear"@] + noted =~= seq!["pick"@, name, "--clear"@]
        + noted);
    assert(seq!["pick"@, name] + seq!["--both"@, "keep"@] + noted =~= seq![
        "pick"@,
        name,
        "--both"@,
        "keep"@,
    ] + noted);
    assert(seq!["pick"@, name] + seq!["--both"@, "reject"@] + noted =~= seq![
        "pick"@,
        name,
        "--both"@,
        "reject"@,
    ] + noted);
}

/// A granted request reaches the helper that is configured under an absolute
/// path, with the arguments of its tap or of a listing; a bad name is a bad
/// request, a bad rating one with its reason; and a status under which access was
/// refused is answered as it is.
pub proof fn law_a_rightful_tap_is_made(
    key: Seq<char>,
    status: StatusCode,
    name: Seq<char>,
    body: json::Document,
    exe: Seq<char>,
    any: Option<Seq<char>>,
)
    requires
        exe.len() > 0 && exe[0] == '/',
    ensures
        is_valid_name(name) && pick_args_spec(name, body) is Ok ==> pick_call(
            Ok(key),
            name,
            body,
            Some(exe),
        ) == Ok::<session_jobs::CallView, reply::ReplyView>(
            session_jobs::CallView { exe, args: pick_args_spec(name, body)->Ok_0 },
        ),
        !is_valid_name(name) ==> pick_call(Ok(key), name, body, any) == Err::<
            session_jobs::CallView,
            reply::ReplyView,
        >(reply::status_view(StatusCode::BadRequest)),
        is_valid_name(name) && pick_args_spec(name, body) is Err ==> pick_call(
            Ok(key),
            name,
            body,
            any,
        ) == Err::<session_jobs::CallView, reply::ReplyView>(
            reply::error_view(StatusCode::BadRequest, pick_args_spec(name, body)->Err_0),
        ),
        pick_call(Err(status), name, body, any) == Err::<session_jobs::CallView, reply::ReplyView>(
            reply::status_view(status),
        ),
        list_call(Ok(key), Some(exe)) == Ok::<session_jobs::CallView, reply::ReplyView>(
            session_jobs::CallView { exe, args: seq!["list"@] },
        ),
        list_call(Ok(key), None) == Err::<session_jobs::CallView, reply::ReplyView>(
            reply::error_view(
                StatusCode::NotImplemented,
                "Render experiments are not enabled on this gateway"@,
            ),
        ),
        any matches Some(path) ==> (path.len() == 0 || path[0] != '/') ==> list_call(Ok(key), any)
            == Err::<session_jobs::CallView, reply::ReplyView>(
            reply::error_view(
                StatusCode::ServiceUnavailable,
                "Render experiment helper must be an absolute path"@,
            ),
        ),
        list_call(Err(status), any) == Err::<session_jobs::CallView, reply::ReplyView>(
            reply::status_view(status),
        ),
{
}

/// What the helper says of the experiments is answered as it is, where it lists
/// them; anything else, and any failure, is a bad gateway with its reason.
pub proof fn law_what_is_answered(document: json::Document, message: Seq<char>)
    ensures
        document.at("experiments"@) is Array ==> list_answer(Ok(document)) == reply::json_view(
            document,
        ),
        !(document.at("experiments"@) is Array) ==> list_answer(Ok(document)) == reply::error_view(
            StatusCode::BadGateway,
            "Render experiment helper returned an unsupported response"@,
        ),
        list_answer(Err(message)) == reply::error_view(StatusCode::BadGateway, message),
{
}

/// What the arguments of a tap say is what they hold, each in its place.
pub proof fn law_arguments_say_what_they_hold(outcome: Result<Vec<String>, &'static str>)
    ensures
        outcome matches Ok(args) ==> (args_view(outcome) matches Ok(told) && told.len()
            == args@.len() && forall|i: int|
            0 <= i < args@.len() ==> #[trigger] told[i] == args@[i]@),
        outcome matches Err(message) ==> args_view(outcome) == Err::<Seq<Seq<char>>, Seq<char>>(
            message@,
        ),
{
}

}
