use zeroclaw_sessions::json::Json;
use zeroclaw_sessions::reply::{Body, Reply, StatusCode};
use zeroclaw_sessions::session_jobs::{
    authorize, cancel, check_size, deliverables, deliverables_from, fault_code, helper,
    helper_reply, list, list_reply, output, output_path, output_reply, pass_on, run_reply,
    valid_id, where_args, HelperEnd, HelperFault, MAX_REPLY,
};

fn json(text: &str) -> Json {
    Json::parse(text).expect("a document")
}

fn error_of(reply: &Reply) -> String {
    match &reply.body {
        Body::Json(value) => value.text_field("error").unwrap_or("").to_string(),
        _ => String::new(),
    }
}

/// Two paired devices, and one session that the first of them owns.
fn access(token: Option<&str>, paired: &[&str], id: &str) -> Result<String, StatusCode> {
    let known = token.is_some_and(|t| paired.contains(&t));
    let resolved = ["gw_ui-jobs"]
        .iter()
        .find(|key| **key == id || **key == format!("gw_{id}"))
        .map(|key| key.to_string());
    let hidden = token != Some("fixture-owner");
    authorize(token, known, resolved, hidden)
}

#[test]
fn authorization_resolves_canonical_session_and_enforces_device_visibility() {
    let both = ["fixture-owner", "fixture-other"];
    assert_eq!(
        access(Some("fixture-owner"), &both, "ui-jobs").unwrap(),
        "gw_ui-jobs"
    );
    assert_eq!(
        access(Some("fixture-other"), &both, "ui-jobs"),
        Err(StatusCode::NotFound)
    );
    assert_eq!(
        access(Some("fixture-owner"), &both, "missing"),
        Err(StatusCode::NotFound)
    );
    let one = ["fixture-owner"];
    assert_eq!(
        access(None, &one, "ui-jobs"),
        Err(StatusCode::Unauthorized)
    );
    assert_eq!(
        access(Some("unpaired"), &one, "ui-jobs"),
        Err(StatusCode::Unauthorized)
    );
}

#[test]
fn an_empty_token_is_no_credential() {
    assert_eq!(
        authorize(Some(""), true, Some("gw_1".into()), false),
        Err(StatusCode::Unauthorized)
    );
}

#[test]
fn every_handler_authorizes_before_invoking_the_observer() {
    let both = ["fixture-owner", "fixture-other"];
    let exe = Some("/opt/observer");
    assert_eq!(
        list(access(Some("fixture-other"), &both, "ui-jobs"), exe)
            .unwrap_err()
            .status,
        StatusCode::NotFound
    );
    assert_eq!(
        cancel(access(None, &both, "ui-jobs"), "a-job", exe)
            .unwrap_err()
            .status,
        StatusCode::Unauthorized
    );
    assert_eq!(
        output(access(Some("fixture-other"), &both, "ui-jobs"), "a-job", 0, exe)
            .unwrap_err()
            .status,
        StatusCode::NotFound
    );
    assert_eq!(
        cancel(
            access(Some("fixture-owner"), &both, "ui-jobs"),
            "../escape",
            exe
        )
        .unwrap_err()
        .status,
        StatusCode::BadRequest
    );
    assert_eq!(
        output(
            access(Some("fixture-owner"), &both, "ui-jobs"),
            "a-job",
            64,
            exe
        )
        .unwrap_err()
        .status,
        StatusCode::BadRequest
    );
}

#[test]
fn calls_carry_their_arguments_literally() {
    let exe = Some("/opt/observer");
    let key = || Ok("gw_$(exit 42); session".to_string());
    assert_eq!(
        list(key(), exe).unwrap().args,
        ["jobs", "--session", "gw_$(exit 42); session"]
    );
    let call = cancel(key(), "job-one", exe).unwrap();
    assert_eq!(call.exe, "/opt/observer");
    assert_eq!(
        call.args,
        [
            "job-cancel",
            "--session",
            "gw_$(exit 42); session",
            "--job",
            "job-one"
        ]
    );
    assert_eq!(
        output(key(), "job-one", 63, exe).unwrap().args,
        [
            "job-output",
            "--session",
            "gw_$(exit 42); session",
            "--job",
            "job-one",
            "--index",
            "63"
        ]
    );
}

#[test]
fn a_helper_must_be_configured_by_an_absolute_path() {
    assert_eq!(helper(None), Err(HelperFault::NotEnabled));
    assert_eq!(helper(Some("observer")), Err(HelperFault::NotAbsolute));
    assert_eq!(helper(Some("/opt/observer")).unwrap(), "/opt/observer");
    assert_eq!(fault_code(HelperFault::NotEnabled).number(), 501);
    assert_eq!(fault_code(HelperFault::NotAbsolute).number(), 503);
    let off = list(Ok("gw_1".into()), None).unwrap_err();
    assert_eq!(
        error_of(&off),
        "Comfy job tracking is not enabled on this gateway"
    );
    let relative = list(Ok("gw_1".into()), Some("observer")).unwrap_err();
    assert_eq!(
        error_of(&relative),
        "Comfy job tracking executable must be an absolute path"
    );
    assert!(off.private && relative.private);
}

#[test]
fn what_a_helper_said_is_bounded_checked_and_parsed() {
    assert!(helper_reply(&vec![b'x'; MAX_REPLY + 1], b"", true)
        .unwrap_err()
        .contains("size limit"));
    assert!(helper_reply(b"invalid json", b"", true)
        .unwrap_err()
        .contains("invalid JSON"));
    assert_eq!(
        helper_reply(b"", b"  targeted cancellation unsupported\n", false).unwrap_err(),
        "Comfy job observer: targeted cancellation unsupported"
    );
    assert_eq!(
        helper_reply(b"", b"\xffoops", false).unwrap_err(),
        "Comfy job observer: \u{fffd}oops"
    );
    let too_loud = vec![b'e'; 8193];
    for success in [true, false] {
        assert_eq!(
            helper_reply(b"[1]", &too_loud, success).unwrap_err(),
            "Comfy job response exceeded its size limit"
        );
    }
    assert_eq!(helper_reply(b"[1]", &too_loud[1..], true).unwrap().render(), "[1]");
    let value = helper_reply(b"{\"version\":1}", b"", true).unwrap();
    assert_eq!(value.get("version").unwrap().as_i64(), Some(1));
    let long = "r".repeat(2500);
    assert_eq!(
        helper_reply(b"", long.as_bytes(), false).unwrap_err().len(),
        "Comfy job observer: ".len() + 2000
    );
    assert!(check_size(8192, 8192).is_ok());
    assert!(check_size(8193, 8192).unwrap_err().contains("size limit"));
}

#[test]
fn job_ids_are_short_and_plain() {
    assert!(valid_id("cg-1_A"));
    assert!(valid_id(&"x".repeat(128)));
    for bad in ["", "a/b", "a b", "naïve", "a.b"] {
        assert!(!valid_id(bad), "{bad}");
    }
    assert!(!valid_id(&"x".repeat(129)));
}

#[test]
fn deliverables_keep_only_clean_absolute_files_and_read_oldest_first() {
    let value = json(
        "{\"version\":1,\"session_id\":\"gw_s\",\"matched\":4,\"results\":[
            {\"job\":\"cg-2\",\"index\":0,\"label\":\"cg_two\",\"kind\":\"image\",\"deliver_source\":\"cache\",\"deliver_path\":\"/records/x/outputs/cg-2-0.png\"},
            {\"job\":\"cg-1\",\"index\":0,\"label\":\"cg_one\",\"kind\":\"image\",\"deliver_source\":\"gallery\",\"deliver_path\":\"/gallery/a/cg_one_1_00001_.png\"},
            {\"job\":\"cg-0\",\"index\":0,\"label\":\"cg_none\",\"kind\":\"image\",\"deliver_source\":null,\"deliver_path\":null},
            {\"job\":\"../x\",\"index\":0,\"label\":\"bad\",\"kind\":\"image\",\"deliver_source\":\"cache\",\"deliver_path\":\"/records/../etc/passwd\"},
            {\"job\":\"cg-3\",\"index\":99,\"label\":\"bad\",\"kind\":\"image\",\"deliver_source\":\"cache\",\"deliver_path\":\"/records/x/outputs/cg-3-99.png\"},
            {\"job\":\"cg-4\",\"index\":0,\"label\":\"rel\",\"kind\":\"image\",\"deliver_source\":\"workspace\",\"deliver_path\":\"renders/cg_rel.png\"}
        ]}",
    );
    let got = deliverables_from(&value, "gw_s").unwrap();
    assert_eq!(
        got.iter().map(|d| d.path.as_str()).collect::<Vec<_>>(),
        vec![
            "/gallery/a/cg_one_1_00001_.png",
            "/records/x/outputs/cg-2-0.png"
        ]
    );
    assert_eq!(got[0].source, "gallery");
    assert_eq!(got[1].label, "cg_two");
    assert!(deliverables_from(&value, "gw_other").is_err());
    assert!(deliverables_from(
        &json("{\"version\":2,\"session_id\":\"gw_s\",\"results\":[]}"),
        "gw_s"
    )
    .is_err());
}

#[test]
fn deliverables_invoke_where_with_a_window_and_delivery_mode() {
    let expected = [
        "where",
        "--session",
        "gw_s",
        "--since",
        "1789535400",
        "--latest",
        "64",
        "--deliverable",
    ];
    assert_eq!(where_args("gw_s", 1_789_535_400), expected);
    let call = deliverables(Some("/opt/observer"), "gw_s", 1_789_535_400).unwrap();
    assert_eq!(call.args, expected);
    assert_eq!(
        deliverables(None, "gw_s", 0).unwrap_err(),
        "Comfy job tracking is not enabled on this gateway"
    );
    let value = json("{\"version\":1,\"session_id\":\"gw_s\",\"results\":[]}");
    assert!(deliverables_from(&value, "gw_s").unwrap().is_empty());
    assert_eq!(
        deliverables_from(&json("{\"version\":1,\"session_id\":\"gw_s\"}"), "gw_s").unwrap_err(),
        "Comfy job observer returned no results array"
    );
}

#[test]
fn a_list_about_another_session_is_refused() {
    let good = list_reply(
        "gw_s",
        Ok(json(
            "{\"version\":1,\"session_id\":\"gw_s\",\"jobs\":[]}",
        )),
    );
    assert_eq!(good.status, StatusCode::Success);
    assert!(good.private);
    for bad in [
        "{\"version\":1,\"session_id\":\"gw_t\",\"jobs\":[]}",
        "{\"version\":1.0,\"session_id\":\"gw_s\",\"jobs\":[]}",
        "{\"version\":1,\"session_id\":\"gw_s\"}",
    ] {
        let reply = list_reply("gw_s", Ok(json(bad)));
        assert_eq!(reply.status, StatusCode::BadGateway);
        assert_eq!(
            error_of(&reply),
            "Comfy job observer returned a different session or unsupported response"
        );
    }
    assert_eq!(
        error_of(&list_reply("gw_s", Err("boom".into()))),
        "boom"
    );
}

#[test]
fn answers_are_passed_on_and_outputs_served() {
    assert_eq!(pass_on(Ok(json("{}"))).status, StatusCode::Success);
    assert_eq!(error_of(&pass_on(Err("boom".into()))), "boom");
    assert_eq!(
        output_path(Ok(json("{\"path\":\"/r/x.png\"}"))).unwrap(),
        "/r/x.png"
    );
    assert_eq!(
        error_of(&output_path(Ok(json("{\"path\":1}"))).unwrap_err()),
        "Job output path is missing"
    );
    assert_eq!(
        output_path(Err("boom".into())).unwrap_err().status,
        StatusCode::BadGateway
    );
    let served = output_reply(Some(Ok(("image/png".into(), vec![1, 2]))));
    assert!(
        matches!(&served.body, Body::Image { mime, bytes } if mime == "image/png" && bytes == &vec![1, 2])
    );
    let gone = output_reply(Some(Err(StatusCode::NotFound)));
    assert_eq!(gone.status, StatusCode::NotFound);
    assert_eq!(error_of(&gone), "Saved job image is unavailable");
    let broken = output_reply(None);
    assert_eq!(broken.status, StatusCode::InternalServerError);
    assert_eq!(error_of(&broken), "Job image could not be read");
}

#[test]
fn each_end_of_a_helper_is_put_into_words() {
    for (end, words) in [
        (
            HelperEnd::NotStarted("no such file".into()),
            "Comfy job observer could not start: no such file",
        ),
        (HelperEnd::NoOutput, "Comfy job observer has no stdout"),
        (HelperEnd::NoErrorStream, "Comfy job observer has no stderr"),
        (
            HelperEnd::TimedOut,
            "Comfy job observer timed out; refresh to check the outcome",
        ),
        (
            HelperEnd::Unreadable("broken pipe".into()),
            "Comfy job observer I/O failed: broken pipe",
        ),
        (
            HelperEnd::Finished {
                out: vec![],
                err: b"nope".to_vec(),
                success: false,
            },
            "Comfy job observer: nope",
        ),
        (
            HelperEnd::Finished {
                out: b"[1]".to_vec(),
                err: vec![b'e'; 8193],
                success: true,
            },
            "Comfy job response exceeded its size limit",
        ),
    ] {
        assert_eq!(run_reply(&end).unwrap_err(), words);
    }
    let said = run_reply(&HelperEnd::Finished {
        out: b"[1]".to_vec(),
        err: vec![],
        success: true,
    })
    .unwrap();
    assert_eq!(said.render(), "[1]");
}
