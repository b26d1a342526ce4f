use zeroclaw_sessions::json::Json;
use zeroclaw_sessions::reply::{Body, Reply, StatusCode};
use zeroclaw_sessions::session_experiments::{list, list_reply, pick, pick_args, valid_name};

fn json(text: &str) -> Json {
    Json::parse(text).expect("a document")
}

fn error_of(reply: &Reply) -> String {
    match &reply.body {
        Body::Json(value) => value.text_field("error").unwrap_or("").to_string(),
        _ => String::new(),
    }
}

#[test]
fn a_tap_becomes_one_fixed_helper_call() {
    let args = |body: &str| pick_args("e".to_owned(), &json(body));
    assert_eq!(
        args("{\"winner\": 1}").unwrap(),
        ["pick", "e", "--winner", "1"]
    );
    assert_eq!(
        args("{\"verdict\": \"unrated\"}").unwrap(),
        ["pick", "e", "--clear"]
    );
    assert_eq!(
        args("{\"verdict\": \"keep\"}").unwrap(),
        ["pick", "e", "--both", "keep"]
    );
    assert_eq!(
        args("{\"verdict\": \"reject\"}").unwrap(),
        ["pick", "e", "--both", "reject"]
    );
    assert_eq!(
        args("{\"winner\": 0, \"notes\": \"sharper\"}").unwrap(),
        ["pick", "e", "--winner", "0", "--notes", "sharper"]
    );
    for bad in [
        "{\"winner\": 2}",
        "{\"winner\": \"1\"}",
        "{\"verdict\": \"maybe\"}",
        "{\"verdict\": \"--clear\"}",
        "{}",
        "[]",
    ] {
        assert!(args(bad).is_err(), "{bad} should be refused");
    }
}

#[test]
fn names_are_directory_names_and_never_traversals() {
    assert!(valid_name("landscape_cfg_discovery"));
    assert!(valid_name("cfg-2.0_holdout"));
    for bad in [
        "",
        ".",
        "..",
        ".hidden",
        "../escape",
        "a/b",
        "a\\b",
        "name with space",
        "naïve",
    ] {
        assert!(!valid_name(bad), "{bad} should be rejected");
    }
    assert!(!valid_name(&"x".repeat(129)));
    assert!(valid_name(&"x".repeat(128)));
}

#[test]
fn refusals_of_a_tap_say_what_to_send() {
    assert_eq!(
        pick_args("e".to_owned(), &json("{\"winner\":-1}")).unwrap_err(),
        "winner must be 0 or 1"
    );
    assert_eq!(
        pick_args("e".to_owned(), &json("{\"winner\":null,\"verdict\":\"keep\"}")).unwrap_err(),
        "winner must be 0 or 1"
    );
    assert!(pick_args("e".to_owned(), &json("{}"))
        .unwrap_err()
        .starts_with("send {\"winner\":0|1}"));
}

#[test]
fn notes_are_cut_and_empty_notes_left_out() {
    let long = "é".repeat(2000);
    let args = pick_args(
        "e".to_owned(),
        &json(&format!("{{\"verdict\":\"keep\",\"notes\":\"{long}\"}}")),
    )
    .unwrap();
    assert_eq!(args[5].chars().count(), 1800);
    let args = pick_args("e".to_owned(), &json("{\"winner\":0,\"notes\":\"\"}")).unwrap();
    assert_eq!(args.len(), 4);
    let args = pick_args("e".to_owned(), &json("{\"winner\":0,\"notes\":5}")).unwrap();
    assert_eq!(args.len(), 4);
}

#[test]
fn a_tap_is_authorized_named_and_handed_to_the_configured_helper() {
    let body = json("{\"winner\":1}");
    let refused = pick(
        Err(StatusCode::Unauthorized),
        "e".into(),
        &body,
        Some("/bin/helper"),
    )
    .unwrap_err();
    assert_eq!(refused.status, StatusCode::Unauthorized);
    let bad_name = pick(Ok("gw_1".into()), "../e".into(), &body, Some("/bin/helper")).unwrap_err();
    assert_eq!(bad_name.status, StatusCode::BadRequest);
    assert!(matches!(bad_name.body, Body::Empty));
    let bad_body = pick(
        Ok("gw_1".into()),
        "e".into(),
        &json("{}"),
        Some("/bin/helper"),
    )
    .unwrap_err();
    assert_eq!(bad_body.status, StatusCode::BadRequest);
    assert!(error_of(&bad_body).contains("unrated"));
    let disabled = pick(Ok("gw_1".into()), "e".into(), &body, None).unwrap_err();
    assert_eq!(disabled.status, StatusCode::NotImplemented);
    assert_eq!(
        error_of(&disabled),
        "Render experiments are not enabled on this gateway"
    );
    let relative = pick(Ok("gw_1".into()), "e".into(), &body, Some("helper")).unwrap_err();
    assert_eq!(relative.status, StatusCode::ServiceUnavailable);
    assert_eq!(
        error_of(&relative),
        "Render experiment helper must be an absolute path"
    );
    let call = pick(Ok("gw_1".into()), "e".into(), &body, Some("/bin/helper")).unwrap();
    assert_eq!(call.exe, "/bin/helper");
    assert_eq!(call.args, ["pick", "e", "--winner", "1"]);
}

#[test]
fn experiments_are_listed_as_the_helper_lists_them() {
    let call = list(Ok("gw_1".into()), Some("/bin/helper")).unwrap();
    assert_eq!(call.args, ["list"]);
    assert_eq!(
        list(Err(StatusCode::NotFound), Some("/bin/helper"))
            .unwrap_err()
            .status,
        StatusCode::NotFound
    );
    let listed = list_reply(Ok(json("{\"experiments\":[]}")));
    assert_eq!(listed.status, StatusCode::Success);
    assert!(listed.private);
    let wrong = list_reply(Ok(json("{\"experiments\":{}}")));
    assert_eq!(wrong.status, StatusCode::BadGateway);
    assert_eq!(
        error_of(&wrong),
        "Render experiment helper returned an unsupported response"
    );
    let failed = list_reply(Err("timed out".into()));
    assert_eq!(failed.status, StatusCode::BadGateway);
    assert_eq!(error_of(&failed), "timed out");
}
