use zeroclaw_sessions::path::{absolute, clean_absolute, same_place};
use zeroclaw_sessions::reply::{Body, StatusCode};
use zeroclaw_sessions::session_media::{
    allowed, check_file, read, read_allowed, read_image, read_reply, references_image, TranscriptRow,
    MAX_IMAGE_BYTES,
};

fn row(role: &str, content: &str) -> TranscriptRow {
    TranscriptRow {
        role: role.to_string(),
        content: content.to_string(),
    }
}

#[test]
fn an_image_is_asked_for_by_a_clean_absolute_path() {
    assert_eq!(read(Ok("gw_1".into()), "/a/b.png").unwrap(), "gw_1");
    for bad in ["a/b.png", "/a/../b.png", "", "/.."] {
        let refused = read(Ok("gw_1".into()), bad).unwrap_err();
        assert_eq!(refused.status, StatusCode::BadRequest, "{bad}");
        assert!(matches!(refused.body, Body::Empty));
    }
    // Who may ask comes before what is asked.
    assert_eq!(
        read(Err(StatusCode::Unauthorized), "a").unwrap_err().status,
        StatusCode::Unauthorized
    );
    assert_eq!(
        read(Err(StatusCode::NotFound), "/a").unwrap_err().status,
        StatusCode::NotFound
    );
}

#[test]
fn the_transcript_is_the_allowlist() {
    let path = "/r/x.png";
    assert!(allowed(&vec![row("assistant", "see [IMAGE:/r/x.png]")], path));
    assert!(allowed(
        &vec![
            row("user", "hi"),
            row("tool", "{\"out\":[{\"text\":\"[IMAGE:/r/x.png]\"}]}")
        ],
        path
    ));
    assert!(!allowed(&vec![row("user", "[IMAGE:/r/x.png]")], path));
    assert!(!allowed(&vec![row("assistant", "[IMAGE:/r/y.png]")], path));
    assert!(!allowed(&vec![], path));
    assert!(read_allowed(&vec![row("assistant", "[IMAGE:/r/x.png]")], path).is_ok());
    let refused = read_allowed(&vec![], path).unwrap_err();
    assert_eq!(refused.status, StatusCode::NotFound);
    assert!(matches!(refused.body, Body::Empty));
}

#[test]
fn references_are_looked_for_inside_documents() {
    let marker = "[IMAGE:/r/x.png]";
    assert!(references_image("plain [IMAGE:/r/x.png] text", marker));
    assert!(references_image("\"[IMAGE:/r/x.png]\"", marker));
    assert!(references_image("{\"a\":[1,null,\"[IMAGE:/r/x.png]\"]}", marker));
    // A document is read as one: an escaped slash is a slash, and names do not count.
    assert!(references_image("{\"a\":\"[IMAGE:\\/r\\/x.png]\"}", marker));
    assert!(!references_image("{\"[IMAGE:/r/x.png]\":1}", marker));
    assert!(!references_image("[true, 2]", marker));
}

#[test]
fn only_the_file_itself_is_opened() {
    let ok = check_file("/r/x.png", Some("/r/x.png"), Some(true), 10);
    assert_eq!(ok, Ok(()));
    assert_eq!(
        check_file("/r//./x.png", Some("/r/x.png"), Some(true), 10),
        Ok(())
    );
    assert_eq!(
        check_file("/r/link.png", Some("/etc/passwd"), Some(true), 10),
        Err(StatusCode::NotFound)
    );
    assert_eq!(
        check_file("/r/x.png", None, Some(true), 10),
        Err(StatusCode::NotFound)
    );
    assert_eq!(
        check_file("/r", Some("/r"), Some(false), 10),
        Err(StatusCode::NotFound)
    );
    assert_eq!(
        check_file("/r/x.png", Some("/r/x.png"), None, 10),
        Err(StatusCode::NotFound)
    );
    assert_eq!(
        check_file("/r/x.png", Some("/r/x.png"), Some(true), MAX_IMAGE_BYTES),
        Ok(())
    );
    assert_eq!(
        check_file(
            "/r/x.png",
            Some("/r/x.png"),
            Some(true),
            MAX_IMAGE_BYTES + 1
        ),
        Err(StatusCode::PayloadTooLarge)
    );
}

#[test]
fn only_images_of_known_types_are_served() {
    for mime in ["image/png", "image/jpeg", "image/webp", "image/gif"] {
        assert_eq!(
            read_image(vec![7], Some(mime.to_string())),
            Ok((mime.to_string(), vec![7]))
        );
    }
    assert_eq!(
        read_image(vec![7], Some("image/svg+xml".into())),
        Err(StatusCode::UnsupportedMediaType)
    );
    assert_eq!(
        read_image(vec![], None),
        Err(StatusCode::UnsupportedMediaType)
    );
    assert_eq!(
        read_image(
            vec![0; MAX_IMAGE_BYTES as usize + 1],
            Some("image/png".into())
        ),
        Err(StatusCode::PayloadTooLarge)
    );
}

#[test]
fn the_answer_tells_a_missing_file_apart() {
    let image = read_reply(Some(Ok(("image/gif".into(), vec![1]))));
    assert_eq!(image.status, StatusCode::Success);
    assert!(image.private);
    let gone = read_reply(Some(Err(StatusCode::NotFound)));
    assert_eq!(gone.status.number(), 404);
    assert!(!gone.private);
    assert!(
        matches!(&gone.body, Body::Json(v) if v.text_field("error") == Some("image_file_unavailable"))
    );
    let large = read_reply(Some(Err(StatusCode::PayloadTooLarge)));
    assert_eq!(large.status.number(), 413);
    assert!(matches!(large.body, Body::Empty));
    assert_eq!(read_reply(None).status.number(), 500);
}

#[test]
fn paths_are_read_component_by_component() {
    assert!(absolute("/"));
    assert!(!absolute("") && !absolute("~/x"));
    assert!(clean_absolute("/a/..b/c"));
    assert!(!clean_absolute("/a/.."));
    assert!(same_place("/a/b", "/a/./b/"));
    assert!(!same_place("/a/b", "/a/../b"));
    assert!(!same_place("a/b", "a/b"));
}
