//! What a staged tree says of itself.

use shared_target_core::error::Failure;
use shared_target_core::path::FsPath;
use shared_target_core::staging::{from_fields, mark, read, seconds_since_epoch, MarkerFields, MARKER};
use shared_target_core::Error;

fn path(text: &str) -> FsPath {
    FsPath::parse(text.as_bytes())
}

fn fields() -> MarkerFields {
    MarkerFields {
        src: Some("/s".to_string()),
        dest: Some("/d/t".to_string()),
        pid: Some(7),
        started_at: Some(1_700_000_000),
        tool_version: Some("0.1.0".to_string()),
    }
}

#[test]
fn a_marker_is_called_as_it_always_was() {
    assert_eq!(MARKER, ".cargo-shared-target-staging");
}

#[test]
fn what_is_written_is_read_back() {
    let marking = mark(&path("/d/t.partial"), &path("/s"), &path("/d/t"), 48213, 1_700_000_000);
    let marker = read(&path("/m"), Ok(marking.text)).expect("a marker");
    assert_eq!(marker.src, path("/s"));
    assert_eq!(marker.dest, path("/d/t"));
    assert_eq!(marker.pid, 48213);
    assert_eq!(marker.started_at, 1_700_000_000);
    assert_eq!(marker.version, "0.1.0");
}

#[test]
fn a_marker_is_a_document_of_six_members() {
    let marking = mark(&path("/d/t.partial"), &path("/s"), &path("/d/t"), 1, 2);
    let text = String::from_utf8(marking.text).expect("text");
    assert_eq!(
        text,
        "{\n  \"dest\": \"/d/t\",\n  \"pid\": 1,\n  \"src\": \"/s\",\n  \"started_at\": 2,\n  \
         \"tool_version\": \"0.1.0\",\n  \"version\": 1\n}"
    );
}

#[test]
fn a_path_that_is_no_text_is_written_as_near_as_text_can() {
    let odd = FsPath::parse(b"/s/\xff");
    let marking = mark(&path("/t"), &odd, &path("/d"), 1, 2);
    let marker = read(&path("/m"), Ok(marking.text)).expect("a marker");
    assert_eq!(marker.src, path("/s/\u{fffd}"));
}

#[test]
fn a_marker_that_does_not_say_what_it_is_of_is_incomplete() {
    for broken in [
        MarkerFields { src: None, ..fields() },
        MarkerFields { dest: None, ..fields() },
    ] {
        assert!(matches!(
            from_fields(&path("/m"), broken),
            Err(Error::MarkerIncomplete(at)) if at == path("/m")
        ));
    }
}

#[test]
fn what_else_a_marker_leaves_out_is_made_up_for() {
    let sparse = MarkerFields { pid: None, started_at: None, tool_version: None, ..fields() };
    let marker = from_fields(&path("/m"), sparse).expect("a marker");
    assert_eq!((marker.pid, marker.started_at), (0, 0));
    assert_eq!(marker.version, "unknown");
    let whole = from_fields(&path("/m"), fields()).expect("a marker");
    assert_eq!((whole.pid, whole.started_at), (7, 1_700_000_000));
    assert_eq!(whole.src, path("/s"));
    assert_eq!(whole.dest, path("/d/t"));
    assert_eq!(whole.version, "0.1.0");
}

#[test]
fn members_of_another_kind_are_no_members() {
    let text = br#"{"src": "/s", "dest": "/d", "pid": "seven", "started_at": -1, "tool_version": 3}"#;
    let marker = read(&path("/m"), Ok(text.to_vec())).expect("a marker");
    assert_eq!((marker.pid, marker.started_at), (0, 0));
    assert_eq!(marker.version, "unknown");
    let text = br#"{"src": 1, "dest": "/d"}"#;
    assert!(matches!(
        read(&path("/m"), Ok(text.to_vec())),
        Err(Error::MarkerIncomplete(_))
    ));
    assert!(matches!(
        read(&path("/m"), Ok(b"[1]".to_vec())),
        Err(Error::MarkerIncomplete(_))
    ));
}

#[test]
fn a_marker_that_is_no_document_is_unreadable() {
    assert!(matches!(
        read(&path("/m"), Ok(b"{".to_vec())),
        Err(Error::MarkerUnreadable { path: at, .. }) if at == path("/m")
    ));
}

#[test]
fn a_marker_that_cannot_be_read_is_named() {
    let denied = Failure {
        missing: false,
        source: std::io::Error::from(std::io::ErrorKind::PermissionDenied),
    };
    assert!(matches!(
        read(&path("/m"), Err(denied)),
        Err(Error::Io { op: "reading the staging marker", path: at, .. }) if at == path("/m")
    ));
}

#[test]
fn a_clock_before_the_epoch_reads_zero() {
    assert_eq!(seconds_since_epoch(Some(5)), 5);
    assert_eq!(seconds_since_epoch(None), 0);
}
