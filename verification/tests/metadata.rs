//! What is made of what Cargo says, and what a command line asks for.

use shared_target_core::command::{left_behind, plan, Arguments, Plan};
use shared_target_core::metadata::{metadata_command, refusal, target_dir, Output};
use shared_target_core::path::FsPath;
use shared_target_core::{workspace_target_dir, Error, Options, DEFAULT_MIN_SHARED_SIZE};

fn path(text: &str) -> FsPath {
    FsPath::parse(text.as_bytes())
}

fn said(success: bool, stdout: &str, stderr: &str) -> Result<Output, std::io::Error> {
    Ok(Output {
        success,
        stdout: stdout.as_bytes().to_vec(),
        stderr: stderr.as_bytes().to_vec(),
    })
}

#[test]
fn cargo_is_asked_for_its_metadata() {
    let asked = metadata_command(None, None);
    assert_eq!(asked.program, b"cargo");
    assert_eq!(asked.args, ["metadata", "--format-version", "1", "--no-deps"]);
    assert_eq!(asked.cwd, None);
    let asked = metadata_command(Some(b"/opt/cargo".to_vec()), Some(path("/w")));
    assert_eq!(asked.program, b"/opt/cargo");
    assert_eq!(asked.cwd, Some(path("/w")));
}

#[test]
fn the_target_directory_is_the_one_cargo_names() {
    let found = workspace_target_dir(said(true, r#"{"x": 1, "target_directory": "/w/target"}"#, ""));
    assert_eq!(found.expect("a directory"), path("/w/target"));
    assert_eq!(target_dir(Some("/w/t".to_string())).expect("a directory"), path("/w/t"));
}

#[test]
fn a_cargo_that_cannot_be_run_is_named() {
    let cause = std::io::Error::from(std::io::ErrorKind::NotFound);
    assert!(matches!(workspace_target_dir(Err(cause)), Err(Error::MetadataSpawn(_))));
}

#[test]
fn a_cargo_that_fails_is_quoted() {
    match workspace_target_dir(said(false, "{}", "\n error: no manifest \n\n")) {
        Err(Error::MetadataFailed(words)) => assert_eq!(words, "error: no manifest"),
        other => panic!("got {other:?}"),
    }
    assert!(matches!(refusal(" \t x y\n"), Error::MetadataFailed(words) if words == "x y"));
    let bytes = Ok(Output { success: false, stdout: Vec::new(), stderr: vec![b'a', 0xff] });
    assert!(matches!(
        workspace_target_dir(bytes),
        Err(Error::MetadataFailed(words)) if words == "a\u{fffd}"
    ));
}

#[test]
fn an_answer_that_is_no_document_is_refused() {
    assert!(matches!(
        workspace_target_dir(said(true, "not json", "")),
        Err(Error::MetadataParse(_))
    ));
}

#[test]
fn an_answer_without_a_directory_is_refused() {
    for text in ["{}", r#"{"target_directory": 3}"#, "[]"] {
        assert!(matches!(
            workspace_target_dir(said(true, text, "")),
            Err(Error::MetadataNoTargetDir)
        ));
    }
    assert!(matches!(target_dir(None), Err(Error::MetadataNoTargetDir)));
}

fn arguments() -> Arguments {
    Arguments {
        src: Some(path("/s")),
        dest: Some(path("/d")),
        staging: Some(path("/p")),
        min_shared_size: 3,
        prune: None,
        remove: false,
    }
}

#[test]
fn a_destination_is_seeded() {
    match plan(arguments()) {
        Plan::Seed(options) => {
            assert_eq!((options.src, options.dest), (path("/s"), path("/d")));
            assert_eq!(options.staging, Some(path("/p")));
            assert_eq!(options.min_shared_size, 3);
        }
        other => panic!("got {other:?}"),
    }
}

#[test]
fn a_source_that_is_not_given_is_asked_for() {
    match plan(Arguments { src: None, ..arguments() }) {
        Plan::FindSource(rest) => {
            let options = rest.from_source(path("/found"));
            assert_eq!((options.src, options.dest), (path("/found"), path("/d")));
            assert_eq!(options.staging, Some(path("/p")));
            assert_eq!(options.min_shared_size, 3);
        }
        other => panic!("got {other:?}"),
    }
}

#[test]
fn a_place_to_prune_is_pruned() {
    for remove in [false, true] {
        match plan(Arguments { prune: Some(path("/r")), dest: None, remove, ..arguments() }) {
            Plan::Prune(options) => assert_eq!((options.root, options.remove), (path("/r"), remove)),
            other => panic!("got {other:?}"),
        }
    }
}

#[test]
fn a_mebibyte_is_large_enough_to_share() {
    assert_eq!(DEFAULT_MIN_SHARED_SIZE, 1024 * 1024);
    let options = Options::new(path("/s"), path("/d"));
    assert_eq!(options.min_shared_size, DEFAULT_MIN_SHARED_SIZE);
    assert!(options.staging.is_none());
}

#[test]
fn only_a_tree_that_is_there_was_left_behind() {
    assert_eq!(left_behind(path("/p"), true), Some(path("/p")));
    assert_eq!(left_behind(path("/p"), false), None);
}
