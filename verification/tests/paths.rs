//! Paths as sequences of components.

use shared_target_core::nesting::{parent_of, refuse_nesting, resolve};
use shared_target_core::error::Failure;
use shared_target_core::path::FsPath;
use shared_target_core::protocol::{Answer, Step};
use shared_target_core::seed::{shares, Strategy};
use shared_target_core::Error;
use std::path::Path;

fn path(text: &str) -> FsPath {
    FsPath::parse(text.as_bytes())
}

fn spelled(path: &FsPath) -> String {
    String::from_utf8(path.to_bytes()).expect("text")
}

const SAMPLES: [&str; 16] = [
    "", "/", ".", "..", "a", "/a", "a/b", "/a/b/", "a//b", "./a", "a/./b", "a/../b", "/..",
    "a/..", ".hidden", "/a/b.d",
];

#[test]
fn a_path_has_the_components_that_the_standard_library_gives_it() {
    for text in SAMPLES {
        let expected: Vec<String> = Path::new(text)
            .components()
            .map(|part| part.as_os_str().to_str().unwrap().to_string())
            .collect();
        let mut found = Vec::new();
        let mut rest = path(text).descend(&FsPath::empty());
        while rest.len() > 0 {
            let parent = rest.parent();
            let whole = spelled(&rest);
            match parent {
                Some(parent) => {
                    let above = spelled(&parent);
                    found.push(whole[above.len()..].trim_start_matches('/').to_string());
                    rest = parent;
                }
                None => {
                    found.push(whole);
                    break;
                }
            }
        }
        found.reverse();
        assert_eq!(found, expected, "{text:?}");
    }
}

#[test]
fn names_parents_and_extensions_are_those_of_the_standard_library() {
    for text in SAMPLES {
        let ours = path(text);
        let theirs = Path::new(text);
        assert_eq!(
            ours.file_name().map(|name| name.as_slice()),
            theirs.file_name().map(|name| name.as_encoded_bytes()),
            "{text:?}"
        );
        assert_eq!(
            ours.parent().map(|parent| spelled(&parent)),
            theirs
                .parent()
                .map(|parent| spelled(&path(parent.to_str().unwrap()).descend(&FsPath::empty()))),
            "{text:?}"
        );
        assert_eq!(
            ours.has_extension("d"),
            theirs.extension().is_some_and(|extension| extension == "d"),
            "{text:?}"
        );
        let renamed = theirs.with_file_name("other");
        assert_eq!(
            ours.with_file_name(b"other"),
            path(renamed.to_str().unwrap()),
            "{text:?}"
        );
    }
}

#[test]
fn a_path_is_spelled_so_that_it_is_read_back() {
    for text in SAMPLES {
        let once = path(text);
        assert_eq!(spelled(&once), text, "as it was given");
        assert_eq!(FsPath::parse(&once.to_bytes()), once, "{text:?}");
        if let Some(parent) = once.parent() {
            assert_eq!(FsPath::parse(&parent.to_bytes()), parent, "{text:?}");
        }
        let child = once.join("x");
        assert_eq!(FsPath::parse(&child.to_bytes()), child, "{text:?}");
    }
    assert_eq!(spelled(&path("/a//b/./c/")), "/a//b/./c/");
    assert_eq!(spelled(&path("/a//b/./c/").join("d")), "/a/b/c/d");
    assert_eq!(path("/a//b/"), path("/a/b"));
    assert_ne!(path("/a/b"), path("a/b"));
}

#[test]
fn being_inside_is_a_matter_of_components() {
    assert!(path("/a/b/c").starts_with(&path("/a/b")));
    assert!(path("/a/b").starts_with(&path("/a/b")));
    assert!(!path("/a/bc").starts_with(&path("/a/b")));
    assert!(!path("/a").starts_with(&path("/a/b")));
}

#[test]
fn a_place_inside_the_source_is_refused() {
    match refuse_nesting(path("/s"), path("/s/x")) {
        Err(Error::DestinationInsideSource { src, dest }) => {
            assert_eq!((src, dest), (path("/s"), path("/s/x")));
        }
        other => panic!("got {other:?}"),
    }
    assert!(matches!(
        refuse_nesting(path("/s"), path("/s")),
        Err(Error::DestinationInsideSource { .. })
    ));
    assert_eq!(
        refuse_nesting(path("/s"), path("/st")).expect("a sibling"),
        (path("/s"), path("/st"))
    );
}

#[test]
fn the_directory_of_a_single_name_is_the_one_relative_paths_start_from() {
    assert_eq!(parent_of(&path("target")).expect("a parent"), path("."));
    assert_eq!(parent_of(&path("/a/b")).expect("a parent"), path("/a"));
    assert!(matches!(parent_of(&path("/")), Err(Error::DestinationHasNoParent(_))));
    assert!(matches!(parent_of(&path("")), Err(Error::DestinationHasNoParent(_))));
}

fn not_there() -> Answer {
    Answer::Canonical(Err(Failure {
        missing: true,
        source: std::io::Error::from(std::io::ErrorKind::NotFound),
    }))
}

#[test]
fn what_is_not_there_is_kept_as_it_is_written() {
    let mut search = resolve(&path("link/x/y"));
    for _ in 0..2 {
        search = match search.step(not_there()) {
            Step::Ask(search) => search,
            other => panic!("got {other:?}"),
        };
    }
    match search.step(Answer::Canonical(Ok(path("/real")))) {
        Step::Done(Ok(found)) => assert_eq!(found, path("/real/x/y")),
        other => panic!("got {other:?}"),
    }
}

#[test]
fn a_path_of_which_nothing_is_there_has_no_parent() {
    let mut search = resolve(&path("x"));
    search = match search.step(not_there()) {
        Step::Ask(search) => search,
        other => panic!("got {other:?}"),
    };
    match search.step(not_there()) {
        Step::Done(Err(Error::DestinationHasNoParent(of))) => assert_eq!(of, path("x")),
        other => panic!("got {other:?}"),
    }
}

#[test]
fn only_large_artifacts_under_deps_are_linked() {
    let link = |text: &str, size: u64| shares(Strategy::LinkAndCopy, &path(text), size, 100);
    assert!(link("debug/deps/lib.rlib", 100));
    assert!(!link("debug/deps/lib.rlib", 99));
    assert!(!link("debug/deps/lib.d", 100));
    assert!(link("debug/deps/.d", 100), "a name that only starts with a dot");
    assert!(!link("debug/build/lib.rlib", 100));
    assert!(!link("debug/deps", 100), "the file's own name is not where it is");
    assert!(link("debug/deps/sub/lib.rlib", 100));
    assert!(shares(Strategy::Clone, &path("debug/deps/lib.d"), 0, 100));
}
