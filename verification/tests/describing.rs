//! What a reader is told.

use shared_target_core::describe::{
    can_add_up, describe, describe_as, describe_partial, describe_partial_as, describe_probe,
    describe_prune, describe_total, describe_tree, describe_tree_as, describe_weight, TreeNames,
};
use shared_target_core::path::FsPath;
use shared_target_core::prune::{Probe, Report as PruneReport, State, Tree, Weight};
use shared_target_core::staging::Marker;
use shared_target_core::{Error, Report, Strategy};

fn path(text: &str) -> FsPath {
    FsPath::parse(text.as_bytes())
}

fn report() -> Report {
    Report {
        strategy: Strategy::LinkAndCopy,
        dest: path("/w/target"),
        dirs: 12,
        shared: 3,
        copied: 1234567890,
        symlinks: 0,
        incremental_dropped: 0,
        shared_bytes: 2 * 1024 * 1024,
        copied_bytes: 5,
        build_locks_held: 2,
    }
}

#[test]
fn a_seeding_is_described_in_five_lines() {
    assert_eq!(
        describe(&report()),
        [
            "seeded /w/target by linking what is safe to share, copying the rest",
            "  shared          3 files     2.0 MiB",
            "  copied  1234567890 files         5 B",
            "  dirs           12",
            "  locks           2 of Cargo's build locks held while reading",
        ]
    );
}

#[test]
fn what_was_linked_and_dropped_is_said_where_there_is_any() {
    let more = Report {
        strategy: Strategy::Clone,
        symlinks: 1,
        incremental_dropped: 4,
        ..report()
    };
    let lines = describe_as(&more, "SHOWN");
    assert_eq!(lines[0], "seeded SHOWN by cloning blocks");
    assert_eq!(lines[5], "  links           1");
    assert_eq!(
        lines[6],
        "  dropped         4 incremental directories (Cargo rebuilds these)"
    );
    assert_eq!(lines.len(), 7);
}

const NOW: u64 = 1_700_000_000;

fn tree(state: State, removed: bool) -> Tree {
    Tree {
        staging: path("/home/you/projects/thing/workspace/target.partial"),
        marker: Marker {
            src: path("/home/you/projects/thing/target"),
            dest: path("/home/you/projects/thing/workspace/target"),
            pid: 48213,
            started_at: NOW - 5 * 86400,
            version: "0.1.0".to_string(),
        },
        state,
        weight: Weight {
            files: 124018,
            dirs: 1,
            total: 49392123904,
            shared: Some(43057047142),
        },
        removed,
    }
}

#[test]
fn a_staged_tree_is_described_with_what_removing_it_frees() {
    assert_eq!(
        describe_tree(&tree(State::Abandoned, false), false, NOW),
        [
            "staged tree  /home/you/projects/thing/workspace/target.partial",
            "  from       /home/you/projects/thing/target",
            "  for        /home/you/projects/thing/workspace/target",
            "  written    by pid 48213 5 days ago, cargo-shared-target 0.1.0",
            "  holds      124018 files  46.0 GiB",
            "  shared     40.1 GiB of that is a second name for a file another tree also has",
            "  frees      at most 5.9 GiB",
            "  status     left alone; pass --remove to take it",
        ]
    );
}

#[test]
fn what_became_of_a_tree_is_its_status() {
    let status = |state: State, removed: bool, remove: bool| {
        describe_tree(&tree(state, removed), remove, NOW)
            .pop()
            .expect("a status")
    };
    assert_eq!(status(State::Abandoned, true, true), "  status     removed");
    assert_eq!(
        status(State::Abandoned, false, true),
        "  status     left alone: removing it failed"
    );
    assert_eq!(
        status(State::Building, false, true),
        "  status     left alone: a seeding is running here"
    );
    assert_eq!(
        status(State::Undecidable, false, true),
        "  status     left alone: this platform cannot say whether a run is still going"
    );
}

#[test]
fn a_tree_that_arrived_is_not_offered_for_removal() {
    let names = TreeNames {
        staging: "STAGING".to_string(),
        marker: "MARKER".to_string(),
        src: "SRC".to_string(),
        dest: "DEST".to_string(),
    };
    assert_eq!(
        describe_tree_as(&tree(State::Landed, false), &names, false, NOW),
        [
            "stale marker MARKER",
            "  for        a tree that arrived: this is a target directory in use",
            "  status     left alone; pass --remove to clear the marker",
        ]
    );
    assert_eq!(
        describe_tree(&tree(State::Landed, true), true, NOW),
        [
            "stale marker /home/you/projects/thing/workspace/target.partial/\
             .cargo-shared-target-staging",
            "  for        a tree that arrived: this is a target directory in use",
            "  status     marker removed; the directory is untouched",
        ]
    );
    let lines = describe_tree_as(&tree(State::Building, false), &names, false, NOW);
    assert_eq!(lines[..3], ["staged tree  STAGING", "  from       SRC", "  for        DEST"]);
}

#[test]
fn what_cannot_be_accounted_is_said_to_be_unknown() {
    let weight = Weight { files: 1, dirs: 0, total: 10, shared: None };
    assert_eq!(
        describe_weight(&weight),
        ["  frees      unknown: sharing cannot be accounted on this platform"]
    );
    let weight = Weight { shared: Some(0), ..weight };
    assert_eq!(describe_weight(&weight), ["  frees      at most 10 B"]);
}

#[test]
fn what_removing_frees_is_what_has_no_other_name() {
    let weight = Weight { files: 2, dirs: 0, total: 10, shared: Some(4) };
    assert_eq!(weight.freeable(), Some(6));
    assert_eq!(Weight { shared: Some(11), ..weight }.freeable(), Some(0));
    assert_eq!(Weight { shared: None, ..weight }.freeable(), None);
    assert_eq!(
        Weight::default(),
        Weight { files: 0, dirs: 0, total: 0, shared: None }
    );
}

fn weighing(total: u64, shared: Option<u64>, state: State) -> Tree {
    Tree {
        weight: Weight { files: 1, dirs: 0, total, shared },
        ..tree(state, false)
    }
}

#[test]
fn abandoned_trees_are_added_up() {
    let trees = vec![
        weighing(1024, Some(0), State::Abandoned),
        weighing(4096, Some(0), State::Building),
        weighing(2048, Some(1024), State::Abandoned),
    ];
    let report = PruneReport { trees, probes: Vec::new() };
    assert!(can_add_up(&report.trees));
    assert_eq!(
        describe_total(&report, false),
        ["2 abandoned trees, would free at most 2.0 KiB"]
    );
    assert_eq!(
        describe_total(&report, true),
        ["2 abandoned trees, freed at most 2.0 KiB"]
    );
    let report = PruneReport {
        trees: vec![weighing(1, None, State::Abandoned)],
        probes: Vec::new(),
    };
    assert_eq!(describe_total(&report, true), ["1 abandoned tree"]);
    let report = PruneReport {
        trees: vec![weighing(1, Some(0), State::Building)],
        probes: Vec::new(),
    };
    assert!(describe_total(&report, true).is_empty());
}

#[test]
fn what_is_too_much_to_add_up_is_noticed() {
    let trees = vec![
        weighing(u64::MAX, Some(0), State::Abandoned),
        weighing(1, Some(0), State::Abandoned),
    ];
    assert!(!can_add_up(&trees));
    let trees = vec![
        weighing(u64::MAX, Some(0), State::Abandoned),
        weighing(1, None, State::Abandoned),
        weighing(1, Some(0), State::Abandoned),
    ];
    assert!(can_add_up(&trees), "nothing is added once something is unknown");
}

#[test]
fn a_pruning_is_described_tree_by_tree() {
    let report = PruneReport {
        trees: vec![weighing(1024, Some(0), State::Abandoned)],
        probes: vec![
            Probe { path: path("/w/p"), removed: true },
            Probe { path: path("/w/q"), removed: false },
        ],
    };
    let lines = describe_prune(&path("/w"), &report, true, NOW);
    assert_eq!(lines.len(), 7 + 1 + 2 + 1);
    assert_eq!(lines[7], "");
    assert_eq!(lines[8], "probe        /w/p  (removed)");
    assert_eq!(lines[9], "probe        /w/q");
    assert_eq!(lines[10], "1 abandoned tree, freed at most 1.0 KiB");
    assert_eq!(describe_probe("X", false), "probe        X");
}

#[test]
fn nothing_left_behind_is_said_to_be_nothing() {
    let report = PruneReport::default();
    assert!(report.is_empty());
    assert_eq!(
        describe_prune(&path("/w"), &report, false, NOW),
        ["nothing left behind under /w"]
    );
}

#[test]
fn a_tree_that_a_failure_leaves_is_pointed_at() {
    assert_eq!(
        describe_partial(&path("/w/target.partial")),
        [
            "note: a partial tree remains at /w/target.partial",
            "note: `cargo shared-target --prune /w` says what it holds",
        ]
    );
    assert_eq!(
        describe_partial(&path("/")),
        [
            "note: a partial tree remains at /",
            "note: `cargo shared-target --prune /` says what it holds",
        ]
    );
    assert_eq!(describe_partial_as("A", "B")[1], "note: `cargo shared-target --prune B` says what it holds");
}

#[test]
fn errors_are_put_into_words() {
    let p = || path("/p");
    let io = || std::io::Error::from(std::io::ErrorKind::Other);
    let json = || serde_json::from_slice::<serde_json::Value>(b"{").expect_err("no document");
    let walk = || {
        walkdir::WalkDir::new("/no/such/directory")
            .into_iter()
            .next()
            .expect("the root")
            .expect_err("there is none")
    };
    let said = [
        (Error::SourceMissing(p()), "no target directory at /p"),
        (Error::DestinationExists(p()), "/p already exists"),
        (
            Error::StagingExists(p()),
            "a previous run left a partial tree at /p; remove it and run again",
        ),
        (
            Error::StagingBusy(p()),
            "another seeding holds /p; give each run a staging directory of its own",
        ),
        (
            Error::SourceBusy { path: path("/path/target/debug/.cargo-lock") },
            "a build is running here: /path/target/debug/.cargo-lock is locked; seed between builds",
        ),
        (
            Error::DestinationHasNoParent(p()),
            "/p has no parent directory to be created in",
        ),
        (
            Error::DestinationInsideSource { src: path("/s"), dest: path("/s/d") },
            "/s/d is inside /s, which is the directory being read",
        ),
        (
            Error::CrossDevice { src: path("/s"), dest: path("/d") },
            "/s and /d are on different filesystems, so there is nothing to share between them",
        ),
        (Error::Io { op: "creating", path: p(), source: io() }, "creating /p"),
        (Error::Walk { path: p(), source: walk() }, "walking /p"),
        (
            Error::MarkerWrite { path: p(), source: json() },
            "writing the staging marker /p",
        ),
        (
            Error::MarkerUnreadable { path: p(), source: json() },
            "/p is not a staging marker that can be read",
        ),
        (
            Error::MarkerIncomplete(p()),
            "/p does not say what was being seeded, or where it was going",
        ),
        (Error::PruneRootMissing(p()), "no directory to search at /p"),
        (Error::MetadataSpawn(io()), "running `cargo metadata`"),
        (
            Error::MetadataFailed("no manifest".to_string()),
            "`cargo metadata` failed: no manifest",
        ),
        (Error::MetadataParse(json()), "reading the output of `cargo metadata`"),
        (
            Error::MetadataNoTargetDir,
            "`cargo metadata` reported no target directory",
        ),
    ];
    for (error, words) in said {
        assert_eq!(error.message(), words);
    }
    assert_eq!(Error::DestinationExists(p()).worded("X", "Y"), "X already exists");
    assert_eq!(
        Error::SourceMissing(FsPath::parse(b"/\xff")).message(),
        "no target directory at /\u{fffd}"
    );
}
