//! What a reader can make out of what is said.

use crate::describe::{
    abandoned_among, adds_up, freed_by, partial_lines, probe_line, probes_lines, pruned_lines,
    seeded_lines, shown_tree, total_lines, tree_lines, trees_lines, weight_lines, ShownTree,
};
use crate::error::Error;
use crate::outside::utf8_lossy;
use crate::path::path_text;
use crate::prune::{Report as PruneReport, State, Tree, Weight};
use crate::seed::{Report, Strategy};
use crate::text::{ago_text, bytes_text, decimal, right_aligned};
use vstd::prelude::*;
use vstd::utf8::encode_utf8;

verus! {

/// A seeding is said to have gone to its destination, in one of two ways; how
/// many files were shared and copied and how large they are, how many directories
/// were made and how many locks were held is always said; symlinks and dropped
/// directories are spoken of if and only if there are any.
pub proof fn law_what_is_said_of_a_seeding(report: Report, dest: Seq<char>)
    ensures
        ({
            let lines = seeded_lines(report, dest);
            let links: int = if report.symlinks > 0 {
                1
            } else {
                0
            };
            let dropped: int = if report.incremental_dropped > 0 {
                1
            } else {
                0
            };
            &&& lines.len() == 5 + links + dropped
            &&& report.strategy == Strategy::Clone ==> lines[0] == "seeded "@ + dest + " by "@
                + "cloning blocks"@
            &&& report.strategy == Strategy::LinkAndCopy ==> lines[0] == "seeded "@ + dest
                + " by "@ + "linking what is safe to share, copying the rest"@
            &&& lines[1] == "  shared  "@ + right_aligned(decimal(report.shared as nat), 9)
                + " files  "@ + right_aligned(bytes_text(report.shared_bytes), 10)
            &&& lines[2] == "  copied  "@ + right_aligned(decimal(report.copied as nat), 9)
                + " files  "@ + right_aligned(bytes_text(report.copied_bytes), 10)
            &&& lines[3] == "  dirs    "@ + right_aligned(decimal(report.dirs as nat), 9)
            &&& lines[4] == "  locks   "@ + right_aligned(
                decimal(report.build_locks_held as nat),
                9,
            ) + " of Cargo's build locks held while reading"@
            &&& links == 1 ==> lines[5] == "  links   "@ + right_aligned(
                decimal(report.symlinks as nat),
                9,
            )
            &&& dropped == 1 ==> lines[5 + links] == "  dropped "@ + right_aligned(
                decimal(report.incremental_dropped as nat),
                9,
            ) + " incremental directories (Cargo rebuilds these)"@
        }),
{
}

/// What a tree gives back is unknown if and only if what is shared of it is, and
/// else is at most what it weighs less what is shared; that something is shared
/// is said if and only if something is.
pub proof fn law_what_is_said_of_a_weight(weight: Weight)
    ensures
        ({
            let lines = weight_lines(weight);
            match weight.shared {
                None => lines == seq![
                    "  frees      unknown: sharing cannot be accounted on this platform"@,
                ],
                Some(shared) => {
                    let rest = if shared <= weight.total {
                        (weight.total - shared) as u64
                    } else {
                        0u64
                    };
                    &&& lines.len() == if shared == 0 {
                        1int
                    } else {
                        2int
                    }
                    &&& shared > 0 ==> lines[0] == "  shared     "@ + bytes_text(shared)
                        + " of that is a second name for a file another tree also has"@
                    &&& lines.last() == "  frees      at most "@ + bytes_text(rest)
                },
            }
        }),
{
}

/// A tree that has landed is said to be in use, and only its marker is spoken of.
/// Of every other it is said where it is, what it was seeded from and for, who
/// wrote it and when, what it holds, what it gives back, and last what became of
/// it.
pub proof fn law_what_is_said_of_a_tree(tree: Tree, names: ShownTree, remove: bool, now: u64)
    ensures
        ({
            let lines = tree_lines(tree, names, remove, now);
            let weighed = weight_lines(tree.weight);
            if tree.state == State::Landed {
                &&& lines.len() == 3
                &&& lines[0] == "stale marker "@ + names.marker
                &&& lines[1] == "  for        a tree that arrived: this is a target directory in use"@
                &&& tree.removed ==> lines[2] == "  status     "@
                    + "marker removed; the directory is untouched"@
                &&& !tree.removed ==> lines[2] == "  status     "@
                    + "left alone; pass --remove to clear the marker"@
            } else {
                &&& lines.len() == 6 + weighed.len()
                &&& lines[0] == "staged tree  "@ + names.staging
                &&& lines[1] == "  from       "@ + names.src
                &&& lines[2] == "  for        "@ + names.dest
                &&& lines[3] == "  written    by pid "@ + decimal(tree.marker.pid as nat) + " "@
                    + ago_text(now, tree.marker.started_at) + ", cargo-shared-target "@
                    + tree.marker.version@
                &&& lines[4] == "  holds      "@ + decimal(tree.weight.files as nat) + " files  "@
                    + bytes_text(tree.weight.total)
                &&& lines.subrange(5, 5 + weighed.len() as int) == weighed
                &&& lines.last() == "  status     "@ + match tree.state {
                    State::Building => "left alone: a seeding is running here"@,
                    State::Undecidable =>
                        "left alone: this platform cannot say whether a run is still going"@,
                    _ => if tree.removed {
                        "removed"@
                    } else if remove {
                        "left alone: removing it failed"@
                    } else {
                        "left alone; pass --remove to take it"@
                    },
                }
            }
        }),
{
    let lines = tree_lines(tree, names, remove, now);
    let weighed = weight_lines(tree.weight);
    if tree.state != State::Landed {
        assert(lines.subrange(5, 5 + weighed.len() as int) =~= weighed);
    }
}

/// A tree is shown by its own path, that of its marker in it, and the two paths
/// that its marker names.
pub proof fn law_how_a_tree_is_shown(tree: Tree)
    ensures
        shown_tree(tree).staging == utf8_lossy(tree.staging.spelling()),
        shown_tree(tree).marker == utf8_lossy(
            path_text(tree.staging@.push(encode_utf8(".cargo-shared-target-staging"@))),
        ),
        shown_tree(tree).src == utf8_lossy(tree.marker.src.spelling()),
        shown_tree(tree).dest == utf8_lossy(tree.marker.dest.spelling()),
{
}

/// What the abandoned trees are together: as many as are abandoned. What they
/// give back is known if and only if it is known of each of them, and is then
/// what each weighs less what is shared of it, added up.
pub proof fn law_what_abandoned_trees_come_to(trees: Seq<Tree>)
    ensures
        ({
            let abandoned = trees.filter(|t: Tree| t.state == State::Abandoned);
            &&& abandoned_among(trees) == abandoned.len()
            &&& freed_by(trees) is Some <==> forall|i: int|
                0 <= i < abandoned.len() ==> (#[trigger] abandoned[i]).weight.shared is Some
            &&& freed_by(trees) matches Some(freed) ==> freed == abandoned.fold_left(
                0int,
                |sum: int, t: Tree|
                    sum + if t.weight.shared->0 <= t.weight.total {
                        t.weight.total - t.weight.shared->0
                    } else {
                        0
                    },
            )
        }),
    decreases trees.len(),
{
    let is_abandoned = |t: Tree| t.state == State::Abandoned;
    let add = |sum: int, t: Tree|
        sum + if t.weight.shared->0 <= t.weight.total {
            t.weight.total - t.weight.shared->0
        } else {
            0
        };
    reveal(Seq::filter);
    if trees.len() > 0 {
        let before = trees.drop_last();
        law_what_abandoned_trees_come_to(before);
        let fewer = before.filter(is_abandoned);
        let all = trees.filter(is_abandoned);
        if is_abandoned(trees.last()) {
            assert(all == fewer.push(trees.last()));
            assert(all.drop_last() =~= fewer);
            assert(all.last() == trees.last());
            assert forall|i: int| 0 <= i < fewer.len() implies all[i] == #[trigger] fewer[i] by {}
            if freed_by(trees) is Some {
                assert forall|i: int| 0 <= i < all.len() implies (
                #[trigger] all[i]).weight.shared is Some by {
                    if i < fewer.len() {
                        assert(all[i] == fewer[i]);
                    }
                }
            }
            if forall|i: int| 0 <= i < all.len() ==> (#[trigger] all[i]).weight.shared is Some {
                assert(all[all.len() - 1].weight.shared is Some);
                assert forall|i: int| 0 <= i < fewer.len() implies (
                #[trigger] fewer[i]).weight.shared is Some by {
                    assert(all[i].weight.shared is Some);
                }
            }
            reveal_with_fuel(Seq::fold_left, 2);
        } else {
            assert(all == fewer);
        }
    }
}

/// Abandoned trees are spoken of together if and only if there are any; in the
/// singular for one; and what they give back is said where it is known, as given
/// back if they were to be removed, and else as what would be.
pub proof fn law_what_is_said_of_the_abandoned(trees: Seq<Tree>, remove: bool)
    ensures
        ({
            let lines = total_lines(trees, remove);
            let count = abandoned_among(trees);
            let said = decimal(count) + " abandoned "@ + if count == 1 {
                "tree"@
            } else {
                "trees"@
            };
            if count == 0 {
                lines.len() == 0
            } else {
                &&& lines.len() == 1
                &&& freed_by(trees) is None ==> lines[0] == said
                &&& freed_by(trees) matches Some(freed) ==> {
                    &&& remove ==> lines[0] == said + ", "@ + "freed"@ + " at most "@ + bytes_text(
                        freed as u64,
                    )
                    &&& !remove ==> lines[0] == said + ", "@ + "would free"@ + " at most "@
                        + bytes_text(freed as u64)
                }
            }
        }),
{
    reveal_strlit("tree");
    reveal_strlit("s");
    reveal_strlit("trees");
    assert("tree"@ + "s"@ =~= "trees"@);
}

/// What is said of trees is said of each in turn, with an empty line behind it.
pub proof fn law_trees_are_spoken_of_in_turn(trees: Seq<Tree>, tree: Tree, remove: bool, now: u64)
    ensures
        trees_lines(Seq::empty(), remove, now).len() == 0,
        trees_lines(trees.push(tree), remove, now) == trees_lines(trees, remove, now) + tree_lines(
            tree,
            shown_tree(tree),
            remove,
            now,
        ) + seq![""@],
{
    assert(trees.push(tree).drop_last() =~= trees);
    assert(trees_lines(trees.push(tree), remove, now) =~= trees_lines(trees, remove, now)
        + tree_lines(tree, shown_tree(tree), remove, now) + seq![""@]);
}

/// A pruning that found nothing says so in one line. One that found something
/// speaks of the trees, of each probe in a line, and of the abandoned together.
pub proof fn law_what_is_said_of_a_pruning(
    root: Seq<u8>,
    report: PruneReport,
    remove: bool,
    now: u64,
)
    ensures
        ({
            let lines = pruned_lines(root, report, remove, now);
            let trees = trees_lines(report.trees@, remove, now);
            let total = total_lines(report.trees@, remove);
            if report.trees@.len() == 0 && report.probes@.len() == 0 {
                lines == seq!["nothing left behind under "@ + utf8_lossy(root)]
            } else {
                &&& lines.len() == trees.len() + report.probes@.len() + total.len()
                &&& lines.take(trees.len() as int) == trees
                &&& lines.skip((trees.len() + report.probes@.len()) as int) == total
                &&& forall|i: int|
                    0 <= i < report.probes@.len() ==> {
                        let probe = #[trigger] report.probes@[i];
                        let line = lines[trees.len() + i];
                        &&& probe.removed ==> line == "probe        "@ + utf8_lossy(
                            probe.path.spelling(),
                        ) + "  (removed)"@
                        &&& !probe.removed ==> line == "probe        "@ + utf8_lossy(
                            probe.path.spelling(),
                        )
                    }
            }
        }),
{
    let lines = pruned_lines(root, report, remove, now);
    let trees = trees_lines(report.trees@, remove, now);
    let total = total_lines(report.trees@, remove);
    let probes = probes_lines(report.probes@);
    reveal_strlit("");
    if report.trees@.len() > 0 || report.probes@.len() > 0 {
        assert(lines.take(trees.len() as int) =~= trees);
        assert(lines.skip((trees.len() + report.probes@.len()) as int) =~= total);
        assert forall|i: int| 0 <= i < report.probes@.len() implies {
            let probe = #[trigger] report.probes@[i];
            lines[trees.len() + i] == probe_line(utf8_lossy(probe.path.spelling()), probe.removed)
        } by {
            assert(lines[trees.len() + i] == probes[i]);
        }
        assert forall|i: int| 0 <= i < report.probes@.len() implies {
            let probe = #[trigger] report.probes@[i];
            !probe.removed ==> lines[trees.len() + i] == "probe        "@ + utf8_lossy(
                probe.path.spelling(),
            )
        } by {
            let shown = utf8_lossy(report.probes@[i].path.spelling());
            assert("probe        "@ + shown + ""@ =~= "probe        "@ + shown);
        }
    }
}

/// Of a tree that a failure left it is said where it is, and how to look at it.
pub proof fn law_what_is_said_of_a_partial_tree(partial: Seq<char>, parent: Seq<char>)
    ensures
        partial_lines(partial, parent).len() == 2,
        partial_lines(partial, parent)[0] == "note: a partial tree remains at "@ + partial,
        partial_lines(partial, parent)[1] == "note: `cargo shared-target --prune "@ + parent
            + "` says what it holds"@,
{
}

/// A refusal says what is refused, and what to do about it where something can be
/// done; a failure says what was being done, and to what.
pub proof fn law_an_error_in_words(e: Error, path: Seq<char>, other: Seq<char>)
    ensures
        ({
            let said = e.wording(path, other);
            match e {
                Error::SourceMissing(_) => said == "no target directory at "@ + path,
                Error::DestinationExists(_) => said == path + " already exists"@,
                Error::StagingExists(_) => said == "a previous run left a partial tree at "@ + path
                    + "; remove it and run again"@,
                Error::StagingBusy(_) => said == "another seeding holds "@ + path
                    + "; give each run a staging directory of its own"@,
                Error::SourceBusy { .. } => said == "a build is running here: "@ + path
                    + " is locked; seed between builds"@,
                Error::DestinationHasNoParent(_) => said == path
                    + " has no parent directory to be created in"@,
                Error::DestinationInsideSource { .. } => said == path + " is inside "@ + other
                    + ", which is the directory being read"@,
                Error::CrossDevice { .. } => said == path + " and "@ + other
                    + " are on different filesystems, so there is nothing to share between them"@,
                Error::Io { op, .. } => said == op@ + " "@ + path,
                Error::Walk { .. } => said == "walking "@ + path,
                Error::MarkerWrite { .. } => said == "writing the staging marker "@ + path,
                Error::MarkerUnreadable { .. } => said == path
                    + " is not a staging marker that can be read"@,
                Error::MarkerIncomplete(_) => said == path
                    + " does not say what was being seeded, or where it was going"@,
                Error::PruneRootMissing(_) => said == "no directory to search at "@ + path,
                Error::MetadataSpawn(_) => said == "running `cargo metadata`"@,
                Error::MetadataFailed(text) => said == "`cargo metadata` failed: "@ + text@,
                Error::MetadataParse(_) => said == "reading the output of `cargo metadata`"@,
                Error::MetadataNoTargetDir => said
                    == "`cargo metadata` reported no target directory"@,
            }
        }),
{
}

/// The path that an error is about is the one it carries; of two, the one that is
/// refused for where the other is.
pub proof fn law_what_an_error_is_about(e: Error)
    ensures
        match e {
            Error::SourceMissing(path) => e.subject() == path.spelling(),
            Error::DestinationExists(path) => e.subject() == path.spelling(),
            Error::StagingExists(path) => e.subject() == path.spelling(),
            Error::StagingBusy(path) => e.subject() == path.spelling(),
            Error::SourceBusy { path } => e.subject() == path.spelling(),
            Error::DestinationHasNoParent(path) => e.subject() == path.spelling(),
            Error::DestinationInsideSource { src, dest } => e.subject() == dest.spelling()
                && e.object() == src.spelling(),
            Error::CrossDevice { src, dest } => e.subject() == src.spelling() && e.object()
                == dest.spelling(),
            Error::Io { path, .. } => e.subject() == path.spelling(),
            Error::Walk { path, .. } => e.subject() == path.spelling(),
            Error::MarkerWrite { path, .. } => e.subject() == path.spelling(),
            Error::MarkerUnreadable { path, .. } => e.subject() == path.spelling(),
            Error::MarkerIncomplete(path) => e.subject() == path.spelling(),
            Error::PruneRootMissing(path) => e.subject() == path.spelling(),
            _ => true,
        },
{
}

proof fn lemma_freed_is_part(trees: Seq<Tree>)
    ensures
        freed_by(trees) matches Some(freed) ==> freed <= trees.fold_left(
            0int,
            |sum: int, t: Tree| sum + t.weight.total,
        ),
    decreases trees.len(),
{
    if trees.len() > 0 {
        lemma_freed_is_part(trees.drop_last());
    }
}

proof fn lemma_totals_grow(trees: Seq<Tree>, k: int)
    requires
        0 <= k <= trees.len(),
    ensures
        trees.take(k).fold_left(0int, |sum: int, t: Tree| sum + t.weight.total) <= trees.fold_left(
            0int,
            |sum: int, t: Tree| sum + t.weight.total,
        ),
    decreases trees.len(),
{
    if k < trees.len() {
        lemma_totals_grow(trees.drop_last(), k);
        assert(trees.drop_last().take(k) =~= trees.take(k));
    } else {
        assert(trees.take(k) =~= trees);
    }
}

/// What the abandoned trees give back can be added up wherever what all the trees
/// weigh can.
pub proof fn law_what_is_given_back_adds_up(trees: Seq<Tree>)
    requires
        trees.fold_left(0int, |sum: int, t: Tree| sum + t.weight.total) <= u64::MAX,
    ensures
        adds_up(trees),
{
    assert forall|k: int| 0 <= k <= trees.len() implies (#[trigger] freed_by(
        trees.take(k),
    ) matches Some(freed) ==> freed <= u64::MAX) by {
        lemma_freed_is_part(trees.take(k));
        lemma_totals_grow(trees, k);
    }
}

} // verus!
