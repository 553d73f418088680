//! What a reader is told of a run, line by line.

use crate::error::{show, shown};
use crate::path::{os, parent_parts, path_text, FsPath};
use crate::prune::{Probe, Report as PruneReport, State, Tree, Weight};
use crate::seed::{Report, Strategy};
use crate::staging::MARKER;
use crate::text::{
    ago, ago_text, align_right, bytes, bytes_text, decimal, number, plural, plural_text,
    right_aligned,
};
use vstd::prelude::*;
use vstd::string::*;

verus! {

/// The texts of some lines.
pub open spec fn texts(lines: Seq<String>) -> Seq<Seq<char>> {
    Seq::new(lines.len(), |i: int| lines[i]@)
}

fn push_line(lines: &mut Vec<String>, line: String)
    ensures
        texts(final(lines)@) == texts(old(lines)@).push(line@),
{
    lines.push(line);
    assert(texts(lines@) =~= texts(old(lines)@).push(line@));
}

fn push_lines(lines: &mut Vec<String>, more: &Vec<String>)
    ensures
        texts(final(lines)@) == texts(old(lines)@) + texts(more@),
{
    let mut i: usize = 0;
    assert(texts(lines@) =~= texts(old(lines)@) + texts(more@).take(0));
    while i < more.len()
        invariant
            i <= more.len(),
            texts(lines@) == texts(old(lines)@) + texts(more@).take(i as int),
        decreases more.len() - i,
    {
        push_line(lines, more[i].clone());
        i = i + 1;
        assert(texts(lines@) =~= texts(old(lines)@) + texts(more@).take(i as int));
    }
    assert(texts(more@).take(more@.len() as int) =~= texts(more@));
}

fn no_lines() -> (r: Vec<String>)
    ensures
        texts(r@) == Seq::<Seq<char>>::empty(),
{
    let lines: Vec<String> = Vec::new();
    assert(texts(lines@) =~= Seq::<Seq<char>>::empty());
    lines
}

/// A number in its column.
pub open spec fn in_column(n: nat) -> Seq<char> {
    right_aligned(decimal(n), 9)
}

/// How many files were dealt with in that way, and how large they are together.
pub open spec fn files_line(how: Seq<char>, files: u64, size: u64) -> Seq<char> {
    how + in_column(files as nat) + " files  "@ + right_aligned(bytes_text(size), 10)
}

fn column(n: u64) -> (r: String)
    ensures
        r@ == in_column(n as nat),
{
    align_right(number(n).as_str(), 9)
}

fn files(how: &str, count: u64, size: u64) -> (r: String)
    ensures
        r@ == files_line(how@, count, size),
{
    let mut line = String::from_str(how);
    line.append(column(count).as_str());
    line.append(" files  ");
    line.append(align_right(bytes(size).as_str(), 10).as_str());
    line
}

fn counted(how: &str, n: u64, what: &str) -> (r: String)
    ensures
        r@ == how@ + in_column(n as nat) + what@,
{
    let mut line = String::from_str(how);
    line.append(column(n).as_str());
    line.append(what);
    line
}

/// How a tree was seeded.
pub open spec fn how_seeded(strategy: Strategy) -> Seq<char> {
    match strategy {
        Strategy::Clone => "cloning blocks"@,
        Strategy::LinkAndCopy => "linking what is safe to share, copying the rest"@,
    }
}

/// What is said of a seeding whose destination is shown as `dest`.
///
/// The locks are said either way. Zero is what a target directory nothing has
/// built in looks like, and it is also what a Cargo that has moved its lock
/// looks like; the number is reported so the difference is the reader's to make.
pub open spec fn seeded_lines(report: Report, dest: Seq<char>) -> Seq<Seq<char>> {
    seq![
        "seeded "@ + dest + " by "@ + how_seeded(report.strategy),
        files_line("  shared  "@, report.shared, report.shared_bytes),
        files_line("  copied  "@, report.copied, report.copied_bytes),
        "  dirs    "@ + in_column(report.dirs as nat),
        "  locks   "@ + in_column(report.build_locks_held as nat)
            + " of Cargo's build locks held while reading"@,
    ] + (if report.symlinks > 0 {
        seq!["  links   "@ + in_column(report.symlinks as nat)]
    } else {
        Seq::empty()
    }) + (if report.incremental_dropped > 0 {
        seq![
            "  dropped "@ + in_column(report.incremental_dropped as nat)
                + " incremental directories (Cargo rebuilds these)"@,
        ]
    } else {
        Seq::empty()
    })
}

/// Describes a seeding.
pub fn describe(report: &Report) -> (r: Vec<String>)
    ensures
        texts(r@) == seeded_lines(*report, shown(report.dest.spelling())),
{
    describe_as(report, show(&report.dest).as_str())
}

/// Describes a seeding whose destination is shown as `dest`.
pub fn describe_as(report: &Report, dest: &str) -> (r: Vec<String>)
    ensures
        texts(r@) == seeded_lines(*report, dest@),
{
    proof {
        reveal_strlit("");
    }
    let mut lines = no_lines();
    let mut first = String::from_str("seeded ");
    first.append(dest);
    first.append(" by ");
    first.append(
        match report.strategy {
            Strategy::Clone => "cloning blocks",
            Strategy::LinkAndCopy => "linking what is safe to share, copying the rest",
        },
    );
    push_line(&mut lines, first);
    push_line(&mut lines, files("  shared  ", report.shared, report.shared_bytes));
    push_line(&mut lines, files("  copied  ", report.copied, report.copied_bytes));
    let dirs = counted("  dirs    ", report.dirs, "");
    assert(dirs@ =~= "  dirs    "@ + in_column(report.dirs as nat));
    push_line(&mut lines, dirs);
    push_line(
        &mut lines,
        counted(
            "  locks   ",
            report.build_locks_held as u64,
            " of Cargo's build locks held while reading",
        ),
    );
    if report.symlinks > 0 {
        let links = counted("  links   ", report.symlinks, "");
        assert(links@ =~= "  links   "@ + in_column(report.symlinks as nat));
        push_line(&mut lines, links);
    }
    if report.incremental_dropped > 0 {
        push_line(
            &mut lines,
            counted(
                "  dropped ",
                report.incremental_dropped,
                " incremental directories (Cargo rebuilds these)",
            ),
        );
    }
    assert(texts(lines@) =~= seeded_lines(*report, dest@));
    lines
}

/// What is said of what removing a tree would give back, which is not what it
/// weighs.
///
/// Every byte of a cloned file has a name of its own, so on a file system that
/// clones blocks nothing is shared by name and the last line is an upper bound.
pub open spec fn weight_lines(weight: Weight) -> Seq<Seq<char>> {
    match (weight.shared, weight.frees()) {
        (Some(shared), Some(freeable)) => (if shared > 0 {
            seq![
                "  shared     "@ + bytes_text(shared)
                    + " of that is a second name for a file another tree also has"@,
            ]
        } else {
            Seq::empty()
        }).push("  frees      at most "@ + bytes_text(freeable)),
        _ => seq!["  frees      unknown: sharing cannot be accounted on this platform"@],
    }
}

/// Describes what removing a tree would give back.
pub fn describe_weight(weight: &Weight) -> (r: Vec<String>)
    ensures
        texts(r@) == weight_lines(*weight),
{
    let mut lines = no_lines();
    match (weight.shared, weight.freeable()) {
        (Some(shared), Some(freeable)) => {
            if shared > 0 {
                let mut line = String::from_str("  shared     ");
                line.append(bytes(shared).as_str());
                line.append(" of that is a second name for a file another tree also has");
                push_line(&mut lines, line);
            }
            let mut line = String::from_str("  frees      at most ");
            line.append(bytes(freeable).as_str());
            push_line(&mut lines, line);
        },
        _ => {
            push_line(
                &mut lines,
                String::from_str("  frees      unknown: sharing cannot be accounted on this platform"),
            );
        },
    }
    assert(texts(lines@) =~= weight_lines(*weight));
    lines
}

/// What became of a tree that has not landed.
pub open spec fn status_text(state: State, removed: bool, remove: bool) -> Seq<char> {
    match state {
        State::Abandoned => if removed {
            "removed"@
        } else if remove {
            "left alone: removing it failed"@
        } else {
            "left alone; pass --remove to take it"@
        },
        State::Building => "left alone: a seeding is running here"@,
        _ => "left alone: this platform cannot say whether a run is still going"@,
    }
}

/// The paths of a tree as they are shown.
#[derive(Debug)]
pub struct TreeNames {
    pub staging: String,
    /// The marker in the tree.
    pub marker: String,
    /// What the marker says it was seeded from.
    pub src: String,
    /// What the marker says it is bound for.
    pub dest: String,
}

/// The paths of a tree as they are shown, as contracts speak of them.
pub struct ShownTree {
    pub staging: Seq<char>,
    pub marker: Seq<char>,
    pub src: Seq<char>,
    pub dest: Seq<char>,
}

impl TreeNames {
    /// The texts of the paths.
    pub open spec fn view(&self) -> ShownTree {
        ShownTree {
            staging: self.staging@,
            marker: self.marker@,
            src: self.src@,
            dest: self.dest@,
        }
    }
}

/// How the paths of a tree are shown.
pub open spec fn shown_tree(tree: Tree) -> ShownTree {
    ShownTree {
        staging: shown(tree.staging.spelling()),
        marker: shown(path_text(tree.staging@.push(os(MARKER)))),
        src: shown(tree.marker.src.spelling()),
        dest: shown(tree.marker.dest.spelling()),
    }
}

/// What is said of a tree whose paths are shown so.
///
/// A landed tree is a target directory with a marker still on it, and saying
/// what it weighs would read as an offer to delete it.
pub open spec fn tree_lines(tree: Tree, names: ShownTree, remove: bool, now: u64) -> Seq<
    Seq<char>,
> {
    if tree.state == State::Landed {
        seq![
            "stale marker "@ + names.marker,
            "  for        a tree that arrived: this is a target directory in use"@,
            "  status     "@ + if tree.removed {
                "marker removed; the directory is untouched"@
            } else {
                "left alone; pass --remove to clear the marker"@
            },
        ]
    } else {
        seq![
            "staged tree  "@ + names.staging,
            "  from       "@ + names.src,
            "  for        "@ + names.dest,
            "  written    by pid "@ + decimal(tree.marker.pid as nat) + " "@ + ago_text(
                now,
                tree.marker.started_at,
            ) + ", cargo-shared-target "@ + tree.marker.version@,
            "  holds      "@ + decimal(tree.weight.files as nat) + " files  "@ + bytes_text(
                tree.weight.total,
            ),
        ] + weight_lines(tree.weight) + seq![
            "  status     "@ + status_text(tree.state, tree.removed, remove),
        ]
    }
}

fn pair(before: &str, after: &str) -> (r: String)
    ensures
        r@ == before@ + after@,
{
    let mut line = String::from_str(before);
    line.append(after);
    line
}

/// Describes a tree whose paths are shown so, at the time `now`.
pub fn describe_tree_as(tree: &Tree, names: &TreeNames, remove: bool, now: u64) -> (r: Vec<String>)
    ensures
        texts(r@) == tree_lines(*tree, names@, remove, now),
{
    let mut lines = no_lines();
    if tree.state == State::Landed {
        push_line(&mut lines, pair("stale marker ", names.marker.as_str()));
        push_line(
            &mut lines,
            String::from_str("  for        a tree that arrived: this is a target directory in use"),
        );
        push_line(
            &mut lines,
            pair(
                "  status     ",
                if tree.removed {
                    "marker removed; the directory is untouched"
                } else {
                    "left alone; pass --remove to clear the marker"
                },
            ),
        );
        assert(texts(lines@) =~= tree_lines(*tree, names@, remove, now));
        return lines;
    }
    push_line(&mut lines, pair("staged tree  ", names.staging.as_str()));
    push_line(&mut lines, pair("  from       ", names.src.as_str()));
    push_line(&mut lines, pair("  for        ", names.dest.as_str()));
    let mut written = pair("  written    by pid ", number(tree.marker.pid as u64).as_str());
    written.append(" ");
    written.append(ago(now, tree.marker.started_at).as_str());
    written.append(", cargo-shared-target ");
    written.append(tree.marker.version.as_str());
    push_line(&mut lines, written);
    let mut holds = pair("  holds      ", number(tree.weight.files).as_str());
    holds.append(" files  ");
    holds.append(bytes(tree.weight.total).as_str());
    push_line(&mut lines, holds);
    push_lines(&mut lines, &describe_weight(&tree.weight));
    let status = match tree.state {
        State::Abandoned => {
            if tree.removed {
                "removed"
            } else if remove {
                "left alone: removing it failed"
            } else {
                "left alone; pass --remove to take it"
            }
        },
        State::Building => "left alone: a seeding is running here",
        _ => "left alone: this platform cannot say whether a run is still going",
    };
    push_line(&mut lines, pair("  status     ", status));
    assert(texts(lines@) =~= tree_lines(*tree, names@, remove, now));
    lines
}

/// Describes a tree, at the time `now`.
pub fn describe_tree(tree: &Tree, remove: bool, now: u64) -> (r: Vec<String>)
    ensures
        texts(r@) == tree_lines(*tree, shown_tree(*tree), remove, now),
{
    let names = TreeNames {
        staging: show(&tree.staging),
        marker: show(&tree.staging.join(MARKER)),
        src: show(&tree.marker.src),
        dest: show(&tree.marker.dest),
    };
    describe_tree_as(tree, &names, remove, now)
}

/// What is said of a probe that is shown as `path`.
pub open spec fn probe_line(path: Seq<char>, removed: bool) -> Seq<char> {
    "probe        "@ + path + if removed {
        "  (removed)"@
    } else {
        ""@
    }
}

/// Describes a probe that is shown as `path`.
pub fn describe_probe(path: &str, removed: bool) -> (r: String)
    ensures
        r@ == probe_line(path@, removed),
{
    let mut line = pair("probe        ", path);
    line.append(
        if removed {
            "  (removed)"
        } else {
            ""
        },
    );
    line
}

/// How many of the trees are abandoned.
pub open spec fn abandoned_among(trees: Seq<Tree>) -> nat
    decreases trees.len(),
{
    if trees.len() == 0 {
        0
    } else {
        abandoned_among(trees.drop_last()) + if trees.last().state == State::Abandoned {
            1nat
        } else {
            0nat
        }
    }
}

/// What removing the abandoned trees gives back, where it is known of each.
pub open spec fn freed_by(trees: Seq<Tree>) -> Option<nat>
    decreases trees.len(),
{
    if trees.len() == 0 {
        Some(0)
    } else if trees.last().state != State::Abandoned {
        freed_by(trees.drop_last())
    } else {
        match (freed_by(trees.drop_last()), trees.last().weight.frees()) {
            (Some(before), Some(freed)) => Some(before + freed as nat),
            _ => None,
        }
    }
}

/// What the abandoned trees give back can be added up, tree by tree.
pub open spec fn adds_up(trees: Seq<Tree>) -> bool {
    forall|k: int|
        0 <= k <= trees.len() ==> (#[trigger] freed_by(trees.take(k)) matches Some(freed) ==> freed
            <= u64::MAX)
}

/// Whether what the abandoned trees give back can be added up.
pub fn can_add_up(trees: &Vec<Tree>) -> (r: bool)
    ensures
        r == adds_up(trees@),
{
    let mut freed: Option<u64> = Some(0);
    let mut i: usize = 0;
    assert(trees@.take(0) =~= Seq::empty());
    while i < trees.len()
        invariant
            i <= trees.len(),
            freed is Some == freed_by(trees@.take(i as int)) is Some,
            freed matches Some(sum) ==> freed_by(trees@.take(i as int)) == Some(sum as nat),
            forall|k: int|
                0 <= k <= i ==> (#[trigger] freed_by(trees@.take(k)) matches Some(freed) ==> freed
                    <= u64::MAX),
        decreases trees.len() - i,
    {
        let tree = &trees[i];
        assert(trees@.take(i + 1).drop_last() =~= trees@.take(i as int));
        assert(trees@.take(i + 1).last() == *tree);
        if tree.state == State::Abandoned {
            freed = match (freed, tree.weight.freeable()) {
                (Some(sum), Some(more)) => {
                    if more > u64::MAX - sum {
                        assert(freed_by(trees@.take(i + 1)) is Some);
                        return false;
                    }
                    Some(sum + more)
                },
                _ => None,
            };
        }
        i = i + 1;
    }
    true
}

/// What is said of the abandoned trees together.
pub open spec fn total_lines(trees: Seq<Tree>, remove: bool) -> Seq<Seq<char>> {
    let count = abandoned_among(trees);
    let said = decimal(count) + " abandoned "@ + plural_text(count, "tree"@);
    if count == 0 {
        Seq::empty()
    } else {
        match freed_by(trees) {
            Some(freed) => seq![
                said + ", "@ + if remove {
                    "freed"@
                } else {
                    "would free"@
                } + " at most "@ + bytes_text(freed as u64),
            ],
            None => seq![said],
        }
    }
}

/// Describes the abandoned trees together.
pub fn describe_total(report: &PruneReport, remove: bool) -> (r: Vec<String>)
    requires
        adds_up(report.trees@),
    ensures
        texts(r@) == total_lines(report.trees@, remove),
{
    let trees = &report.trees;
    let mut freed: Option<u64> = Some(0);
    let mut count: usize = 0;
    let mut i: usize = 0;
    assert(trees@.take(0) =~= Seq::empty());
    while i < trees.len()
        invariant
            i <= trees.len(),
            count <= i,
            count == abandoned_among(trees@.take(i as int)),
            freed is Some == freed_by(trees@.take(i as int)) is Some,
            freed matches Some(sum) ==> freed_by(trees@.take(i as int)) == Some(sum as nat),
            adds_up(trees@),
        decreases trees.len() - i,
    {
        let tree = &trees[i];
        assert(trees@.take(i + 1).drop_last() =~= trees@.take(i as int));
        assert(trees@.take(i + 1).last() == *tree);
        if tree.state == State::Abandoned {
            count = count + 1;
            assert(freed_by(trees@.take(i + 1)) matches Some(sum) ==> sum <= u64::MAX);
            freed = match (freed, tree.weight.freeable()) {
                (Some(sum), Some(more)) => Some(sum + more),
                _ => None,
            };
        }
        i = i + 1;
    }
    assert(trees@.take(trees@.len() as int) =~= trees@);
    let mut lines = no_lines();
    if count == 0 {
        return lines;
    }
    let mut line = pair(number(count as u64).as_str(), " abandoned ");
    line.append(plural(count, "tree").as_str());
    if let Some(freed) = freed {
        line.append(", ");
        line.append(
            if remove {
                "freed"
            } else {
                "would free"
            },
        );
        line.append(" at most ");
        line.append(bytes(freed).as_str());
    }
    push_line(&mut lines, line);
    assert(texts(lines@) =~= total_lines(report.trees@, remove));
    lines
}

/// What is said of trees, with an empty line behind each.
pub open spec fn trees_lines(trees: Seq<Tree>, remove: bool, now: u64) -> Seq<Seq<char>>
    decreases trees.len(),
{
    if trees.len() == 0 {
        Seq::empty()
    } else {
        trees_lines(trees.drop_last(), remove, now) + tree_lines(
            trees.last(),
            shown_tree(trees.last()),
            remove,
            now,
        ).push(""@)
    }
}

/// What is said of probes.
pub open spec fn probes_lines(probes: Seq<Probe>) -> Seq<Seq<char>> {
    Seq::new(probes.len(), |i: int| probe_line(shown(probes[i].path.spelling()), probes[i].removed))
}

/// What is said of a pruning.
pub open spec fn pruned_lines(
    root: Seq<u8>,
    report: PruneReport,
    remove: bool,
    now: u64,
) -> Seq<Seq<char>> {
    if report.trees@.len() == 0 && report.probes@.len() == 0 {
        seq!["nothing left behind under "@ + shown(root)]
    } else {
        trees_lines(report.trees@, remove, now) + probes_lines(report.probes@) + total_lines(
            report.trees@,
            remove,
        )
    }
}

/// Describes a pruning, at the time `now`.
pub fn describe_prune(root: &FsPath, report: &PruneReport, remove: bool, now: u64) -> (r: Vec<
    String,
>)
    requires
        adds_up(report.trees@),
    ensures
        texts(r@) == pruned_lines(root.spelling(), *report, remove, now),
{
    let mut lines = no_lines();
    if report.is_empty() {
        push_line(&mut lines, pair("nothing left behind under ", show(root).as_str()));
        assert(texts(lines@) =~= pruned_lines(root.spelling(), *report, remove, now));
        return lines;
    }
    let trees = &report.trees;
    let probes = &report.probes;
    let mut i: usize = 0;
    assert(trees@.take(0) =~= Seq::empty());
    while i < trees.len()
        invariant
            i <= trees.len(),
            texts(lines@) == trees_lines(trees@.take(i as int), remove, now),
        decreases trees.len() - i,
    {
        push_lines(&mut lines, &describe_tree(&trees[i], remove, now));
        push_line(&mut lines, String::from_str(""));
        assert(trees@.take(i + 1).drop_last() =~= trees@.take(i as int));
        i = i + 1;
        assert(texts(lines@) =~= trees_lines(trees@.take(i as int), remove, now));
    }
    assert(trees@.take(trees@.len() as int) =~= trees@);
    let ghost so_far = texts(lines@);
    let mut j: usize = 0;
    assert(texts(lines@) =~= so_far + probes_lines(probes@).take(0));
    while j < probes.len()
        invariant
            j <= probes.len(),
            texts(lines@) == so_far + probes_lines(probes@).take(j as int),
        decreases probes.len() - j,
    {
        push_line(&mut lines, describe_probe(show(&probes[j].path).as_str(), probes[j].removed));
        j = j + 1;
        assert(texts(lines@) =~= so_far + probes_lines(probes@).take(j as int));
    }
    assert(probes_lines(probes@).take(probes@.len() as int) =~= probes_lines(probes@));
    push_lines(&mut lines, &describe_total(report, remove));
    lines
}

/// What is said of a tree that a failure left behind, shown as `partial`, in a
/// directory shown as `parent`.
pub open spec fn partial_lines(partial: Seq<char>, parent: Seq<char>) -> Seq<Seq<char>> {
    seq![
        "note: a partial tree remains at "@ + partial,
        "note: `cargo shared-target --prune "@ + parent + "` says what it holds"@,
    ]
}

/// Describes the tree that a failure left behind.
///
/// The bytes are already on the disk by the time this is said, and nothing else
/// will ever mention them.
pub fn describe_partial(partial: &FsPath) -> (r: Vec<String>)
    ensures
        texts(r@) == partial_lines(
            shown(partial.spelling()),
            shown(
                match parent_parts(partial@) {
                    Some(parent) => path_text(parent),
                    None => partial.spelling(),
                },
            ),
        ),
{
    match partial.parent() {
        Some(parent) => describe_partial_as(show(partial).as_str(), show(&parent).as_str()),
        None => describe_partial_as(show(partial).as_str(), show(partial).as_str()),
    }
}

/// Describes the tree that a failure left behind, shown as `partial`, in a
/// directory shown as `parent`.
pub fn describe_partial_as(partial: &str, parent: &str) -> (r: Vec<String>)
    ensures
        texts(r@) == partial_lines(partial@, parent@),
{
    let mut lines = no_lines();
    push_line(&mut lines, pair("note: a partial tree remains at ", partial));
    let mut line = pair("note: `cargo shared-target --prune ", parent);
    line.append("` says what it holds");
    push_line(&mut lines, line);
    assert(texts(lines@) =~= partial_lines(partial@, parent@));
    lines
}

} // verus!
