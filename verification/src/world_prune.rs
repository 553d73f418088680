//! What a pruning does to a file system.

use crate::error::Error;
use crate::outside::json_parse;
use crate::path::{os, parent_parts, within, FsPath};
use crate::probe::{CLONE, SUBJECT};
use crate::protocol::{Answer, Asked, Events, Listed, Platform, Step};
use crate::prune::{
    is_busy_beside, is_busy_neighbour, is_missing, is_probe_file, outcomes, to_probe, to_tree,
    ClearStage, ExamineStage, ExamineStep, Examining, Options, PrunePhase, PruneStep, Pruning,
    Report, State, Tree,
};
use crate::prune_laws::{examines, lemma_fits, lemma_remembers, prunes};
use crate::search::CACHE_TAG;
use crate::staging::{is_read, marker_told, Claim, ClaimStage, MarkerView, MARKER};
use crate::weigh::Weighing;
use crate::world::{does, is_in, is_listing, lives, without, Node, Place, World};
use crate::world_search::{
    blocks, finds_all, fits_world, has_marker, is_left_probe, is_listed, is_open, is_staged,
    lemma_found, lemma_same_nodes, lemma_search_step,
};
use vstd::prelude::*;

verus! {

/// Where the marker of a tree is.
pub open spec fn marker_of(p: Place) -> Place {
    p.push(os(MARKER))
}

/// What the marker of a tree says, where it can be read.
pub open spec fn says(w: World, p: Place) -> Option<MarkerView> {
    match json_parse(w.nodes[marker_of(p)]->File_0) {
        Some(document) => marker_told(document),
        None => None,
    }
}

/// A staged tree that has not landed: a directory with a marker in it that does
/// not name the directory as its destination.
pub open spec fn is_plain_tree(w: World, p: Place) -> bool {
    &&& w.is_dir(p)
    &&& w.holds_file(marker_of(p))
    &&& says(w, p) matches Some(said) ==> said.dest != p
}

/// What is reported of such a tree: a run is writing it where the lock of its
/// marker is held, and else it is abandoned, and removed if that was asked for.
pub open spec fn is_tree_of(w: World, p: Place, remove: bool, tree: Tree) -> bool {
    let busy = w.busy.contains(marker_of(p));
    &&& tree.staging@ == p
    &&& says(w, p) == Some(tree.marker@)
    &&& tree.state == (if busy {
        State::Building
    } else {
        State::Abandoned
    })
    &&& tree.removed == (remove && !busy)
}

/// What is in the file system when those trees were dealt with.
pub open spec fn nodes_with(w: World, p: Place, removed: bool) -> Map<Place, Node> {
    if removed {
        without(w.nodes, set![p])
    } else {
        w.nodes
    }
}

/// The weighing fits the file system.
pub open spec fn weighs_in(t: Weighing, p: Place, w: World) -> bool {
    &&& t.staging@ == p
    &&& !(t.stage is OpenWalk) ==> w.walk.root == p
}

/// The examination fits the file system, which was `w` when it began.
pub open spec fn examines_in(t: Examining, w: World, v: World) -> bool {
    let p = t.staging@;
    let busy = w.busy.contains(marker_of(p));
    &&& v == (World { nodes: v.nodes, walk: v.walk, ..w })
    &&& !(t.stage is Close) ==> v.nodes == w.nodes
    &&& match t.stage {
        ExamineStage::ReadMarker => true,
        ExamineStage::WhereStaged { marker } => says(w, p) == Some(marker@),
        ExamineStage::WhereDest { marker, staged } => says(w, p) == Some(marker@) && (
        staged matches Some(found) && found@ == p),
        ExamineStage::Weigh { marker, weighing } => says(w, p) == Some(marker@) && weighs_in(
            weighing,
            p,
            v,
        ),
        ExamineStage::StillThere { .. } => false,
        ExamineStage::Claim { marker, landed, claiming, .. } => {
            &&& says(w, p) == Some(marker@)
            &&& !landed
            &&& claiming.path@ == marker_of(p)
            &&& match claiming.stage {
                ClaimStage::WhichIsHeld => !busy,
                ClaimStage::WhichIsThere { held } => !busy && held == (w.ids)(marker_of(p)),
                ClaimStage::Close { came } => busy && (came matches Ok(claim) && claim is Building),
                ClaimStage::IsThere => false,
                _ => true,
            }
        },
        ExamineStage::RemoveMarker { .. } => false,
        ExamineStage::RemoveTree { marker, .. } => says(w, p) == Some(marker@) && t.remove && !busy,
        ExamineStage::Close { came } => match came {
            Ok(Some(tree)) => {
                &&& !busy
                &&& is_tree_of(w, p, t.remove, tree)
                &&& v.nodes == nodes_with(w, p, tree.removed)
            },
            Ok(None) => false,
            Err(_) => !busy && t.remove && w.stuck.contains(p),
        },
    }
}

#[verifier::spinoff_prover]
#[verifier::rlimit(60)]
proof fn lemma_examine_step(
    t: Examining,
    w: World,
    v: World,
    event: (Asked, Answer),
    o: ExamineStep,
    u: World,
)
    requires
        t.wf(),
        t.platform == Platform::Unix,
        is_plain_tree(w, t.staging@),
        examines_in(t, w, v),
        t.moves(event, o),
        does(v, event, u),
    ensures
        match o {
            Step::Ask(next) => {
                &&& examines_in(next, w, u)
                &&& next.staging == t.staging
                &&& next.remove == t.remove
                &&& next.platform == t.platform
            },
            Step::Done(Ok(r)) => {
                &&& r matches Some(tree)
                &&& is_tree_of(w, t.staging@, t.remove, tree)
                &&& u == (World {
                    nodes: nodes_with(w, t.staging@, tree.removed),
                    walk: u.walk,
                    ..w
                })
            },
            Step::Done(Err(_)) => says(w, t.staging@) is None || (t.remove && !w.busy.contains(
                marker_of(t.staging@),
            ) && w.stuck.contains(t.staging@)),
        },
{
    let p = t.staging@;
    let a = event.1;
    assert(t.marker_path() == marker_of(p));
    match t.stage {
        ExamineStage::ReadMarker => {
            if let Answer::Contents(contents) = a {
                assert(!is_missing(contents));
                let r = choose|r|
                    is_read(t.marker_path(), contents, r) && #[trigger] t.has_read(r, o);
            }
        },
        ExamineStage::WhereDest { marker, staged } => {},
        ExamineStage::Weigh { marker: m, weighing } => {
            let q = choose|q| #[trigger] weighing.next(a, q) && t.weighed(m, q, o);
        },
        ExamineStage::Claim { marker: m, landed, weight, claiming } => {
            let q = choose|q|
                #[trigger] claiming.next(a, q) && t.claimed(m, landed, weight, q, o);
        },
        ExamineStage::RemoveTree { .. } => {},
        _ => {},
    }
}

proof fn lemma_examine_in_world(s: Examining, events: Events, o: ExamineStep, w: World, v: World)
    requires
        s.stage is ReadMarker,
        s.platform == Platform::Unix,
        is_plain_tree(w, s.staging@),
        examines(s, events, o),
        lives(w, events, v),
    ensures
        match o {
            Step::Ask(t) => {
                &&& t.wf()
                &&& examines_in(t, w, v)
                &&& t.staging == s.staging
                &&& t.remove == s.remove
                &&& t.platform == s.platform
            },
            Step::Done(Ok(r)) => {
                &&& r matches Some(tree)
                &&& is_tree_of(w, s.staging@, s.remove, tree)
                &&& v == (World {
                    nodes: nodes_with(w, s.staging@, tree.removed),
                    walk: v.walk,
                    ..w
                })
            },
            Step::Done(Err(_)) => says(w, s.staging@) is None || (s.remove && !w.busy.contains(
                marker_of(s.staging@),
            ) && w.stuck.contains(s.staging@)),
        },
    decreases events.len(),
{
    if events.len() > 0 {
        let t = choose|t: Examining|
            examines(s, events.drop_last(), Step::Ask(t)) && #[trigger] t.moves(events.last(), o);
        let u = choose|u: World|
            lives(w, events.drop_last(), u) && #[trigger] does(u, events.last(), v);
        lemma_examine_in_world(s, events.drop_last(), Step::Ask(t), w, u);
        lemma_examine_step(t, w, u, events.last(), o, v);
        if let Step::Ask(next) = o {
            lemma_remembers(s, events, next);
        }
    }
}

/// Where the trees were that are gone.
pub open spec fn gone_trees(trees: Seq<Tree>) -> Set<Place> {
    Set::new(|p: Place| exists|i: int| 0 <= i < trees.len() && is_gone_tree(#[trigger] trees[i], p))
}

/// The tree was at the place, and is gone.
pub open spec fn is_gone_tree(tree: Tree, p: Place) -> bool {
    tree.removed && tree.staging@ == p
}

/// Where the probes were that are gone.
pub open spec fn gone_probes(cleared: Seq<(Place, bool)>) -> Set<Place> {
    Set::new(
        |p: Place|
            exists|i: int| 0 <= i < cleared.len() && (#[trigger] cleared[i]) == (p, true),
    )
}

/// The directory holds nothing but what a probe leaves.
pub open spec fn is_only_probe(w: World, p: Place) -> bool {
    forall|name: Seq<u8>| #[trigger]
        w.nodes.contains_key(p.push(name)) ==> (name == os(SUBJECT) || name == os(CLONE))
            && w.holds_file(p.push(name))
}

/// A tree beside the place is being written.
pub open spec fn is_busy_near(w: World, root: Place, p: Place) -> bool {
    exists|q: Place| #[trigger]
        is_staged(w, root, q) && w.busy.contains(marker_of(q)) && parent_parts(q) == parent_parts(p)
}

/// Whether a probe is removed.
pub open spec fn is_cleared(w: World, opts: Options, p: Place) -> bool {
    opts.remove && !is_busy_near(w, opts.root@, p) && is_only_probe(w, p) && !w.stuck.contains(p)
}

/// Those are the trees at those places, as far as they were dealt with.
pub open spec fn are_trees_of(w: World, remove: bool, todo: Seq<FsPath>, trees: Seq<Tree>) -> bool {
    forall|i: int|
        0 <= i < trees.len() ==> is_tree_of(w, todo[i]@, remove, #[trigger] trees[i])
}

/// That became of the probes, as far as they were dealt with.
pub open spec fn are_probes_of(
    w: World,
    opts: Options,
    probes: Seq<FsPath>,
    cleared: Seq<(Place, bool)>,
) -> bool {
    forall|i: int|
        0 <= i < cleared.len() ==> (#[trigger] cleared[i]) == (
            probes[i]@,
            is_cleared(w, opts, probes[i]@),
        )
}

/// A file system in which no tree that is found has landed.
pub open spec fn none_landed(w: World, root: Place) -> bool {
    forall|p: Place| #[trigger] is_staged(w, root, p) ==> is_plain_tree(w, p)
}

/// Everything that is gone is a tree or a probe that was found.
pub open spec fn are_found(w: World, root: Place, gone: Set<Place>) -> bool {
    forall|p: Place| #[trigger]
        gone.contains(p) ==> is_staged(w, root, p) || is_left_probe(w, root, p)
}

/// What was found stays while other trees and probes go, with all it holds that
/// matters.
proof fn lemma_stays(w: World, root: Place, gone: Set<Place>, p: Place)
    requires
        none_landed(w, root),
        are_found(w, root, gone),
        is_staged(w, root, p) || is_left_probe(w, root, p),
        !gone.contains(p),
    ensures
        !is_in(p, gone),
        is_staged(w, root, p) ==> !is_in(marker_of(p), gone),
        is_left_probe(w, root, p) ==> forall|name: Seq<u8>| !#[trigger] is_in(p.push(name), gone),
{
    if is_in(p, gone) {
        let r = choose|r: Place| #[trigger] gone.contains(r) && within(p, r);
        assert(is_open(w, root, r));
        assert(within(p, r) && p != r && within(r, root));
    }
    if is_staged(w, root, p) && is_in(marker_of(p), gone) {
        let r = choose|r: Place| #[trigger] gone.contains(r) && within(marker_of(p), r);
        if r.len() == p.len() + 1 {
            assert(r =~= marker_of(p));
        } else {
            assert(within(p, r)) by {
                assert(p.take(r.len() as int) =~= marker_of(p).take(r.len() as int));
            }
            assert(is_in(p, gone));
        }
    }
    if is_left_probe(w, root, p) {
        assert forall|name: Seq<u8>| !#[trigger] is_in(p.push(name), gone) by {
            if is_in(p.push(name), gone) {
                let r = choose|r: Place| #[trigger] gone.contains(r) && within(p.push(name), r);
                if r.len() == p.len() + 1 {
                    assert(r =~= p.push(name));
                    assert(within(r, p)) by {
                        assert(r.take(p.len() as int) =~= p);
                    }
                    assert(is_open(w, root, r));
                } else {
                    assert(within(p, r)) by {
                        assert(p.take(r.len() as int) =~= p.push(name).take(r.len() as int));
                    }
                    assert(is_in(p, gone));
                }
            }
        }
    }
}

/// The file system is what it was, without what is gone.
pub open spec fn is_without(w: World, gone: Set<Place>, v: World) -> bool {
    v == (World { nodes: without(w.nodes, gone), walk: v.walk, ..w })
}

proof fn lemma_without_more(nodes: Map<Place, Node>, gone: Set<Place>, p: Place)
    ensures
        without(without(nodes, gone), set![p]) == without(nodes, gone.insert(p)),
        without(nodes, Set::empty()) == nodes,
{
    assert forall|q: Place| is_in(q, gone.insert(p)) == (is_in(q, gone) || within(q, p)) by {
        if is_in(q, gone) {
            let r = choose|r: Place| #[trigger] gone.contains(r) && within(q, r);
            assert(gone.insert(p).contains(r));
        }
        if within(q, p) {
            assert(gone.insert(p).contains(p));
        }
        if is_in(q, gone.insert(p)) {
            let r = choose|r: Place| #[trigger] gone.insert(p).contains(r) && within(q, r);
            if r != p {
                assert(gone.contains(r));
            }
        }
    }
    assert forall|q: Place| is_in(q, set![p]) == within(q, p) by {
        if within(q, p) {
            assert(set![p].contains(p));
        }
    }
    assert(without(without(nodes, gone), set![p]) =~= without(nodes, gone.insert(p)));
    assert(without(nodes, Set::empty()) =~= nodes);
}

/// The pruning fits the file system, which was `w` when it began.
pub open spec fn prunes_in(t: Pruning, w: World, v: World) -> bool {
    let root = t.opts.root@;
    match t.phase {
        PrunePhase::Root => v == w,
        PrunePhase::Search { searching } => {
            &&& v == (World { walk: v.walk, ..w })
            &&& searching.root@ == root
            &&& fits_world(searching, v)
        },
        PrunePhase::Examine { todo, at, probes, trees, examining } => {
            &&& finds_all(todo@, probes@, w, root)
            &&& trees@.len() == at
            &&& are_trees_of(w, t.opts.remove, todo@, trees@)
            &&& exists|u: World| #[trigger]
                is_without(w, gone_trees(trees@), u) && examines_in(examining, u, v)
        },
        PrunePhase::Clear { trees, probes, at, cleared, clearing } => {
            let told = outcomes(cleared@);
            &&& exists|todo: Seq<FsPath>| #[trigger]
                finds_all(todo, probes@, w, root) && todo.len() == trees@.len() && are_trees_of(
                    w,
                    t.opts.remove,
                    todo,
                    trees@,
                )
            &&& told.len() == at
            &&& are_probes_of(w, t.opts, probes@, told)
            &&& is_without(w, gone_trees(trees@).union(gone_probes(told)), v)
            &&& clearing.stage is Remove ==> is_only_probe(w, clearing.path@)
        },
    }
}

/// The report is what becomes of the file system.
pub open spec fn is_outcome(opts: Options, report: Report, w: World, v: World) -> bool {
    &&& exists|todo: Seq<FsPath>, probes: Seq<FsPath>|
        {
            &&& #[trigger] finds_all(todo, probes, w, opts.root@)
            &&& todo.len() == report.trees@.len()
            &&& probes.len() == report.probes@.len()
            &&& are_trees_of(w, opts.remove, todo, report.trees@)
            &&& are_probes_of(w, opts, probes, outcomes(report.probes@))
        }
    &&& is_without(w, gone_trees(report.trees@).union(gone_probes(outcomes(report.probes@))), v)
}

proof fn lemma_busy_near(
    w: World,
    opts: Options,
    todo: Seq<FsPath>,
    probes: Seq<FsPath>,
    trees: Seq<Tree>,
    p: Place,
)
    requires
        finds_all(todo, probes, w, opts.root@),
        todo.len() == trees.len(),
        are_trees_of(w, opts.remove, todo, trees),
    ensures
        is_busy_beside(trees, p) == is_busy_near(w, opts.root@, p),
{
    if is_busy_beside(trees, p) {
        let i = choose|i: int| 0 <= i < trees.len() && is_busy_neighbour(#[trigger] trees[i], p);
        assert(is_tree_of(w, todo[i]@, opts.remove, trees[i]));
        assert(is_listed(todo[i]@, todo));
        assert(is_staged(w, opts.root@, todo[i]@));
    }
    if is_busy_near(w, opts.root@, p) {
        let q = choose|q: Place| #[trigger]
            is_staged(w, opts.root@, q) && w.busy.contains(marker_of(q)) && parent_parts(q)
                == parent_parts(p);
        assert(is_listed(q, todo));
        let i = choose|i: int| 0 <= i < todo.len() && (#[trigger] todo[i])@ == q;
        assert(is_tree_of(w, todo[i]@, opts.remove, trees[i]));
        assert(is_busy_neighbour(trees[i], p));
    }
}

proof fn lemma_gone_probes(cleared: Seq<(Place, bool)>, p: Place, removed: bool)
    ensures
        gone_probes(cleared.push((p, removed))) == if removed {
            gone_probes(cleared).insert(p)
        } else {
            gone_probes(cleared)
        },
        gone_probes(Seq::empty()) == Set::<Place>::empty(),
{
    let more = cleared.push((p, removed));
    assert forall|q: Place| gone_probes(more).contains(q) == (gone_probes(cleared).contains(q) || (
    removed && q == p)) by {
        if gone_probes(cleared).contains(q) {
            let i = choose|i: int| 0 <= i < cleared.len() && (#[trigger] cleared[i]) == (q, true);
            assert(more[i] == (q, true));
        }
        if removed && q == p {
            assert(more[cleared.len() as int] == (q, true));
        }
        if gone_probes(more).contains(q) {
            let i = choose|i: int| 0 <= i < more.len() && (#[trigger] more[i]) == (q, true);
            if i < cleared.len() {
                assert(cleared[i] == (q, true));
            }
        }
    }
    assert(gone_probes(more) =~= if removed {
        gone_probes(cleared).insert(p)
    } else {
        gone_probes(cleared)
    });
    assert(gone_probes(Seq::empty()) =~= Set::<Place>::empty());
}

proof fn lemma_gone_trees(trees: Seq<Tree>, tree: Tree)
    ensures
        gone_trees(trees.push(tree)) == if tree.removed {
            gone_trees(trees).insert(tree.staging@)
        } else {
            gone_trees(trees)
        },
        gone_trees(Seq::empty()) == Set::<Place>::empty(),
{
    let more = trees.push(tree);
    assert forall|q: Place| gone_trees(more).contains(q) == (gone_trees(trees).contains(q) || (
    tree.removed && q == tree.staging@)) by {
        if gone_trees(trees).contains(q) {
            let i = choose|i: int| 0 <= i < trees.len() && is_gone_tree(#[trigger] trees[i], q);
            assert(is_gone_tree(more[i], q));
        }
        if tree.removed && q == tree.staging@ {
            assert(is_gone_tree(more[trees.len() as int], q));
        }
        if gone_trees(more).contains(q) {
            let i = choose|i: int| 0 <= i < more.len() && is_gone_tree(#[trigger] more[i], q);
            if i < trees.len() {
                assert(is_gone_tree(trees[i], q));
            }
        }
    }
    assert(gone_trees(more) =~= if tree.removed {
        gone_trees(trees).insert(tree.staging@)
    } else {
        gone_trees(trees)
    });
    assert(gone_trees(Seq::empty()) =~= Set::<Place>::empty());
}

/// What is gone was found, and is not what comes next.
proof fn lemma_gone_was_found(
    w: World,
    opts: Options,
    todo: Seq<FsPath>,
    probes: Seq<FsPath>,
    trees: Seq<Tree>,
    told: Seq<(Place, bool)>,
)
    requires
        finds_all(todo, probes, w, opts.root@),
        trees.len() <= todo.len(),
        told.len() <= probes.len(),
        are_trees_of(w, opts.remove, todo, trees),
        are_probes_of(w, opts, probes, told),
    ensures
        are_found(w, opts.root@, gone_trees(trees).union(gone_probes(told))),
        are_found(w, opts.root@, gone_trees(trees)),
        trees.len() < todo.len() ==> !gone_trees(trees).contains(todo[trees.len() as int]@),
        told.len() < probes.len() ==> !gone_trees(trees).union(gone_probes(told)).contains(
            probes[told.len() as int]@,
        ),
{
    let root = opts.root@;
    assert forall|p: Place| gone_trees(trees).contains(p) implies is_staged(w, root, p) && exists|
        i: int,
    |
        0 <= i < trees.len() && (#[trigger] todo[i])@ == p by {
        let i = choose|i: int| 0 <= i < trees.len() && is_gone_tree(#[trigger] trees[i], p);
        assert(is_tree_of(w, todo[i]@, opts.remove, trees[i]));
        assert(todo[i]@ == p);
        assert(is_listed(p, todo));
    }
    assert forall|p: Place| gone_probes(told).contains(p) implies is_left_probe(w, root, p)
        && exists|i: int| 0 <= i < told.len() && (#[trigger] probes[i])@ == p by {
        let i = choose|i: int| 0 <= i < told.len() && (#[trigger] told[i]) == (p, true);
        assert(probes[i]@ == p);
        assert(is_listed(p, probes));
    }
    if told.len() < probes.len() {
        assert(is_listed(probes[told.len() as int]@, probes));
    }
}

proof fn lemma_to_probe_in(
    opts: Options,
    platform: Platform,
    todo: Seq<FsPath>,
    trees: Seq<Tree>,
    probes: Seq<FsPath>,
    told: Seq<(Place, bool)>,
    o: PruneStep,
    w: World,
    v: World,
)
    requires
        to_probe(opts, platform, trees, probes, told.len(), told, o),
        finds_all(todo, probes, w, opts.root@),
        todo.len() == trees.len(),
        told.len() <= probes.len(),
        are_trees_of(w, opts.remove, todo, trees),
        are_probes_of(w, opts, probes, told),
        is_without(w, gone_trees(trees).union(gone_probes(told)), v),
    ensures
        match o {
            Step::Ask(u) => prunes_in(u, w, v),
            Step::Done(Ok(report)) => is_outcome(opts, report, w, v),
            Step::Done(Err(_)) => false,
        },
    decreases probes.len() - told.len(),
{
    let at = told.len();
    if at < probes.len() {
        let p = probes[at as int]@;
        lemma_busy_near(w, opts, todo, probes, trees, p);
        if !opts.remove || is_busy_beside(trees, p) {
            let more = told.push((p, false));
            lemma_gone_probes(told, p, false);
            assert(are_probes_of(w, opts, probes, more));
            lemma_to_probe_in(opts, platform, todo, trees, probes, more, o, w, v);
        }
    }
}

proof fn lemma_to_tree_in(
    opts: Options,
    platform: Platform,
    todo: Seq<FsPath>,
    probes: Seq<FsPath>,
    trees: Seq<Tree>,
    o: PruneStep,
    w: World,
    v: World,
)
    requires
        to_tree(opts, platform, todo, trees.len(), probes, trees, o),
        finds_all(todo, probes, w, opts.root@),
        trees.len() <= todo.len(),
        are_trees_of(w, opts.remove, todo, trees),
        is_without(w, gone_trees(trees), v),
    ensures
        match o {
            Step::Ask(u) => prunes_in(u, w, v),
            Step::Done(Ok(report)) => is_outcome(opts, report, w, v),
            Step::Done(Err(_)) => false,
        },
{
    if trees.len() >= todo.len() {
        let told: Seq<(Place, bool)> = Seq::empty();
        lemma_gone_probes(told, Seq::empty(), false);
        assert(gone_trees(trees).union(gone_probes(told)) =~= gone_trees(trees));
        lemma_to_probe_in(opts, platform, todo, trees, probes, told, o, w, v);
    } else {
        if let Step::Ask(u) = o {
            if let PrunePhase::Examine { examining, .. } = u.phase {
                assert(examines_in(examining, v, v));
            }
        }
    }
}

#[verifier::spinoff_prover]
#[verifier::rlimit(60)]
proof fn lemma_prune_step(
    t: Pruning,
    w: World,
    v: World,
    event: (Asked, Answer),
    o: PruneStep,
    u: World,
)
    requires
        t.wf(),
        t.platform == Platform::Unix,
        none_landed(w, t.opts.root@),
        prunes_in(t, w, v),
        t.moves(event, o),
        does(v, event, u),
    ensures
        match o {
            Step::Ask(next) => prunes_in(next, w, u),
            Step::Done(Ok(report)) => is_outcome(t.opts, report, w, u),
            Step::Done(Err(_)) => !w.is_dir(t.opts.root@) || exists|p: Place| #[trigger]
                is_staged(w, t.opts.root@, p) && (says(w, p) is None || (t.opts.remove
                    && !w.busy.contains(marker_of(p)) && w.stuck.contains(p))),
        },
{
    let root = t.opts.root@;
    let a = event.1;
    match t.phase {
        PrunePhase::Root => {},
        PrunePhase::Search { searching } => {
            let q = choose|q| #[trigger] searching.next(a, q) && t.searched(q, o);
            assert(searching.moves(event, q));
            match q {
                Step::Ask(more) => {
                    lemma_search_step(searching, v, event, more, u);
                },
                Step::Done(Ok(found)) => {
                    lemma_found(searching, v);
                    assert forall|p: Place| is_staged(v, root, p) == is_staged(w, root, p)
                        && is_left_probe(v, root, p) == is_left_probe(w, root, p) by {
                        lemma_same_nodes(v, w, root, p);
                    }
                    let none: Seq<Tree> = Seq::empty();
                    assert(gone_trees(none) =~= Set::<Place>::empty());
                    lemma_without_more(w.nodes, Set::empty(), root);
                    lemma_to_tree_in(
                        t.opts,
                        t.platform,
                        found.staged@,
                        found.probes@,
                        none,
                        o,
                        w,
                        u,
                    );
                },
                Step::Done(Err(_)) => {},
            }
        },
        PrunePhase::Examine { todo, at, probes, trees, examining } => {
            let q = choose|q|
                #[trigger] examining.next(a, q) && t.examined(todo, at, probes, trees, q, o);
            let k = choose|k: World| #[trigger]
                is_without(w, gone_trees(trees@), k) && examines_in(examining, k, v);
            let p = todo@[at as int]@;
            let gone = gone_trees(trees@);
            assert(examining.staging@ == p);
            assert(is_listed(p, todo@));
            assert(is_staged(w, root, p));
            lemma_gone_was_found(w, t.opts, todo@, probes@, trees@, Seq::empty());
            lemma_stays(w, root, gone, p);
            assert(is_plain_tree(w, p));
            assert(k.nodes[p] == w.nodes[p] && k.nodes[marker_of(p)] == w.nodes[marker_of(p)]);
            assert(is_plain_tree(k, p));
            assert(examining.moves(event, q));
            lemma_examine_step(examining, k, v, event, q, u);
            match q {
                Step::Ask(more) => {
                    assert(is_without(w, gone, k) && examines_in(more, k, u));
                },
                Step::Done(Ok(r)) => {
                    let tree = r->0;
                    assert(is_tree_of(w, p, t.opts.remove, tree));
                    let after = trees@.push(tree);
                    lemma_gone_trees(trees@, tree);
                    lemma_without_more(w.nodes, gone, p);
                    assert(is_without(w, gone_trees(after), u));
                    assert forall|i: int| 0 <= i < after.len() implies is_tree_of(
                        w,
                        todo@[i]@,
                        t.opts.remove,
                        #[trigger] after[i],
                    ) by {
                        if i < trees@.len() {
                            assert(after[i] == trees@[i]);
                        }
                    }
                    lemma_to_tree_in(t.opts, t.platform, todo@, probes@, after, o, w, u);
                },
                Step::Done(Err(_)) => {},
            }
        },
        PrunePhase::Clear { trees, probes, at, cleared, clearing } => {
            let q = choose|q|
                #[trigger] clearing.next(a, q) && t.cleared(trees, probes, at, cleared, q, o);
            let told = outcomes(cleared@);
            let todo = choose|todo: Seq<FsPath>| #[trigger]
                finds_all(todo, probes@, w, root) && todo.len() == trees@.len() && are_trees_of(
                    w,
                    t.opts.remove,
                    todo,
                    trees@,
                );
            let p = probes@[at as int]@;
            let gone = gone_trees(trees@).union(gone_probes(told));
            assert(clearing.path@ == p);
            assert(is_listed(p, probes@));
            assert(is_left_probe(w, root, p));
            lemma_gone_was_found(w, t.opts, todo, probes@, trees@, told);
            lemma_stays(w, root, gone, p);
            lemma_busy_near(w, t.opts, todo, probes@, trees@, p);
            assert forall|name: Seq<u8>| v.nodes.contains_key(p.push(name)) == w.nodes.contains_key(
                p.push(name),
            ) && v.holds_file(p.push(name)) == w.holds_file(p.push(name)) by {
                assert(!is_in(p.push(name), gone));
            }
            assert(v.is_dir(p));
            if let (ClearStage::List, Answer::Listing(Ok(listing))) = (clearing.stage, a) {
                lemma_listing(v, w, p, listing@);
            }
            if let Step::Done(probe) = q {
                assert(probe.removed == is_cleared(w, t.opts, p));
                let after = told.push((p, probe.removed));
                lemma_gone_probes(told, p, probe.removed);
                lemma_without_more(w.nodes, gone, p);
                assert(gone_trees(trees@).union(gone_probes(after)) =~= if probe.removed {
                    gone.insert(p)
                } else {
                    gone
                });
                assert(is_without(w, gone_trees(trees@).union(gone_probes(after)), u));
                assert(are_probes_of(w, t.opts, probes@, after));
                lemma_to_probe_in(
                    t.opts,
                    t.platform,
                    todo,
                    trees@,
                    probes@,
                    after,
                    o,
                    w,
                    u,
                );
            }
        },
    }
}

/// A directory holds only what a probe leaves if and only if its listing does.
proof fn lemma_listing(v: World, w: World, p: Place, listing: Seq<Listed>)
    requires
        is_listing(v, p, listing),
        forall|name: Seq<u8>|
            #![trigger w.nodes.contains_key(p.push(name))]
            v.nodes.contains_key(p.push(name)) == w.nodes.contains_key(p.push(name))
                && v.holds_file(p.push(name)) == w.holds_file(p.push(name)),
    ensures
        is_only_probe(w, p) == (forall|i: int|
            0 <= i < listing.len() ==> is_probe_file(#[trigger] listing[i])),
{
    if is_only_probe(w, p) {
        assert forall|i: int| 0 <= i < listing.len() implies is_probe_file(#[trigger] listing[i]) by {
            let name = listing[i].name@;
            assert(v.nodes.contains_key(p.push(name)));
            assert(w.nodes.contains_key(p.push(name)));
        }
    }
    if forall|i: int| 0 <= i < listing.len() ==> is_probe_file(#[trigger] listing[i]) {
        assert forall|name: Seq<u8>| #[trigger] w.nodes.contains_key(p.push(name)) implies (name
            == os(SUBJECT) || name == os(CLONE)) && w.holds_file(p.push(name)) by {
            assert(v.nodes.contains_key(p.push(name)));
            let i = choose|i: int| 0 <= i < listing.len() && (#[trigger] listing[i]).name@ == name;
            assert(is_probe_file(listing[i]));
        }
    }
}

proof fn lemma_prune_in_world(s: Pruning, events: Events, o: PruneStep, w: World, v: World)
    requires
        s.phase is Root,
        s.platform == Platform::Unix,
        none_landed(w, s.opts.root@),
        prunes(s, events, o),
        lives(w, events, v),
    ensures
        match o {
            Step::Ask(t) => prunes_in(t, w, v),
            Step::Done(Ok(report)) => is_outcome(s.opts, report, w, v),
            Step::Done(Err(_)) => !w.is_dir(s.opts.root@) || exists|p: Place| #[trigger]
                is_staged(w, s.opts.root@, p) && (says(w, p) is None || (s.opts.remove
                    && !w.busy.contains(marker_of(p)) && w.stuck.contains(p))),
        },
    decreases events.len(),
{
    if events.len() > 0 {
        let t = choose|t: Pruning|
            prunes(s, events.drop_last(), Step::Ask(t)) && #[trigger] t.moves(events.last(), o);
        let u = choose|u: World|
            lives(w, events.drop_last(), u) && #[trigger] does(u, events.last(), v);
        lemma_prune_in_world(s, events.drop_last(), Step::Ask(t), w, u);
        lemma_fits(s, events.drop_last(), t);
        lemma_prune_step(t, w, u, events.last(), o, v);
    }
}

/// What a pruning does in a file system where none of the trees that are found
/// has landed. It reports every staged tree and every probe that can be come to,
/// each once: a tree is being written where the lock of its marker is held, and
/// else is abandoned, and goes if that was asked for; a probe goes if that was
/// asked for, it holds nothing else and no tree beside it is being written.
/// What is reported as removed is gone, and everything else is as it was. It
/// fails only over a marker that cannot be read or a tree that cannot be
/// removed.
pub proof fn law_a_pruning_leaves_what_it_reports(
    s: Pruning,
    events: Events,
    r: Result<Report, Error>,
    w: World,
    v: World,
)
    requires
        s.phase is Root,
        s.platform == Platform::Unix,
        none_landed(w, s.opts.root@),
        w.is_dir(s.opts.root@),
        prunes(s, events, PruneStep::Done(r)),
        lives(w, events, v),
    ensures
        match r {
            Ok(report) => is_outcome(s.opts, report, w, v),
            Err(_) => exists|p: Place| #[trigger]
                is_staged(w, s.opts.root@, p) && (says(w, p) is None || (s.opts.remove
                    && !w.busy.contains(marker_of(p)) && w.stuck.contains(p))),
        },
{
    lemma_prune_in_world(s, events, Step::Done(r), w, v);
}

/// A file in a directory that is still there is still there.
proof fn lemma_file_stays(w: World, root: Place, gone: Set<Place>, p: Place, name: Seq<u8>)
    requires
        are_found(w, root, gone),
        !is_in(p, gone),
        w.is_file(p.push(name)),
    ensures
        !is_in(p.push(name), gone),
{
    if is_in(p.push(name), gone) {
        let r = choose|r: Place| #[trigger] gone.contains(r) && within(p.push(name), r);
        assert(is_open(w, root, r));
        if r.len() == p.len() + 1 {
            assert(r =~= p.push(name));
        } else {
            assert(within(p, r)) by {
                assert(p.take(r.len() as int) =~= p.push(name).take(r.len() as int));
            }
            assert(is_in(p, gone));
        }
    }
}

/// What can be come to is what could be come to and is not gone.
proof fn lemma_open_without(w: World, root: Place, gone: Set<Place>, u: World, p: Place)
    requires
        are_found(w, root, gone),
        is_without(w, gone, u),
    ensures
        is_open(u, root, p) == (is_open(w, root, p) && !is_in(p, gone)),
        is_staged(u, root, p) == (is_staged(w, root, p) && !is_in(p, gone)),
        is_left_probe(u, root, p) == (is_left_probe(w, root, p) && !is_in(p, gone)),
{
    assert forall|q: Place| !is_in(q, gone) implies blocks(u, root, q) == blocks(w, root, q)
        && has_marker(u, q) == has_marker(w, q) by {
        if w.is_file(q.push(os(MARKER))) {
            lemma_file_stays(w, root, gone, q, os(MARKER));
        }
        if w.is_file(q.push(os(CACHE_TAG))) {
            lemma_file_stays(w, root, gone, q, os(CACHE_TAG));
        }
    }
    assert forall|q: Place| within(p, q) && is_in(q, gone) implies is_in(p, gone) by {
        let r = choose|r: Place| #[trigger] gone.contains(r) && within(q, r);
        assert(within(p, r)) by {
            assert(p.take(r.len() as int) =~= q.take(r.len() as int));
        }
    }
    assert(u.is_dir(p) == (w.is_dir(p) && !is_in(p, gone)));
}

/// The tree is among those of a report.
pub open spec fn reports_tree(report: Report, p: Place, removed: bool) -> bool {
    exists|i: int|
        0 <= i < report.trees@.len() && (#[trigger] report.trees@[i]).staging@ == p
            && report.trees@[i].removed == removed
}

/// The probe is among those of a report.
pub open spec fn reports_probe(report: Report, p: Place, removed: bool) -> bool {
    exists|i: int|
        0 <= i < report.probes@.len() && (#[trigger] report.probes@[i]).path@ == p
            && report.probes@[i].removed == removed
}

/// What a report says, over the file system.
pub proof fn lemma_reported(opts: Options, report: Report, w: World, v: World)
    requires
        is_outcome(opts, report, w, v),
    ensures
        are_found(
            w,
            opts.root@,
            gone_trees(report.trees@).union(gone_probes(outcomes(report.probes@))),
        ),
        forall|p: Place, removed: bool| #[trigger]
            reports_tree(report, p, removed) == (is_staged(w, opts.root@, p) && removed == (
            opts.remove && !w.busy.contains(marker_of(p)))),
        forall|p: Place, removed: bool| #[trigger]
            reports_probe(report, p, removed) == (is_left_probe(w, opts.root@, p) && removed
                == is_cleared(w, opts, p)),
        forall|p: Place|
            gone_trees(report.trees@).contains(p) == #[trigger] reports_tree(report, p, true),
        forall|p: Place|
            gone_probes(outcomes(report.probes@)).contains(p) == #[trigger] reports_probe(
                report,
                p,
                true,
            ),
        forall|i: int|
            0 <= i < report.trees@.len() ==> is_tree_of(
                w,
                report.trees@[i].staging@,
                opts.remove,
                #[trigger] report.trees@[i],
            ),
{
    let root = opts.root@;
    let trees = report.trees@;
    let told = outcomes(report.probes@);
    let (todo, probes) = choose|todo: Seq<FsPath>, probes: Seq<FsPath>|
        {
            &&& #[trigger] finds_all(todo, probes, w, root)
            &&& todo.len() == trees.len()
            &&& probes.len() == report.probes@.len()
            &&& are_trees_of(w, opts.remove, todo, trees)
            &&& are_probes_of(w, opts, probes, told)
        };
    lemma_gone_was_found(w, opts, todo, probes, trees, told);
    assert forall|i: int| 0 <= i < trees.len() implies is_tree_of(
        w,
        trees[i].staging@,
        opts.remove,
        #[trigger] trees[i],
    ) by {
        assert(is_tree_of(w, todo[i]@, opts.remove, trees[i]));
    }
    assert forall|p: Place, removed: bool| #[trigger]
        reports_tree(report, p, removed) == (is_staged(w, root, p) && removed == (opts.remove
            && !w.busy.contains(marker_of(p)))) by {
        if reports_tree(report, p, removed) {
            let i = choose|i: int|
                0 <= i < trees.len() && (#[trigger] trees[i]).staging@ == p && trees[i].removed
                    == removed;
            assert(is_tree_of(w, todo[i]@, opts.remove, trees[i]));
            assert(is_listed(p, todo));
        }
        if is_staged(w, root, p) {
            assert(is_listed(p, todo));
            let i = choose|i: int| 0 <= i < todo.len() && (#[trigger] todo[i])@ == p;
            assert(is_tree_of(w, todo[i]@, opts.remove, trees[i]));
            assert(trees[i].staging@ == p);
        }
    }
    assert forall|p: Place, removed: bool| #[trigger]
        reports_probe(report, p, removed) == (is_left_probe(w, root, p) && removed == is_cleared(
            w,
            opts,
            p,
        )) by {
        if reports_probe(report, p, removed) {
            let i = choose|i: int|
                0 <= i < report.probes@.len() && (#[trigger] report.probes@[i]).path@ == p
                    && report.probes@[i].removed == removed;
            assert(told[i] == (p, removed));
            assert(probes[i]@ == p);
            assert(is_listed(p, probes));
        }
        if is_left_probe(w, root, p) {
            assert(is_listed(p, probes));
            let i = choose|i: int| 0 <= i < probes.len() && (#[trigger] probes[i])@ == p;
            assert(told[i] == (p, is_cleared(w, opts, p)));
            assert(report.probes@[i].path@ == p);
        }
    }
    assert forall|p: Place| gone_trees(trees).contains(p) == #[trigger] reports_tree(
        report,
        p,
        true,
    ) by {
        if gone_trees(trees).contains(p) {
            let i = choose|i: int| 0 <= i < trees.len() && is_gone_tree(#[trigger] trees[i], p);
            assert(trees[i].staging@ == p);
        }
        if reports_tree(report, p, true) {
            let i = choose|i: int|
                0 <= i < trees.len() && (#[trigger] trees[i]).staging@ == p && trees[i].removed
                    == true;
            assert(is_gone_tree(trees[i], p));
        }
    }
    assert forall|p: Place| gone_probes(told).contains(p) == #[trigger] reports_probe(
        report,
        p,
        true,
    ) by {
        if gone_probes(told).contains(p) {
            let i = choose|i: int| 0 <= i < told.len() && (#[trigger] told[i]) == (p, true);
            assert(report.probes@[i].path@ == p);
        }
        if reports_probe(report, p, true) {
            let i = choose|i: int|
                0 <= i < report.probes@.len() && (#[trigger] report.probes@[i]).path@ == p
                    && report.probes@[i].removed == true;
            assert(told[i] == (p, true));
        }
    }
}

/// A second pruning, with nothing having happened in between, reports exactly
/// the trees and the probes that the first one left, and removes none of them:
/// no abandoned tree is left, and the file system stays as it is.
pub proof fn law_a_second_pruning_finds_what_the_first_left(
    s: Pruning,
    events: Events,
    first: Report,
    w: World,
    u: World,
    t: Pruning,
    more: Events,
    second: Report,
    v: World,
)
    requires
        s.phase is Root,
        t.phase is Root,
        s.platform == Platform::Unix,
        t.platform == Platform::Unix,
        s.opts.remove,
        t.opts.remove,
        t.opts.root@ == s.opts.root@,
        none_landed(w, s.opts.root@),
        prunes(s, events, PruneStep::Done(Ok(first))),
        lives(w, events, u),
        prunes(t, more, PruneStep::Done(Ok(second))),
        lives(u, more, v),
    ensures
        forall|p: Place| #[trigger] reports_tree(second, p, false) == reports_tree(first, p, false),
        forall|p: Place| !#[trigger] reports_tree(second, p, true),
        forall|p: Place| #[trigger]
            reports_probe(second, p, false) == reports_probe(first, p, false),
        forall|p: Place| !#[trigger] reports_probe(second, p, true),
        forall|i: int|
            0 <= i < second.trees@.len() ==> (#[trigger] second.trees@[i]).state
                == State::Building,
        v.nodes == u.nodes,
{
    let root = s.opts.root@;
    lemma_prune_in_world(s, events, Step::Done(Ok(first)), w, u);
    lemma_reported(s.opts, first, w, u);
    let gone = gone_trees(first.trees@).union(gone_probes(outcomes(first.probes@)));
    assert(is_without(w, gone, u));
    assert forall|p: Place| is_staged(u, root, p) == (is_staged(w, root, p) && !is_in(p, gone))
        && is_left_probe(u, root, p) == (is_left_probe(w, root, p) && !is_in(p, gone)) by {
        lemma_open_without(w, root, gone, u, p);
    }
    // A tree is left if and only if its lock is held.
    assert forall|p: Place| is_staged(u, root, p) == (is_staged(w, root, p) && w.busy.contains(
        marker_of(p),
    )) by {
        if is_staged(w, root, p) {
            if w.busy.contains(marker_of(p)) {
                assert(!reports_tree(first, p, true));
                assert(!reports_probe(first, p, true));
                lemma_stays(w, root, gone, p);
            } else {
                assert(reports_tree(first, p, true));
                assert(gone.contains(p));
                assert(within(p, p)) by {
                    assert(p.take(p.len() as int) =~= p);
                }
                assert(is_in(p, gone));
            }
        }
    }
    // A probe is left if and only if it was not cleared.
    assert forall|p: Place| is_left_probe(u, root, p) == (is_left_probe(w, root, p) && !is_cleared(
        w,
        s.opts,
        p,
    )) by {
        if is_left_probe(w, root, p) {
            if is_cleared(w, s.opts, p) {
                assert(reports_probe(first, p, true));
                assert(gone.contains(p));
                assert(within(p, p)) by {
                    assert(p.take(p.len() as int) =~= p);
                }
                assert(is_in(p, gone));
            } else {
                assert(!reports_tree(first, p, true));
                assert(!reports_probe(first, p, true));
                lemma_stays(w, root, gone, p);
            }
        }
    }
    assert(none_landed(u, root)) by {
        assert forall|p: Place| #[trigger] is_staged(u, root, p) implies is_plain_tree(u, p) by {
            assert(is_plain_tree(w, p));
            assert(!reports_tree(first, p, true));
            assert(!reports_probe(first, p, true));
            lemma_stays(w, root, gone, p);
        }
    }
    lemma_prune_in_world(t, more, Step::Done(Ok(second)), u, v);
    lemma_reported(t.opts, second, u, v);
    assert forall|p: Place| is_left_probe(u, root, p) implies !is_cleared(u, t.opts, p) by {
        assert(!reports_tree(first, p, true));
        assert(!reports_probe(first, p, true));
        lemma_stays(w, root, gone, p);
        if is_busy_near(w, root, p) {
            let q = choose|q: Place| #[trigger]
                is_staged(w, root, q) && w.busy.contains(marker_of(q)) && parent_parts(q)
                    == parent_parts(p);
            assert(is_staged(u, root, q));
        }
        if !is_only_probe(w, p) {
            let name = choose|name: Seq<u8>| #[trigger]
                w.nodes.contains_key(p.push(name)) && !((name == os(SUBJECT) || name == os(CLONE))
                    && w.holds_file(p.push(name)));
            assert(!is_in(p.push(name), gone));
            assert(u.nodes.contains_key(p.push(name)));
        }
    }
    let last = gone_trees(second.trees@).union(gone_probes(outcomes(second.probes@)));
    assert forall|p: Place| !last.contains(p) by {
        assert(!reports_tree(second, p, true));
        assert(!reports_probe(second, p, true));
    }
    assert(last =~= Set::<Place>::empty());
    lemma_without_more(u.nodes, Set::empty(), root);
    assert forall|i: int| 0 <= i < second.trees@.len() implies (#[trigger] second.trees@[i]).state
        == State::Building by {
        let tree = second.trees@[i];
        assert(reports_tree(second, tree.staging@, tree.removed));
    }
}

} // verus!
