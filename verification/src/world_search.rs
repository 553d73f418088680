//! What a search finds in a file system.

use crate::error::Error;
use crate::path::{name_of, os, within, FsPath};
use crate::probe::PROBE_DIR;
use crate::protocol::{Answer, Asked, Events, Step, Walked};
use crate::search::{
    searches, Found, SearchStage, SearchStep, Searching, CACHE_TAG, GIT,
};
use crate::staging::MARKER;
use crate::world::{below, does, is_walked, lives, Place, World};
use vstd::prelude::*;

verus! {

/// A directory that is passed by, whatever it holds.
pub open spec fn is_git(root: Place, p: Place) -> bool {
    p != root && name_of(p) == Some(os(GIT))
}

/// A directory with a marker in it.
pub open spec fn has_marker(w: World, p: Place) -> bool {
    w.is_file(p.push(os(MARKER)))
}

/// A directory that is called as probes are.
pub open spec fn is_probe(root: Place, p: Place) -> bool {
    p != root && name_of(p) == Some(os(PROBE_DIR))
}

/// A directory that Cargo has tagged as a target directory.
pub open spec fn is_tagged(w: World, root: Place, p: Place) -> bool {
    p != root && w.is_file(p.push(os(CACHE_TAG)))
}

/// A directory that is not searched.
pub open spec fn blocks(w: World, root: Place, p: Place) -> bool {
    is_git(root, p) || has_marker(w, p) || is_probe(root, p) || is_tagged(w, root, p)
}

/// A directory that a search comes to.
pub open spec fn is_open(w: World, root: Place, p: Place) -> bool {
    &&& w.is_dir(p)
    &&& within(p, root)
    &&& forall|q: Place| #[trigger] within(p, q) && p != q && within(q, root) ==> !blocks(w, root, q)
}

/// A staged tree that a search finds.
pub open spec fn is_staged(w: World, root: Place, p: Place) -> bool {
    is_open(w, root, p) && !is_git(root, p) && has_marker(w, p)
}

/// A probe that a search finds.
pub open spec fn is_left_probe(w: World, root: Place, p: Place) -> bool {
    is_open(w, root, p) && !is_git(root, p) && !has_marker(w, p) && is_probe(root, p)
}

/// The path is among those, once.
pub open spec fn is_listed(p: Place, paths: Seq<FsPath>) -> bool {
    exists|i: int| 0 <= i < paths.len() && (#[trigger] paths[i])@ == p
}

/// No path is there twice.
pub open spec fn are_distinct(paths: Seq<FsPath>) -> bool {
    forall|i: int, j: int| 0 <= i < j < paths.len() ==> (#[trigger] paths[i])@ != (#[trigger] paths[j])@
}

/// The directory that the search is dealing with.
pub open spec fn is_in_hand(t: Searching, w: World, p: Place) -> bool {
    p == w.walk.last && (t.stage is HasMarker || t.stage is HasTag || t.stage is Skip)
}

/// The search fits the file system.
pub open spec fn fits_world(t: Searching, w: World) -> bool {
    let root = t.root@;
    let staged = t.found.staged@;
    let probes = t.found.probes@;
    &&& are_distinct(staged)
    &&& are_distinct(probes)
    &&& t.stage is OpenWalk ==> staged.len() == 0 && probes.len() == 0
    &&& !(t.stage is OpenWalk) ==> {
        &&& w.walk.root == root
        &&& w.walk.min_depth == 0
        // Everything that was handed out is there, and what it is in was
        // handed out and walked into.
        &&& forall|p: Place| #[trigger]
            w.walk.given.contains(p) ==> w.nodes.contains_key(p) && within(p, root)
        &&& forall|p: Place, q: Place|
            #![trigger w.walk.given.contains(p), w.walk.given.contains(q)]
            #![trigger w.walk.given.contains(p), w.walk.skipped.contains(q)]
            w.walk.given.contains(p) && below(p, q) && within(q, root) ==> w.walk.given.contains(q)
                && !w.walk.skipped.contains(q) && w.is_dir(q)
        &&& forall|p: Place| #[trigger]
            w.walk.skipped.contains(p) ==> w.walk.given.contains(p) && w.is_dir(p)
        // Every directory that was handed out is dealt with.
        &&& forall|p: Place| #[trigger]
            w.walk.given.contains(p) && w.is_dir(p) && !is_in_hand(t, w, p) ==> {
                &&& w.walk.skipped.contains(p) == blocks(w, root, p)
                &&& is_listed(p, staged) == (!is_git(root, p) && has_marker(w, p))
                &&& is_listed(p, probes) == (!is_git(root, p) && !has_marker(w, p) && is_probe(
                    root,
                    p,
                ))
            }
        &&& forall|i: int|
            0 <= i < staged.len() ==> w.walk.given.contains((#[trigger] staged[i])@) && w.is_dir(
                staged[i]@,
            )
        &&& forall|i: int|
            0 <= i < probes.len() ==> w.walk.given.contains((#[trigger] probes[i])@) && w.is_dir(
                probes[i]@,
            )
        // The one in hand was handed out last, and nothing in it was.
        &&& (t.stage is HasMarker || t.stage is HasTag || t.stage is Skip) ==> {
            let p = w.walk.last;
            &&& w.walk.given.contains(p)
            &&& w.is_dir(p)
            &&& !w.walk.skipped.contains(p)
            &&& forall|q: Place| #[trigger] w.walk.given.contains(q) ==> !below(q, p)
        }
        &&& match t.stage {
            SearchStage::HasMarker { path, nested } => {
                &&& path@ == w.walk.last
                &&& nested == (path@ != root)
                &&& !is_git(root, path@)
                &&& !is_listed(path@, staged)
                &&& !is_listed(path@, probes)
            },
            SearchStage::HasTag { path } => {
                &&& path@ == w.walk.last
                &&& path@ != root
                &&& !is_git(root, path@)
                &&& !has_marker(w, path@)
                &&& !is_probe(root, path@)
                &&& !is_listed(path@, staged)
                &&& !is_listed(path@, probes)
            },
            SearchStage::Skip => {
                let p = w.walk.last;
                &&& blocks(w, root, p)
                &&& is_listed(p, staged) == (!is_git(root, p) && has_marker(w, p))
                &&& is_listed(p, probes) == (!is_git(root, p) && !has_marker(w, p) && is_probe(
                    root,
                    p,
                ))
            },
            _ => true,
        }
    }
}

/// What was found is what there is to find.
pub open spec fn finds_all(
    staged: Seq<FsPath>,
    probes: Seq<FsPath>,
    w: World,
    root: Place,
) -> bool {
    &&& are_distinct(staged)
    &&& are_distinct(probes)
    &&& forall|p: Place| #[trigger] is_listed(p, staged) == is_staged(w, root, p)
    &&& forall|p: Place| #[trigger] is_listed(p, probes) == is_left_probe(w, root, p)
}

proof fn lemma_listed_push(paths: Seq<FsPath>, path: FsPath)
    ensures
        forall|p: Place| #[trigger]
            is_listed(p, paths.push(path)) == (is_listed(p, paths) || p == path@),
        are_distinct(paths) && !is_listed(path@, paths) ==> are_distinct(paths.push(path)),
{
    let more = paths.push(path);
    assert forall|p: Place| #[trigger] is_listed(p, more) == (is_listed(p, paths) || p == path@) by {
        if is_listed(p, paths) {
            let i = choose|i: int| 0 <= i < paths.len() && (#[trigger] paths[i])@ == p;
            assert(more[i]@ == p);
        }
        if p == path@ {
            assert(more[paths.len() as int]@ == p);
        }
        if is_listed(p, more) {
            let i = choose|i: int| 0 <= i < more.len() && (#[trigger] more[i])@ == p;
            if i < paths.len() {
                assert(paths[i]@ == p);
            }
        }
    }
    if are_distinct(paths) && !is_listed(path@, paths) {
        assert forall|i: int, j: int| 0 <= i < j < more.len() implies (#[trigger] more[i])@ != (
        #[trigger] more[j])@ by {
            assert(more[i] == paths[i]);
            if j < paths.len() {
                assert(more[j] == paths[j]);
            } else {
                assert(paths[i]@ != path@);
            }
        }
    }
}

#[verifier::spinoff_prover]
#[verifier::rlimit(60)]
pub proof fn lemma_search_step(t: Searching, w: World, event: (Asked, Answer), u: Searching, v: World)
    requires
        fits_world(t, w),
        t.moves(event, SearchStep::Ask(u)),
        does(w, event, v),
    ensures
        fits_world(u, v),
        u.root == t.root,
        v.nodes == w.nodes,
{
    let root = t.root@;
    assert(v.nodes == w.nodes);
    assert forall|p: Place| v.is_file(p) == w.is_file(p) && v.is_dir(p) == w.is_dir(p) by {}
    match (t.stage, event.1) {
        (SearchStage::NextEntry, Answer::Walked(Walked::Entry(entry))) => {
            let p = root + entry.relative@;
            assert(v.walk.last == p);
            assert(within(p, root)) by {
                assert(p.take(root.len() as int) =~= root);
            }
            assert((entry.relative@.len() > 0) == (p != root)) by {
                if entry.relative@.len() == 0 {
                    assert(p =~= root);
                }
            }
            assert forall|i: int| 0 <= i < t.found.staged@.len() implies p != (
            #[trigger] t.found.staged@[i])@ by {
                assert(w.walk.given.contains(t.found.staged@[i]@));
            }
            assert forall|i: int| 0 <= i < t.found.probes@.len() implies p != (
            #[trigger] t.found.probes@[i])@ by {
                assert(w.walk.given.contains(t.found.probes@[i]@));
            }
            assert(!is_listed(p, t.found.staged@));
            assert(!is_listed(p, t.found.probes@));
        },
        (SearchStage::HasMarker { path, .. }, Answer::Flag(there)) => {
            lemma_listed_push(t.found.staged@, path);
            lemma_listed_push(t.found.probes@, path);
        },
        _ => {},
    }
}

pub proof fn lemma_found(t: Searching, w: World)
    requires
        fits_world(t, w),
        t.stage is NextEntry,
        is_walked(w),
    ensures
        finds_all(t.found.staged@, t.found.probes@, w, t.root@),
{
    let root = t.root@;
    assert forall|p: Place| is_open(w, root, p) == (w.is_dir(p) && w.walk.given.contains(p)) by {
        if is_open(w, root, p) {
            assert(w.nodes.contains_key(p));
            if !w.walk.given.contains(p) {
                let q = choose|q: Place| #[trigger] w.walk.skipped.contains(q) && below(p, q);
                assert(w.walk.given.contains(q));
                assert(within(p, q));
                assert(blocks(w, root, q));
                assert(false);
            }
        }
        if w.is_dir(p) && w.walk.given.contains(p) {
            assert forall|q: Place| #[trigger] within(p, q) && p != q && within(
                q,
                root,
            ) implies !blocks(w, root, q) by {
                assert(below(p, q));
                assert(w.walk.given.contains(q));
                assert(!w.walk.skipped.contains(q));
                assert(w.is_dir(q));
            }
        }
    }
}

proof fn lemma_search_in_world(s: Searching, events: Events, o: SearchStep, w: World, v: World)
    requires
        s.found.staged@.len() == 0,
        s.found.probes@.len() == 0,
        s.stage is OpenWalk,
        searches(s, events, o),
        lives(w, events, v),
    ensures
        v.nodes == w.nodes,
        v.busy == w.busy,
        v.stuck == w.stuck,
        v.ids == w.ids,
        match o {
            Step::Ask(t) => fits_world(t, v) && t.root == s.root,
            Step::Done(Ok(found)) => finds_all(
                found.staged@,
                found.probes@,
                w,
                s.root@,
            ),
            Step::Done(Err(_)) => !w.nodes.contains_key(s.root@),
        },
    decreases events.len(),
{
    if events.len() > 0 {
        let t = choose|t: Searching|
            searches(s, events.drop_last(), Step::Ask(t)) && #[trigger] t.moves(events.last(), o);
        let u = choose|u: World|
            lives(w, events.drop_last(), u) && #[trigger] does(u, events.last(), v);
        lemma_search_in_world(s, events.drop_last(), Step::Ask(t), w, u);
        match o {
            Step::Ask(next) => {
                lemma_search_step(t, u, events.last(), next, v);
            },
            Step::Done(Ok(found)) => {
                lemma_found(t, u);
                assert forall|p: Place| is_staged(u, s.root@, p) == is_staged(w, s.root@, p)
                    && is_left_probe(u, s.root@, p) == is_left_probe(w, s.root@, p) by {
                    lemma_same_nodes(u, w, s.root@, p);
                }
            },
            _ => {},
        }
    }
}

/// What there is to find is a matter of what is in the file system alone.
pub proof fn lemma_same_nodes(v: World, w: World, root: Place, p: Place)
    requires
        v.nodes == w.nodes,
    ensures
        is_open(v, root, p) == is_open(w, root, p),
        is_staged(v, root, p) == is_staged(w, root, p),
        is_left_probe(v, root, p) == is_left_probe(w, root, p),
{
    assert forall|q: Place| blocks(v, root, q) == blocks(w, root, q) by {}
}

/// A search of a file system finds every staged tree and every probe that can be
/// come to from its root, each once, and nothing else; and it changes nothing.
pub proof fn law_a_search_finds_all_there_is(
    s: Searching,
    events: Events,
    r: Result<Found, Error>,
    w: World,
    v: World,
)
    requires
        s.found.staged@.len() == 0,
        s.found.probes@.len() == 0,
        s.stage is OpenWalk,
        searches(s, events, SearchStep::Done(r)),
        lives(w, events, v),
        w.nodes.contains_key(s.root@),
    ensures
        r matches Ok(found) && finds_all(found.staged@, found.probes@, w, s.root@),
        v == (World { walk: v.walk, ..w }),
{
    lemma_search_in_world(s, events, Step::Done(r), w, v);
}

} // verus!
