//! What a seeding does to a file system, and what a pruning finds of it.

use crate::error::Error;
use crate::fill::{FillStage, FillStep, Filling};
use crate::nesting::holder;
use crate::path::{here_part, os, within, FsPath};
use crate::probe::{ProbeStage, ProbeStep, Probing, CLONE, PROBE_DIR, SUBJECT};
use crate::protocol::{Answer, Asked, Events, Platform, Step, Walked, Written};
use crate::prune::{outcomes, PruneStep, Pruning, Report as PruneReport, State};
use crate::prune_laws::{has_taken, is_taking, prunes};
use crate::seed::{lemma_seed_step, Phase, Report, SeedStep, Seeding};
use crate::seed_laws::{has_renamed, lemma_more, lemma_recalls, recalls, seeds};
use crate::staging::{tells, ReleaseStage, MARKER};
use crate::world::{below, does, is_in, lives, moved, with_dirs, Node, Place, World};
use crate::world_prune::{
    are_probes_of, are_trees_of, gone_probes, gone_trees, is_tree_of,
    law_a_pruning_leaves_what_it_reports, lemma_reported, marker_of, none_landed, reports_probe,
    reports_tree, says,
};
use crate::world_search::{
    blocks, finds_all, has_marker, is_git, is_left_probe, is_listed, is_probe, is_staged, is_tagged,
};
use vstd::prelude::*;
use vstd::utf8::{is_ascii_chars_encode_utf8, valid_utf8};

verus! {

/// A place that is neither called as markers and probes are nor in one that is.
pub open spec fn is_plain(p: Place) -> bool {
    !p.contains(os(MARKER)) && !p.contains(os(PROBE_DIR))
}

/// What a probe may have in the file system.
pub open spec fn is_probes_own(t: Probing, p: Place) -> bool {
    let dir = t.dir@;
    match t.stage {
        ProbeStage::MakeDir => false,
        ProbeStage::RemoveClone { .. } => p == dir || p == dir.push(os(CLONE)),
        ProbeStage::RemoveDir { .. } => p == dir,
        _ => p == dir || p == dir.push(os(SUBJECT)) || p == dir.push(os(CLONE)),
    }
}

/// What a seeding may have in the file system besides the tree.
pub open spec fn is_its_own(t: Seeding, p: Place) -> bool {
    match t.phase {
        Phase::Probe { probe, .. } => is_probes_own(probe, p),
        Phase::Mark { marking, .. } => p == marker_of(t.staging@) && (marking.stage is TakeLock
            || marking.stage is Close),
        Phase::Fill { .. } => p == marker_of(t.staging@),
        Phase::Unlock { .. } => p == marker_of(t.staging@),
        Phase::Rename { .. } => p == marker_of(t.staging@),
        Phase::GiveUp { .. } => p == marker_of(t.staging@),
        Phase::LetGo { .. } => p == marker_of(t.staging@),
        Phase::Unmark { releasing, .. } => match releasing.stage {
            ReleaseStage::Close { came: Ok(_) } => false,
            _ => p == marker_of(t.opts.dest@),
        },
        _ => false,
    }
}

/// The marker is in the staged tree, and says what is being seeded.
pub open spec fn is_marked(t: Seeding, w: World) -> bool {
    &&& w.is_dir(t.staging@)
    &&& w.holds_file(marker_of(t.staging@))
    &&& exists|pid: u32, now: u64| #[trigger]
        tells(
            w.nodes[marker_of(t.staging@)]->File_0,
            t.opts.src.spelling(),
            t.opts.dest.spelling(),
            pid,
            now,
        )
}

/// Everything in hand is bound for a plain place in the staged tree.
pub open spec fn fills_in(t: Filling, w: World) -> bool {
    let is_place = |p: Place| is_plain(p) && p != t.staging@;
    &&& !(t.stage is MakeRoot) && !(t.stage is OpenWalk) ==> w.walk.root == t.src@
        && w.walk.min_depth == 1
    &&& match t.stage {
        FillStage::IsProfile { at, .. } => is_place(at@),
        FillStage::MakeDir { at } => is_place(at@),
        FillStage::ReadLink { at, .. } => is_place(at@),
        FillStage::MakeLink { at, .. } => is_place(at@),
        FillStage::Measure { relative } => is_plain(relative@) && relative@.len() > 0,
        FillStage::Place { at, .. } => is_place(at@),
        FillStage::SetMode { at, .. } => is_place(at@),
        FillStage::SetTimes { at, .. } => is_place(at@),
        _ => true,
    }
}

/// The probe fits the file system.
pub open spec fn probes_in(t: Probing, w: World) -> bool {
    let dir = t.dir@;
    &&& !(t.stage is MakeDir) ==> w.is_dir(dir)
    &&& forall|name: Seq<u8>| #[trigger]
        w.nodes.contains_key(dir.push(name)) ==> w.holds_file(dir.push(name))
}

/// The paths of a seeding are plain and under one root, and the tree is not
/// staged in the source.
pub open spec fn is_sound(t: Seeding, root: Place) -> bool {
    &&& t.wf()
    &&& t.staging@.len() > 0
    &&& is_plain(t.opts.dest@)
    &&& is_plain(t.staging@)
    &&& !within(t.staging@, t.opts.src@)
    &&& within(t.opts.src@, root)
    &&& within(t.opts.dest@, root)
    &&& below(t.staging@, root)
    &&& root.len() > 0
}

/// The seeding fits the file system.
pub open spec fn seeds_in(t: Seeding, events: Events, w: World, root: Place) -> bool {
    let marker = marker_of(t.staging@);
    &&& forall|p: Place| #[trigger]
            w.nodes.contains_key(p) && within(p, root) ==> is_plain(p) || is_its_own(t, p)
    &&& forall|p: Place| #[trigger] w.stuck.contains(p) ==> !within(p, root)
    &&& match t.phase {
        Phase::Probe { probe, .. } => probes_in(probe, w) && !has_taken(events, marker),
        Phase::Mark { marking, .. } => {
            &&& !has_taken(events, marker)
            &&& !(marking.stage is MakeDir) ==> w.is_dir(t.staging@)
            &&& marking.stage is TakeLock ==> is_marked(t, w)
        },
        Phase::Fill { filling, .. } => is_marked(t, w) && fills_in(filling, w),
        Phase::Unlock { .. } => is_marked(t, w),
        Phase::Rename { .. } => is_marked(t, w),
        Phase::GiveUp { .. } => is_marked(t, w),
        Phase::LetGo { .. } => has_taken(events, marker) ==> is_marked(t, w),
        Phase::Unmark { releasing, .. } => releasing.stage is Remove ==> w.holds_file(
            marker_of(t.opts.dest@),
        ),
        _ => !has_taken(events, marker),
    }
}

proof fn lemma_names()
    ensures
        os(MARKER) != os(PROBE_DIR),
        os(SUBJECT) != os(CLONE),
        here_part() != os(MARKER),
        here_part() != os(PROBE_DIR),
{
    reveal_strlit(".cargo-shared-target-staging");
    reveal_strlit(".cargo-shared-target-probe");
    reveal_strlit("a");
    reveal_strlit("b");
    is_ascii_chars_encode_utf8(MARKER@);
    is_ascii_chars_encode_utf8(PROBE_DIR@);
    is_ascii_chars_encode_utf8(SUBJECT@);
    is_ascii_chars_encode_utf8(CLONE@);
    assert(MARKER@.len() != PROBE_DIR@.len());
    assert(os(SUBJECT)[0] != os(CLONE)[0]);
    assert(here_part().len() == 1);
}

/// What is above a plain place is plain.
proof fn lemma_plain_above(p: Place, q: Place)
    requires
        is_plain(p),
        within(p, q),
    ensures
        is_plain(q),
{
    assert forall|name: Seq<u8>| q.contains(name) implies p.contains(name) by {
        let i = choose|i: int| 0 <= i < q.len() && q[i] == name;
        assert(p[i] == name);
    }
}

/// What is plain in two parts is plain as a whole.
proof fn lemma_plain_parts(p: Place, q: Place)
    ensures
        is_plain(p + q) == (is_plain(p) && is_plain(q)),
{
    assert forall|name: Seq<u8>| (p + q).contains(name) == (p.contains(name) || q.contains(name)) by {
        if p.contains(name) {
            let i = choose|i: int| 0 <= i < p.len() && p[i] == name;
            assert((p + q)[i] == name);
        }
        if q.contains(name) {
            let i = choose|i: int| 0 <= i < q.len() && q[i] == name;
            assert((p + q)[p.len() + i] == name);
        }
        if (p + q).contains(name) {
            let i = choose|i: int| 0 <= i < (p + q).len() && (p + q)[i] == name;
            if i < p.len() {
                assert(p[i] == name);
            } else {
                assert(q[i - p.len()] == name);
            }
        }
    }
}

/// The directory that a plain place is in is plain.
proof fn lemma_plain_holder(p: Place)
    requires
        is_plain(p),
    ensures
        holder(p) matches Some(q) ==> is_plain(q),
{
    lemma_names();
    if let Some(q) = holder(p) {
        if q == seq![here_part()] {
            assert(forall|name: Seq<u8>| q.contains(name) ==> name == here_part());
        } else {
            assert(within(p, q)) by {
                assert(p.take(q.len() as int) =~= q);
            }
            lemma_plain_above(p, q);
        }
    }
}

/// A marker, or a probe, is no plain place, and nothing plain is in one.
proof fn lemma_not_plain(p: Place, name: Seq<u8>)
    requires
        name == os(MARKER) || name == os(PROBE_DIR),
    ensures
        forall|q: Place| #[trigger] within(q, p.push(name)) ==> !is_plain(q),
{
    assert forall|q: Place| #[trigger] within(q, p.push(name)) implies !is_plain(q) by {
        assert(p.push(name)[p.len() as int] == name);
        assert(q[p.len() as int] == name);
        assert(q.contains(name));
    }
}

/// What is in a place in the root is in the root.
proof fn lemma_within(p: Place, q: Place, root: Place)
    requires
        within(p, q),
        within(q, root),
    ensures
        within(p, root),
{
    assert(p.take(root.len() as int) =~= q.take(root.len() as int));
}

/// What is in a directory is in it, and in what that is in.
proof fn lemma_child(p: Place, name: Seq<u8>, root: Place)
    requires
        within(p, root),
    ensures
        within(p.push(name), p),
        within(p.push(name), root),
        within(p, p),
{
    assert(p.push(name).take(p.len() as int) =~= p);
    assert(p.take(p.len() as int) =~= p);
    lemma_within(p.push(name), p, root);
}

/// The directory that a place below the root is in is in the root.
proof fn lemma_holder_within(p: Place, root: Place)
    requires
        below(p, root),
        root.len() > 0,
    ensures
        holder(p) matches Some(q) ==> within(q, root),
{
    assert(p.len() > root.len()) by {
        if p.len() == root.len() {
            assert(p =~= root);
        }
    }
    assert(p.drop_last().take(root.len() as int) =~= p.take(root.len() as int));
}

proof fn lemma_taken_more(events: Events, marker: Place)
    requires
        events.len() > 0,
    ensures
        has_taken(events, marker) == (has_taken(events.drop_last(), marker) || is_taking(
            events.last(),
            marker,
        )),
{
    let before = events.drop_last();
    if has_taken(before, marker) {
        let i = choose|i: int| 0 <= i < before.len() && is_taking(#[trigger] before[i], marker);
        assert(is_taking(events[i], marker));
    }
    if is_taking(events.last(), marker) {
        assert(is_taking(events[events.len() - 1], marker));
    }
    if has_taken(events, marker) {
        let i = choose|i: int| 0 <= i < events.len() && is_taking(#[trigger] events[i], marker);
        if i < before.len() {
            assert(is_taking(before[i], marker));
        }
    }
}

/// Making directories down to a plain place makes plain ones.
proof fn lemma_plain_dirs(nodes: Map<Place, Node>, p: Place)
    requires
        is_plain(p),
    ensures
        forall|q: Place| #[trigger]
            with_dirs(nodes, p).contains_key(q) ==> nodes.contains_key(q) || is_plain(q),
        forall|k: int, q: Place|
            0 <= k <= p.len() && #[trigger] with_dirs(nodes, p.take(k)).contains_key(q)
                ==> nodes.contains_key(q) || is_plain(q),
{
    assert forall|q: Place| within(p, q) implies is_plain(q) by {
        lemma_plain_above(p, q);
    }
    assert forall|k: int, q: Place| 0 <= k <= p.len() && within(p.take(k), q) implies is_plain(q) by {
        assert(within(p, q)) by {
            assert(p.take(q.len() as int) =~= p.take(k).take(q.len() as int));
        }
        lemma_plain_above(p, q);
    }
}

#[verifier::spinoff_prover]
#[verifier::rlimit(60)]
proof fn lemma_probe_in(
    t: Probing,
    parent: Place,
    w: World,
    event: (Asked, Answer),
    o: ProbeStep,
    v: World,
    root: Place,
)
    requires
        is_plain(parent),
        within(parent, root),
        t.dir@ == parent.push(os(PROBE_DIR)),
        forall|p: Place| #[trigger]
            w.nodes.contains_key(p) && within(p, root) ==> is_plain(p) || is_probes_own(t, p),
        forall|p: Place| #[trigger] w.stuck.contains(p) ==> !within(p, root),
        probes_in(t, w),
        t.moves(event, o),
        does(w, event, v),
    ensures
        forall|p: Place| #[trigger] v.stuck.contains(p) ==> !within(p, root),
        match o {
            Step::Ask(u) => {
                &&& probes_in(u, v)
                &&& forall|p: Place| #[trigger]
                        v.nodes.contains_key(p) && within(p, root) ==> is_plain(p) || is_probes_own(u, p)
            },
            Step::Done(Ok(_)) => forall|p: Place| #[trigger]
                v.nodes.contains_key(p) && within(p, root) ==> is_plain(p),
            Step::Done(Err(_)) => true,
        },
{
    let dir = t.dir@;
    lemma_names();
    lemma_not_plain(parent, os(PROBE_DIR));
    lemma_child(parent, os(PROBE_DIR), root);
    lemma_child(dir, os(SUBJECT), root);
    lemma_child(dir, os(CLONE), root);
    assert(within(dir, dir)) by {
        assert(dir.take(dir.len() as int) =~= dir);
    }
    assert forall|name: Seq<u8>| !is_plain(#[trigger] dir.push(name)) && dir.push(name) != dir by {
        assert(within(dir.push(name), dir)) by {
            assert(dir.push(name).take(dir.len() as int) =~= dir);
        }
        assert(dir.push(name).len() != dir.len());
    }
    assert(dir.push(os(SUBJECT)) != dir.push(os(CLONE))) by {
        assert(dir.push(os(SUBJECT)).last() == os(SUBJECT));
        assert(dir.push(os(CLONE)).last() == os(CLONE));
    }
    assert forall|name: Seq<u8>| (#[trigger] dir.push(name)).last() == name by {}
    match t.stage {
        ProbeStage::MakeDir => {
            if event.1 matches Answer::Done(Ok(_)) {
                assert forall|q: Place| #[trigger] v.nodes.contains_key(q) && within(
                    q,
                    root,
                ) implies is_plain(q) || q == dir by {
                    if !w.nodes.contains_key(q) && q != dir {
                        assert(within(parent, q)) by {
                            if q.len() == dir.len() {
                                assert(q =~= dir);
                            }
                            assert(parent.take(q.len() as int) =~= dir.take(q.len() as int));
                        }
                        lemma_plain_above(parent, q);
                    }
                }
                assert(within(dir, dir));
                assert(v.is_dir(dir));
            }
        },
        ProbeStage::RemoveDir { .. } => {
            assert forall|q: Place| #[trigger] w.nodes.contains_key(q) implies !below(q, dir) by {
                if below(q, dir) {
                    lemma_within(q, dir, root);
                    assert(!is_plain(q));
                }
            }
        },
        _ => {},
    }
}

#[verifier::spinoff_prover]
#[verifier::rlimit(60)]
proof fn lemma_fill_in(
    t: Filling,
    w: World,
    event: (Asked, Answer),
    o: FillStep,
    v: World,
    root: Place,
)
    requires
        is_plain(t.staging@),
        t.staging@.len() > 0,
        !within(t.staging@, t.src@),
        within(t.src@, root),
        within(t.staging@, root),
        forall|p: Place| #[trigger]
            w.nodes.contains_key(p) && within(p, root) ==> is_plain(p) || p == marker_of(t.staging@),
        w.is_dir(t.staging@),
        w.holds_file(marker_of(t.staging@)),
        fills_in(t, w),
        t.moves(event, o),
        does(w, event, v),
    ensures
        forall|p: Place| #[trigger]
            v.nodes.contains_key(p) && within(p, root) ==> is_plain(p) || p == marker_of(t.staging@),
        v.is_dir(t.staging@),
        v.nodes.contains_key(marker_of(t.staging@)),
        v.nodes[marker_of(t.staging@)] == w.nodes[marker_of(t.staging@)],
        o matches Step::Ask(u) ==> fills_in(u, v) && u.staging == t.staging && u.src == t.src,
{
    let staging = t.staging@;
    let marker = marker_of(staging);
    lemma_not_plain(staging, os(MARKER));
    assert(within(marker, marker)) by {
        assert(marker.take(marker.len() as int) =~= marker);
    }
    assert(!is_plain(marker));
    lemma_plain_dirs(w.nodes, staging);
    match t.stage {
        FillStage::MakeDir { at } => {
            lemma_plain_dirs(w.nodes, at@);
        },
        FillStage::NextEntry => {
            if let Answer::Walked(Walked::Entry(entry)) = event.1 {
                let relative = entry.relative@;
                let p = t.src@ + relative;
                assert(w.nodes.contains_key(p));
                assert(within(p, t.src@)) by {
                    assert(p.take(t.src@.len() as int) =~= t.src@);
                }
                lemma_within(p, t.src@, root);
                if p == marker {
                    assert(marker.drop_last() =~= staging);
                    assert(p.drop_last() =~= t.src@ + relative.drop_last());
                    assert(within(staging, t.src@)) by {
                        assert(staging.take(t.src@.len() as int) =~= t.src@);
                    }
                }
                lemma_plain_parts(t.src@, relative);
                lemma_plain_parts(staging, relative);
                assert(t.place_of(relative).len() > staging.len());
            }
        },
        FillStage::Measure { relative } => {
            lemma_plain_parts(staging, relative@);
            assert(t.place_of(relative@).len() > staging.len());
        },
        _ => {},
    }
}

/// The tree is renamed with its marker.
proof fn lemma_rename_in(t: Seeding, w: World, v: World, root: Place)
    requires
        is_sound(t, root),
        is_marked(t, w),
        forall|p: Place| #[trigger]
            w.nodes.contains_key(p) && within(p, root) ==> is_plain(p) || p == marker_of(t.staging@),
        v.nodes == moved(w.nodes, t.staging@, t.opts.dest@),
    ensures
        forall|p: Place| #[trigger]
            v.nodes.contains_key(p) && within(p, root) ==> is_plain(p) || p == marker_of(t.opts.dest@),
        v.holds_file(marker_of(t.opts.dest@)),
{
    let from = t.staging@;
    let to = t.opts.dest@;
    let marker = marker_of(from);
    assert(within(marker, from)) by {
        assert(marker.take(from.len() as int) =~= from);
    }
    assert forall|p: Place| #[trigger] v.nodes.contains_key(p) && within(p, root) implies is_plain(p)
        || p == marker_of(to) by {
        if within(p, to) && w.nodes.contains_key(from + p.skip(to.len() as int)) {
            let rest = p.skip(to.len() as int);
            assert(p =~= to + rest);
            assert(within(from + rest, from)) by {
                assert((from + rest).take(from.len() as int) =~= from);
            }
            lemma_within(from + rest, from, root);
            if from + rest == marker {
                assert(rest =~= seq![os(MARKER)]) by {
                    assert(rest.len() == 1);
                    assert((from + rest).last() == rest.last());
                    assert(marker.last() == os(MARKER));
                }
                assert(p =~= marker_of(to));
            } else {
                lemma_plain_parts(from, rest);
                lemma_plain_parts(to, rest);
            }
        }
    }
    let there = marker_of(to);
    assert(within(there, to)) by {
        assert(there.take(to.len() as int) =~= to);
    }
    assert(from + there.skip(to.len() as int) =~= marker);
}

/// The marker stays in the tree.
proof fn lemma_still_marked(t: Seeding, u: Seeding, w: World, v: World)
    requires
        is_marked(t, w),
        u.opts == t.opts,
        u.staging == t.staging,
        v.is_dir(t.staging@),
        v.nodes.contains_key(marker_of(t.staging@)),
        v.nodes[marker_of(t.staging@)] == w.nodes[marker_of(t.staging@)],
    ensures
        is_marked(u, v),
{
    let text = w.nodes[marker_of(t.staging@)]->File_0;
    let (pid, now) = choose|pid: u32, now: u64| #[trigger]
        tells(text, t.opts.src.spelling(), t.opts.dest.spelling(), pid, now);
    assert(tells(
        v.nodes[marker_of(u.staging@)]->File_0,
        u.opts.src.spelling(),
        u.opts.dest.spelling(),
        pid,
        now,
    ));
}

/// What is left when a seeding ends.
pub open spec fn is_left(
    t: Seeding,
    events: Events,
    o: SeedStep,
    w: World,
    root: Place,
) -> bool {
    &&& forall|p: Place| #[trigger] w.stuck.contains(p) ==> !within(p, root)
    &&& match o {
        Step::Ask(u) => seeds_in(u, events, w, root),
        Step::Done(Ok(_)) => forall|p: Place| #[trigger]
            w.nodes.contains_key(p) && within(p, root) ==> is_plain(p),
        Step::Done(Err(_)) => {
            has_taken(events, marker_of(t.staging@)) && !has_renamed(
                events,
                t.staging@,
                t.opts.dest@,
            ) ==> {
                &&& is_marked(t, w)
                &&& forall|p: Place| #[trigger]
                        w.nodes.contains_key(p) && within(p, root) ==> is_plain(p) || p == marker_of(
                        t.staging@,
                    )
            }
        },
    }
}

#[verifier::spinoff_prover]
#[verifier::rlimit(80)]
proof fn lemma_seed_in(
    t: Seeding,
    events: Events,
    w: World,
    o: SeedStep,
    v: World,
    root: Place,
)
    requires
        events.len() > 0,
        is_sound(t, root),
        recalls(t, events.drop_last()),
        seeds_in(t, events.drop_last(), w, root),
        t.moves(events.last(), o),
        does(w, events.last(), v),
    ensures
        is_left(t, events, o, v, root),
{
    let event = events.last();
    let a = event.1;
    let marker = marker_of(t.staging@);
    lemma_taken_more(events, marker);
    lemma_more(events);
    lemma_names();
    lemma_not_plain(t.staging@, os(MARKER));
    lemma_not_plain(t.opts.dest@, os(MARKER));
    lemma_child(t.staging@, os(MARKER), root);
    lemma_child(t.opts.dest@, os(MARKER), root);
    if let Step::Ask(u) = o {
        lemma_seed_step(t, a, o);
        if is_marked(t, w) && v.nodes == w.nodes {
            lemma_still_marked(t, u, w, v);
        }
    }
    if is_marked(t, w) && v.nodes == w.nodes {
        lemma_still_marked(t, t, w, v);
    }
    match t.phase {
        Phase::ResolveDest { source, search } => {
            let q = choose|q| #[trigger] search.next(a, q) && t.dest_search(source, q, o);
        },
        Phase::ResolveStaging { source, dest, search } => {
            let q = choose|q| #[trigger] search.next(a, q) && t.staging_search(source, dest, q, o);
        },
        Phase::MakeDestParent { dest_parent, .. } => {
            lemma_plain_holder(t.opts.dest@);
            lemma_plain_dirs(w.nodes, dest_parent@);
        },
        Phase::MakeStagingParent { site } => {
            lemma_plain_holder(t.staging@);
            lemma_plain_dirs(w.nodes, site.staging_parent@);
        },
        Phase::DestDevice { site, .. } => {
            lemma_plain_holder(t.staging@);
            lemma_holder_within(t.staging@, root);
            lemma_child(site.staging_parent@, os(PROBE_DIR), root);
            let dir = site.staging_parent@.push(os(PROBE_DIR));
            lemma_not_plain(site.staging_parent@, os(PROBE_DIR));
            assert forall|name: Seq<u8>| !w.nodes.contains_key(#[trigger] dir.push(name)) by {
                lemma_child(dir, name, root);
            }
        },
        Phase::Probe { site, probe } => {
            let q = choose|q| #[trigger] probe.next(a, q) && t.probed(site, q, o);
            lemma_plain_holder(t.staging@);
            lemma_holder_within(t.staging@, root);
            assert(probe.moves(event, q));
            lemma_probe_in(probe, site.staging_parent@, w, event, q, v, root);
        },
        Phase::Locks { site, strategy, taking } => {
            let q = choose|q| #[trigger] taking.next(a, q) && t.locked(site, strategy, q, o);
        },
        Phase::Mark { site, strategy, locks, marking } => {
            let q = choose|q|
                #[trigger] marking.next(a, q) && t.marked(site, strategy, locks, q, o);
            lemma_plain_dirs(w.nodes, t.staging@);
            assert(within(t.staging@, t.staging@)) by {
                assert(t.staging@.take(t.staging@.len() as int) =~= t.staging@);
            }
            if marking.stage is Write && a == Answer::Written(Written::Done) {
                if let Step::Ask(u) = o {
                    let (pid, now) = choose|pid: u32, now: u64| #[trigger]
                        tells(
                            marking.text@,
                            t.opts.src.spelling(),
                            t.opts.dest.spelling(),
                            pid,
                            now,
                        );
                    assert(v.nodes[marker] == Node::File(marking.text@));
                    assert(tells(
                        v.nodes[marker_of(u.staging@)]->File_0,
                        u.opts.src.spelling(),
                        u.opts.dest.spelling(),
                        pid,
                        now,
                    ));
                    assert(is_marked(u, v));
                }
            }
        },
        Phase::Fill { site, locks, held, filling } => {
            let q = choose|q| #[trigger] filling.next(a, q) && t.filled(site, locks, held, q, o);
            assert(filling.moves(event, q));
            lemma_fill_in(filling, w, event, q, v, root);
            lemma_still_marked(t, t, w, v);
            if let Step::Ask(u) = o {
                lemma_still_marked(t, u, w, v);
            }
        },
        Phase::Rename { .. } => {
            if a matches Answer::Done(Ok(_)) {
                lemma_rename_in(t, w, v, root);
            }
        },
        Phase::Unmark { site, releasing, report } => {
            let q = choose|q| #[trigger] releasing.next(a, q) && t.unmarked(site, report, q, o);
        },
        _ => {},
    }
}

proof fn lemma_seed_in_world(
    s: Seeding,
    events: Events,
    o: SeedStep,
    w: World,
    v: World,
    root: Place,
)
    requires
        s.phase is Source,
        is_sound(s, root),
        forall|p: Place| #[trigger]
            w.nodes.contains_key(p) && within(p, root) ==> is_plain(p),
        forall|p: Place| #[trigger] w.stuck.contains(p) ==> !within(p, root),
        seeds(s, events, o),
        lives(w, events, v),
    ensures
        is_left(s, events, o, v, root),
        v.busy == w.busy,
    decreases events.len(),
{
    if events.len() > 0 {
        let t = choose|t: Seeding|
            seeds(s, events.drop_last(), Step::Ask(t)) && #[trigger] t.moves(events.last(), o);
        let u = choose|u: World|
            lives(w, events.drop_last(), u) && #[trigger] does(u, events.last(), v);
        lemma_seed_in_world(s, events.drop_last(), Step::Ask(t), w, u, root);
        lemma_recalls(s, events.drop_last(), t);
        lemma_seed_in(t, events, u, o, v, root);
        if o is Done && is_marked(t, v) {
            lemma_still_marked(t, s, v, v);
        }
    }
}

/// Nothing under the root is called as markers and probes are, or is in what is,
/// and nothing there is stuck.
pub open spec fn is_clean(w: World, root: Place) -> bool {
    &&& forall|p: Place| #[trigger]
            w.nodes.contains_key(p) && within(p, root) ==> is_plain(p)
    &&& forall|p: Place| #[trigger] w.stuck.contains(p) ==> !within(p, root)
}

/// Where nothing is called as markers and probes are, there is nothing to find.
proof fn lemma_nothing_to_find(w: World, root: Place)
    requires
        is_clean(w, root),
    ensures
        forall|p: Place| !#[trigger] is_staged(w, root, p),
        forall|p: Place| !#[trigger] is_left_probe(w, root, p),
{
    assert forall|p: Place| !#[trigger] is_staged(w, root, p) && !is_left_probe(w, root, p) by {
        if is_staged(w, root, p) {
            lemma_child(p, os(MARKER), root);
            lemma_not_plain(p, os(MARKER));
            lemma_child(marker_of(p), os(MARKER), root);
        }
        if is_left_probe(w, root, p) {
            assert(p.last() == os(PROBE_DIR));
            assert(p.contains(os(PROBE_DIR)));
        }
    }
}

/// A seeding that ended well has left nothing for a pruning to find: no marker,
/// no staged tree and no probe, where there was none before.
pub proof fn law_a_finished_seeding_leaves_nothing_to_find(
    s: Seeding,
    events: Events,
    report: Report,
    w: World,
    u: World,
    t: Pruning,
    more: Events,
    r: Result<PruneReport, Error>,
    v: World,
)
    requires
        s.phase is Source,
        t.phase is Root,
        t.platform == Platform::Unix,
        is_sound(s, t.opts.root@),
        is_clean(w, t.opts.root@),
        seeds(s, events, SeedStep::Done(Ok(report))),
        lives(w, events, u),
        u.is_dir(t.opts.root@),
        prunes(t, more, PruneStep::Done(r)),
        lives(u, more, v),
    ensures
        r matches Ok(found) && found.trees@.len() == 0 && found.probes@.len() == 0,
{
    let root = t.opts.root@;
    lemma_seed_in_world(s, events, Step::Done(Ok(report)), w, u, root);
    assert(is_clean(u, root));
    lemma_nothing_to_find(u, root);
    law_a_pruning_leaves_what_it_reports(t, more, r, u, v);
    if let Ok(found) = r {
        lemma_reported(t.opts, found, u, v);
        if found.trees@.len() > 0 {
            let tree = found.trees@[0];
            assert(reports_tree(found, tree.staging@, tree.removed));
        }
        if found.probes@.len() > 0 {
            let probe = found.probes@[0];
            assert(reports_probe(found, probe.path@, probe.removed));
        }
    }
}

/// Nothing keeps a search from coming to the place: no directory between the
/// root and it is one that is not searched.
pub open spec fn is_in_reach(w: World, root: Place, p: Place) -> bool {
    forall|q: Place| #[trigger] within(p, q) && p != q && below(q, root) ==> !is_git(root, q)
        && !is_tagged(w, root, q)
}

/// A tree that a seeding left when it could not go on is found by a pruning: it
/// is the one tree that there is, nobody is writing it, and it says what it was
/// seeded from and where it was going. Looking leaves it where it is.
pub proof fn law_a_tree_that_is_left_is_found(
    s: Seeding,
    events: Events,
    e: Error,
    w: World,
    u: World,
    t: Pruning,
    more: Events,
    r: Result<PruneReport, Error>,
    v: World,
)
    requires
        s.phase is Source,
        t.phase is Root,
        t.platform == Platform::Unix,
        !t.opts.remove,
        is_sound(s, t.opts.root@),
        is_clean(w, t.opts.root@),
        s.opts.src.is_spelled(),
        s.opts.dest.is_spelled(),
        valid_utf8(s.opts.src.spelling()),
        valid_utf8(s.opts.dest.spelling()),
        s.staging@ != s.opts.dest@,
        seeds(s, events, SeedStep::Done(Err(e))),
        has_taken(events, marker_of(s.staging@)),
        !has_renamed(events, s.staging@, s.opts.dest@),
        lives(w, events, u),
        u.is_dir(t.opts.root@),
        !u.busy.contains(marker_of(s.staging@)),
        is_in_reach(u, t.opts.root@, s.staging@),
        !is_git(t.opts.root@, s.staging@),
        prunes(t, more, PruneStep::Done(r)),
        lives(u, more, v),
    ensures
        r matches Ok(found) && found.trees@.len() == 1 && ({
            let tree = found.trees@[0];
            &&& tree.staging@ == s.staging@
            &&& tree.state == State::Abandoned
            &&& tree.marker.src@ == s.opts.src@
            &&& tree.marker.dest@ == s.opts.dest@
            &&& !tree.removed
        }),
        v.is_dir(s.staging@),
{
    let root = t.opts.root@;
    let place = s.staging@;
    let marker = marker_of(place);
    lemma_seed_in_world(s, events, Step::Done(Err(e)), w, u, root);
    assert(is_marked(s, u));
    let text = u.nodes[marker]->File_0;
    let (pid, now) = choose|pid: u32, now: u64| #[trigger]
        tells(text, s.opts.src.spelling(), s.opts.dest.spelling(), pid, now);
    assert(says(u, place) matches Some(said) && said.src == s.opts.src@ && said.dest == s.opts.dest@);
    // It is the one tree.
    assert forall|p: Place| #[trigger] is_staged(u, root, p) implies p == place by {
        lemma_child(p, os(MARKER), root);
        lemma_not_plain(p, os(MARKER));
        lemma_child(marker_of(p), os(MARKER), root);
        assert(!is_plain(marker_of(p)));
        assert(marker_of(p) == marker);
        assert(marker_of(p).drop_last() =~= p);
        assert(marker.drop_last() =~= place);
    }
    assert(is_staged(u, root, place)) by {
        assert forall|q: Place| #[trigger] within(place, q) && place != q && within(
            q,
            root,
        ) implies !blocks(u, root, q) by {
            lemma_plain_above(place, q);
            lemma_child(q, os(MARKER), root);
            lemma_not_plain(q, os(MARKER));
            lemma_child(marker_of(q), os(MARKER), root);
            if has_marker(u, q) {
                assert(marker_of(q) == marker);
                assert(marker_of(q).drop_last() =~= q);
                assert(marker.drop_last() =~= place);
            }
            if is_probe(root, q) {
                assert(q.last() == os(PROBE_DIR));
                assert(q.contains(os(PROBE_DIR)));
            }
        }
    }
    assert(none_landed(u, root));
    law_a_pruning_leaves_what_it_reports(t, more, r, u, v);
    if let Ok(found) = r {
        lemma_reported(t.opts, found, u, v);
        let trees = found.trees@;
        let (todo, probes) = choose|todo: Seq<FsPath>, probes: Seq<FsPath>|
            {
                &&& #[trigger] finds_all(todo, probes, u, root)
                &&& todo.len() == trees.len()
                &&& probes.len() == found.probes@.len()
                &&& are_trees_of(u, t.opts.remove, todo, trees)
                &&& are_probes_of(u, t.opts, probes, outcomes(found.probes@))
            };
        assert(is_listed(place, todo));
        if todo.len() > 1 {
            assert(is_listed(todo[0]@, todo));
            assert(is_listed(todo[1]@, todo));
            assert(todo[0]@ != todo[1]@);
        }
        let i = choose|i: int| 0 <= i < todo.len() && (#[trigger] todo[i])@ == place;
        assert(is_tree_of(u, todo[0]@, t.opts.remove, trees[0]));
        let gone = gone_trees(trees).union(gone_probes(outcomes(found.probes@)));
        assert forall|p: Place| !gone.contains(p) by {
            assert(!reports_tree(found, p, true));
            assert(!reports_probe(found, p, true));
        }
        assert(!is_in(place, gone));
    }
}

} // verus!
