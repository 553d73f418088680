//! What every pruning keeps to, whatever it is told.

use crate::error::Error;
use crate::path::{os, FsPath};
use crate::protocol::{
    marker_open, shares_held, Answer, Asked, Events, FileId, Lock, Platform, Request, Step,
};
use crate::prune::{
    are_rightly_removed, found_in, is_busy_beside, is_missing, is_probe_file, is_same_place, outcomes,
    to_probe, to_tree, ExamineStage, ExamineStep, Examining, Options, PrunePhase, PruneStep,
    Pruning, Report, State, Tree,
};
use crate::search::{
    is_flag, law_only_marked_trees_are_found, searches, was_told, Found, SearchStep,
    Searching,
};
use crate::staging::{is_read, Claim, ClaimStage, MARKER};
use crate::weigh::lemma_weigh_step;
use vstd::prelude::*;

verus! {

impl Examining {
    /// The examination can be told that, and becomes `o`.
    pub open spec fn moves(self, event: (Asked, Answer), o: ExamineStep) -> bool {
        &&& self.room(event.1)
        &&& event.0 == self.asked()
        &&& event.0.fits(event.1)
        &&& self.next(event.1, o)
    }
}

/// What an examination that starts as `s` has become after all that.
pub open spec fn examines(s: Examining, events: Events, o: ExamineStep) -> bool
    decreases events.len(),
{
    if events.len() == 0 {
        o == ExamineStep::Ask(s)
    } else {
        exists|t: Examining|
            examines(s, events.drop_last(), Step::Ask(t)) && #[trigger] t.moves(events.last(), o)
    }
}

/// The lock on the marker was taken.
pub open spec fn is_taking(event: (Asked, Answer), marker: Seq<Seq<u8>>) -> bool {
    &&& event.0 matches Request::LockMarker(path)
    &&& path == marker
    &&& event.1 == Answer::Lock(Lock::Taken)
}

/// The lock on the marker was taken.
pub open spec fn has_taken(events: Events, marker: Seq<Seq<u8>>) -> bool {
    exists|i: int| 0 <= i < events.len() && is_taking(#[trigger] events[i], marker)
}

/// The marker that is open, and locked, was found to be that file.
pub open spec fn is_held(event: (Asked, Answer), marker: Seq<Seq<u8>>, id: FileId) -> bool {
    &&& event.0 matches Request::MarkerIdentity(path)
    &&& path == marker
    &&& event.1 == Answer::Identity(Ok(id))
}

/// The file of that name was found to be that file.
pub open spec fn is_there(event: (Asked, Answer), marker: Seq<Seq<u8>>, id: FileId) -> bool {
    &&& event.0 matches Request::Identity(path)
    &&& path == marker
    &&& event.1 == Answer::Identity(Ok(id))
}

/// The marker that is locked was found to be the one that has the name.
pub open spec fn has_the_marker(events: Events, marker: Seq<Seq<u8>>) -> bool {
    exists|i: int, j: int, id: FileId|
        #![trigger is_held(events[i], marker, id), is_there(events[j], marker, id)]
        {
            &&& 0 <= i < j < events.len()
            &&& is_held(events[i], marker, id)
            &&& is_there(events[j], marker, id)
        }
}

/// There was no marker of that name.
pub open spec fn is_absence(event: (Asked, Answer), marker: Seq<Seq<u8>>) -> bool {
    match event.0 {
        Request::ReadFile(path) => path == marker && (event.1 matches Answer::Contents(contents)
            && is_missing(contents)),
        Request::IsFile(path) => path == marker && event.1 == Answer::Flag(false),
        Request::OpenMarker(path) => path == marker && (event.1 matches Answer::Done(Err(f))
            && f.missing),
        Request::Identity(path) => path == marker && (event.1 matches Answer::Identity(Err(f))
            && f.missing),
        _ => false,
    }
}

/// The marker was gone, or the name was another file's than the one that was
/// opened.
pub open spec fn was_gone(events: Events, marker: Seq<Seq<u8>>) -> bool {
    ||| exists|i: int| 0 <= i < events.len() && is_absence(#[trigger] events[i], marker)
    ||| exists|i: int, j: int, held: FileId, there: FileId|
        #![trigger is_held(events[i], marker, held), is_there(events[j], marker, there)]
        {
            &&& 0 <= i < j < events.len()
            &&& is_held(events[i], marker, held)
            &&& is_there(events[j], marker, there)
            &&& held != there
        }
}

/// The lock was not let go of.
pub open spec fn never_closed(events: Events) -> bool {
    forall|i: int| 0 <= i < events.len() ==> !((#[trigger] events[i]).0 is CloseMarker)
}

/// Nothing was removed.
pub open spec fn nothing_removed(events: Events) -> bool {
    forall|i: int| 0 <= i < events.len() ==> !(#[trigger] events[i]).0.removes()
}

/// No directory was removed.
pub open spec fn no_tree_removed(events: Events) -> bool {
    forall|i: int| 0 <= i < events.len() ==> !((#[trigger] events[i]).0 is RemoveDirAll)
}

/// Whether the tree and the destination its marker names were found to be one
/// directory.
pub open spec fn has_landed(events: Events) -> bool {
    &&& events.len() > 2
    &&& events[1].1 matches Answer::Canonical(staged)
    &&& events[2].1 matches Answer::Canonical(dest)
    &&& is_same_place(found_in(staged), found_in(dest))
}

/// What is known of an examination after some events.
pub open spec fn remembers(t: Examining, events: Events) -> bool {
    let marker = t.marker_path();
    &&& t.wf()
    &&& match t.stage {
        ExamineStage::ReadMarker => events.len() == 0,
        ExamineStage::WhereStaged { .. } => events.len() == 1,
        ExamineStage::WhereDest { staged, .. } => events.len() == 2 && (
        events[1].1 matches Answer::Canonical(r) && staged == found_in(r)),
        ExamineStage::Weigh { .. } => events.len() > 2 && !has_landed(events),
        ExamineStage::StillThere { .. } => true,
        ExamineStage::Claim { landed, claiming, .. } => {
            &&& events.len() > 2
            &&& landed == has_landed(events)
            &&& match claiming.stage {
                ClaimStage::WhichIsHeld => has_taken(events, marker),
                ClaimStage::WhichIsThere { held } => {
                    &&& has_taken(events, marker)
                    &&& exists|i: int|
                        0 <= i < events.len() && is_held(#[trigger] events[i], marker, held)
                },
                ClaimStage::Close { came: Ok(Claim::Finished) } => was_gone(events, marker),
                _ => true,
            }
        },
        ExamineStage::RemoveMarker { .. } => {
            &&& has_landed(events)
            &&& has_taken(events, marker)
            &&& has_the_marker(events, marker)
        },
        ExamineStage::RemoveTree { .. } => {
            &&& !has_landed(events)
            &&& has_taken(events, marker)
            &&& has_the_marker(events, marker)
        },
        ExamineStage::Close { came } => match came {
            Err(_) => true,
            Ok(None) => false,
            Ok(Some(tree)) => {
                &&& tree.state == State::Building || tree.state == State::Undecidable
                    ==> nothing_removed(events)
                &&& tree.state == State::Landed ==> has_landed(events) && no_tree_removed(events)
                &&& tree.state == State::Abandoned ==> !has_landed(events)
            },
        },
    }
    &&& never_closed(events)
    &&& !(t.stage is Close) ==> nothing_removed(events)
}

proof fn lemma_remembers_more(events: Events, marker: Seq<Seq<u8>>)
    requires
        events.len() > 0,
    ensures
        has_taken(events.drop_last(), marker) ==> has_taken(events, marker),
        is_taking(events.last(), marker) ==> has_taken(events, marker),
        events.len() > 3 ==> has_landed(events) == has_landed(events.drop_last()),
        never_closed(events.drop_last()) && !(events.last().0 is CloseMarker) ==> never_closed(
            events,
        ),
        nothing_removed(events.drop_last()) && !events.last().0.removes() ==> nothing_removed(
            events,
        ),
        no_tree_removed(events.drop_last()) && !(events.last().0 is RemoveDirAll)
            ==> no_tree_removed(events),
        nothing_removed(events) ==> no_tree_removed(events),
{
    let before = events.drop_last();
    assert forall|i: int| 0 <= i < before.len() implies before[i] == #[trigger] events[i] by {}
    assert(events[events.len() - 1] == events.last());
    if has_taken(before, marker) {
        let i = choose|i: int| 0 <= i < before.len() && is_taking(#[trigger] before[i], marker);
        assert(is_taking(events[i], marker));
    }
}

#[verifier::spinoff_prover]
#[verifier::rlimit(40)]
proof fn lemma_remembers_step(t: Examining, events: Events, u: Examining)
    requires
        events.len() > 0,
        remembers(t, events.drop_last()),
        t.moves(events.last(), ExamineStep::Ask(u)),
    ensures
        remembers(u, events),
        u.staging == t.staging,
        u.remove == t.remove,
        u.platform == t.platform,
{
    let before = events.drop_last();
    let a = events.last().1;
    let o = ExamineStep::Ask(u);
    let last = events.len() - 1;
    let marker = t.marker_path();
    assert(events[last] == events.last());
    assert forall|i: int| 0 <= i < before.len() implies before[i] == #[trigger] events[i] by {}
    lemma_remembers_more(events, marker);
    match t.stage {
        ExamineStage::ReadMarker => {
            if let Answer::Contents(contents) = a {
                assert(!is_missing(contents));
                let r = choose|r|
                    is_read(marker, contents, r) && #[trigger] t.has_read(r, o);
                assert(u.stage is WhereStaged);
            }
        },
        ExamineStage::WhereStaged { marker: m } => {},
        ExamineStage::WhereDest { marker: m, staged } => {
            assert(events[1] == before[1]);
            assert(events[2] == events.last());
        },
        ExamineStage::Weigh { marker: m, weighing } => {
            let p = choose|p| #[trigger] weighing.next(a, p) && t.weighed(m, p, o);
            lemma_weigh_step(weighing, a, p);
        },
        ExamineStage::Claim { marker: m, landed, weight, claiming } => {
            let p = choose|p|
                #[trigger] claiming.next(a, p) && t.claimed(m, landed, weight, p, o);
            match claiming.stage {
                ClaimStage::TakeLock => {
                    if a == Answer::Lock(Lock::Taken) {
                        assert(is_taking(events[last], marker));
                    }
                },
                ClaimStage::WhichIsHeld => {
                    if let Answer::Identity(Ok(held)) = a {
                        assert(is_held(events[last], marker, held));
                    }
                },
                ClaimStage::WhichIsThere { held } => {
                    let i = choose|i: int|
                        0 <= i < before.len() && is_held(#[trigger] before[i], marker, held);
                    assert(is_held(events[i], marker, held));
                    if let Answer::Identity(Ok(there)) = a {
                        assert(is_there(events[last], marker, there));
                        if there == held {
                            assert(has_the_marker(events, marker));
                        } else {
                            assert(was_gone(events, marker));
                        }
                    } else {
                        assert(is_absence(events[last], marker) || (
                        a matches Answer::Identity(Err(f)) && !f.missing));
                    }
                },
                _ => {},
            }
        },
        _ => {},
    }
}

pub proof fn lemma_remembers(s: Examining, events: Events, t: Examining)
    requires
        s.stage is ReadMarker,
        examines(s, events, ExamineStep::Ask(t)),
    ensures
        remembers(t, events),
        t.staging == s.staging,
        t.remove == s.remove,
        t.platform == s.platform,
    decreases events.len(),
{
    if events.len() > 0 {
        let p = choose|p: Examining|
            examines(s, events.drop_last(), Step::Ask(p)) && #[trigger] p.moves(
                events.last(),
                ExamineStep::Ask(t),
            );
        lemma_remembers(s, events.drop_last(), p);
        lemma_remembers_step(p, events, t);
    }
}

/// Something of a tree is removed only if removal was asked for, and only while
/// the lock on its marker is held, which is the file of that name: no run is
/// writing there, and none can start. A tree that has landed loses its marker
/// and nothing else.
pub proof fn law_removed_only_under_its_lock(s: Examining, events: Events, t: Examining)
    requires
        s.stage is ReadMarker,
        examines(s, events, ExamineStep::Ask(t)),
        t.asked().removes(),
    ensures
        s.remove,
        has_taken(events, s.marker_path()),
        has_the_marker(events, s.marker_path()),
        never_closed(events),
        match t.asked() {
            Request::RemoveFile(path) => has_landed(events) && path == s.marker_path(),
            Request::RemoveDirAll(path) => !has_landed(events) && path == s.staging@,
            _ => false,
        },
{
    lemma_remembers(s, events, t);
}

/// A tree that a run is writing, or that cannot be told from one, is left as it
/// is, and of one that has landed no directory is removed; and what is reported
/// as removed was abandoned or has landed.
pub proof fn law_a_tree_in_use_is_left_alone(s: Examining, events: Events, tree: Tree)
    requires
        s.stage is ReadMarker,
        examines(s, events, ExamineStep::Done(Ok(Some(tree)))),
    ensures
        tree.staging@ == s.staging@,
        tree.state == State::Building || tree.state == State::Undecidable ==> nothing_removed(
            events,
        ),
        tree.state == State::Landed ==> no_tree_removed(events),
        tree.removed ==> s.remove && (tree.state == State::Abandoned || tree.state
            == State::Landed),
{
    let o = ExamineStep::Done(Ok(Some(tree)));
    let t = choose|t: Examining|
        examines(s, events.drop_last(), Step::Ask(t)) && #[trigger] t.moves(events.last(), o);
    lemma_remembers(s, events.drop_last(), t);
    lemma_remembers_more(events, s.marker_path());
}

/// Only a tree that is gone is passed over: its marker was not there when it was
/// looked for, or was another file by then. Nothing is removed then.
pub proof fn law_only_what_is_gone_is_passed_over(s: Examining, events: Events)
    requires
        s.stage is ReadMarker,
        examines(s, events, ExamineStep::Done(Ok(None))),
    ensures
        was_gone(events, s.marker_path()),
        nothing_removed(events),
{
    let o = ExamineStep::Done(Ok(None));
    let marker = s.marker_path();
    let last = events.len() - 1;
    let before = events.drop_last();
    let t = choose|t: Examining|
        examines(s, events.drop_last(), Step::Ask(t)) && #[trigger] t.moves(events.last(), o);
    lemma_remembers(s, before, t);
    lemma_remembers_more(events, marker);
    assert forall|i: int| 0 <= i < before.len() implies before[i] == #[trigger] events[i] by {}
    let a = events.last().1;
    match t.stage {
        ExamineStage::ReadMarker => {
            if let Answer::Contents(contents) = a {
                if !is_missing(contents) {
                    let r = choose|r|
                        is_read(marker, contents, r) && #[trigger] t.has_read(r, o);
                }
            }
            assert(is_absence(events[last], marker));
        },
        ExamineStage::StillThere { .. } => {
            assert(is_absence(events[last], marker));
        },
        ExamineStage::Claim { marker: m, landed, weight, claiming } => {
            let p = choose|p|
                #[trigger] claiming.next(a, p) && t.claimed(m, landed, weight, p, o);
            match claiming.stage {
                ClaimStage::Close { .. } => {
                    lemma_still_gone(events, marker);
                },
                _ => {
                    assert(is_absence(events[last], marker));
                },
            }
        },
        ExamineStage::Weigh { marker: m, weighing } => {
            let p = choose|p| #[trigger] weighing.next(a, p) && t.weighed(m, p, o);
        },
        _ => {},
    }
}

proof fn lemma_still_gone(events: Events, marker: Seq<Seq<u8>>)
    requires
        events.len() > 0,
        was_gone(events.drop_last(), marker),
    ensures
        was_gone(events, marker),
{
    let before = events.drop_last();
    assert forall|i: int| 0 <= i < before.len() implies before[i] == #[trigger] events[i] by {}
    if exists|i: int| 0 <= i < before.len() && is_absence(#[trigger] before[i], marker) {
        let i = choose|i: int| 0 <= i < before.len() && is_absence(#[trigger] before[i], marker);
        assert(is_absence(events[i], marker));
    } else {
        let (i, j, held, there) = choose|i: int, j: int, held: FileId, there: FileId|
            #![trigger is_held(before[i], marker, held), is_there(before[j], marker, there)]
            {
                &&& 0 <= i < j < before.len()
                &&& is_held(before[i], marker, held)
                &&& is_there(before[j], marker, there)
                &&& held != there
            };
        assert(is_held(events[i], marker, held));
        assert(is_there(events[j], marker, there));
    }
}

impl Pruning {
    /// The pruning can be told that, and becomes `o`.
    pub open spec fn moves(self, event: (Asked, Answer), o: PruneStep) -> bool {
        &&& self.room(event.1)
        &&& event.0 == self.asked()
        &&& event.0.fits(event.1)
        &&& self.next(event.1, o)
    }
}

/// What a pruning that starts as `s` has become after all that.
pub open spec fn prunes(s: Pruning, events: Events, o: PruneStep) -> bool
    decreases events.len(),
{
    if events.len() == 0 {
        o == PruneStep::Ask(s)
    } else {
        exists|t: Pruning|
            prunes(s, events.drop_last(), Step::Ask(t)) && #[trigger] t.moves(events.last(), o)
    }
}

/// The examination of the tree at `staging` has come to `t` by the events from
/// index `from` on.
pub open spec fn examined_since(
    events: Events,
    from: int,
    s: Examining,
    staging: Seq<Seq<u8>>,
    remove: bool,
    t: Examining,
) -> bool {
    &&& 0 <= from <= events.len()
    &&& s.stage is ReadMarker
    &&& s.staging@ == staging
    &&& s.remove == remove
    &&& examines(s, events.skip(from), ExamineStep::Ask(t))
}

/// The search came to its end, and that was found.
pub open spec fn has_found(events: Events, found: Found) -> bool {
    exists|to: int, s: Searching| #[trigger] found_by(events, to, s, found)
}

/// The events behind the first and up to index `to` are the search, and that was
/// found.
pub open spec fn found_by(events: Events, to: int, s: Searching, found: Found) -> bool {
    0 <= to <= events.len() && searched_since(events.take(to), s, SearchStep::Done(Ok(found)))
}

/// The trees are at the paths, in the same order, but for those that were gone
/// when they were looked at.
pub open spec fn are_drawn_from(trees: Seq<Tree>, paths: Seq<FsPath>, events: Events) -> bool
    decreases paths.len(),
{
    if paths.len() == 0 {
        trees.len() == 0
    } else {
        ||| was_gone(events, paths.last()@.push(os(MARKER))) && are_drawn_from(
            trees,
            paths.drop_last(),
            events,
        )
        ||| trees.len() > 0 && trees.last().staging@ == paths.last()@ && are_drawn_from(
            trees.drop_last(),
            paths.drop_last(),
            events,
        )
    }
}

proof fn lemma_still_drawn(trees: Seq<Tree>, paths: Seq<FsPath>, events: Events)
    requires
        events.len() > 0,
        are_drawn_from(trees, paths, events.drop_last()),
    ensures
        are_drawn_from(trees, paths, events),
    decreases paths.len(),
{
    if paths.len() > 0 {
        let marker = paths.last()@.push(os(MARKER));
        if was_gone(events.drop_last(), marker) && are_drawn_from(
            trees,
            paths.drop_last(),
            events.drop_last(),
        ) {
            lemma_still_gone(events, marker);
            lemma_still_drawn(trees, paths.drop_last(), events);
        } else {
            lemma_still_drawn(trees.drop_last(), paths.drop_last(), events);
        }
    }
}

proof fn lemma_gone_in_part(events: Events, from: int, marker: Seq<Seq<u8>>)
    requires
        0 <= from <= events.len(),
        was_gone(events.skip(from), marker),
    ensures
        was_gone(events, marker),
{
    let part = events.skip(from);
    assert forall|i: int| 0 <= i < part.len() implies #[trigger] part[i] == events[i + from] by {}
    if exists|i: int| 0 <= i < part.len() && is_absence(#[trigger] part[i], marker) {
        let i = choose|i: int| 0 <= i < part.len() && is_absence(#[trigger] part[i], marker);
        assert(is_absence(events[i + from], marker));
    } else {
        let (i, j, held, there) = choose|i: int, j: int, held: FileId, there: FileId|
            #![trigger is_held(part[i], marker, held), is_there(part[j], marker, there)]
            {
                &&& 0 <= i < j < part.len()
                &&& is_held(part[i], marker, held)
                &&& is_there(part[j], marker, there)
                &&& held != there
            };
        assert(is_held(events[i + from], marker, held));
        assert(is_there(events[j + from], marker, there));
    }
}

/// What became of the probes is told of each, in their order.
pub open spec fn are_told_of(told: Seq<(Seq<Seq<u8>>, bool)>, probes: Seq<FsPath>) -> bool {
    told.len() == probes.len() && forall|i: int|
        0 <= i < told.len() ==> (#[trigger] told[i]).0 == probes[i]@
}

/// What the pruning works through is what was found.
pub open spec fn works_through(t: Pruning, events: Events) -> bool {
    match t.phase {
        PrunePhase::Examine { todo, at, probes, trees, .. } => {
            &&& exists|found: Found| #[trigger]
                has_found(events, found) && found.staged@ == todo@ && found.probes@ == probes@
            &&& are_drawn_from(trees@, todo@.take(at as int), events)
        },
        PrunePhase::Clear { trees, probes, at, cleared, .. } => {
            &&& exists|found: Found| #[trigger]
                has_found(events, found) && are_drawn_from(trees@, found.staged@, events)
                    && found.probes@ == probes@
            &&& are_told_of(outcomes(cleared@), probes@.take(at as int))
        },
        _ => true,
    }
}

/// The report is of what was found.
pub open spec fn reports(report: Report, events: Events) -> bool {
    exists|found: Found|
        {
            &&& #[trigger] has_found(events, found)
            &&& are_drawn_from(report.trees@, found.staged@, events)
            &&& are_told_of(outcomes(report.probes@), found.probes@)
        }
}

/// The pruning fits its history.
pub open spec fn fits_history(t: Pruning, events: Events) -> bool {
    &&& t.wf()
    &&& match t.phase {
        PrunePhase::Root => true,
        PrunePhase::Search { searching } => exists|s: Searching| #[trigger]
            searched_since(events, s, SearchStep::Ask(searching)),
        PrunePhase::Examine { todo, at, examining, .. } => {
            &&& are_marked(events, todo@)
            &&& exists|from: int, s: Examining| #[trigger]
                examined_since(events, from, s, todo@[at as int]@, t.opts.remove, examining)
        },
        PrunePhase::Clear { clearing, .. } => clearing.stage is Remove ==> is_cleared_of(
            events,
            clearing.path@,
        ),
    }
}

/// The last thing that was told is that the directory holds nothing but what a
/// probe leaves.
pub open spec fn is_cleared_of(events: Events, path: Seq<Seq<u8>>) -> bool {
    &&& events.len() > 0
    &&& events.last().0 matches Request::List(p)
    &&& p == path
    &&& events.last().1 matches Answer::Listing(Ok(listing))
    &&& forall|i: int| 0 <= i < listing@.len() ==> is_probe_file(#[trigger] listing@[i])
}

/// Nothing of an earlier phase is left where the pruning goes on to the probes.
proof fn lemma_to_probe(
    opts: Options,
    platform: Platform,
    trees: Seq<Tree>,
    probes: Seq<FsPath>,
    at: nat,
    cleared: Seq<(Seq<Seq<u8>>, bool)>,
    o: PruneStep,
)
    requires
        are_rightly_removed(trees, opts.remove),
        to_probe(opts, platform, trees, probes, at, cleared, o),
    ensures
        match o {
            Step::Ask(t) => {
                &&& t.wf()
                &&& t.opts == opts
                &&& t.platform == platform
                &&& t.phase matches PrunePhase::Clear { clearing, .. }
                &&& clearing.stage is List
            },
            Step::Done(Ok(report)) => report.trees@ == trees,
            Step::Done(Err(_)) => false,
        },
    decreases probes.len() - at,
{
    if at < probes.len() && (!opts.remove || is_busy_beside(trees, probes[at as int]@)) {
        lemma_to_probe(
            opts,
            platform,
            trees,
            probes,
            at + 1,
            cleared.push((probes[at as int]@, false)),
            o,
        );
    }
}

/// The search has come to `o` by the events behind the first.
pub open spec fn searched_since(events: Events, s: Searching, o: SearchStep) -> bool {
    &&& events.len() > 0
    &&& s.found.staged@.len() == 0
    &&& s.found.probes@.len() == 0
    &&& s.stage is OpenWalk
    &&& searches(s, events.skip(1), o)
}

/// Each of the directories was found to hold a marker.
pub open spec fn are_marked(events: Events, paths: Seq<FsPath>) -> bool {
    forall|i: int|
        0 <= i < paths.len() ==> was_told(events, (#[trigger] paths[i])@.push(os(MARKER)), true)
}

proof fn lemma_were_marked(events: Events, some: Events, paths: Seq<FsPath>)
    requires
        are_marked(some, paths),
        forall|i: int|
            0 <= i < some.len() ==> exists|j: int|
                0 <= j < events.len() && #[trigger] some[i] == #[trigger] events[j],
    ensures
        are_marked(events, paths),
{
    assert forall|k: int| 0 <= k < paths.len() implies was_told(
        events,
        (#[trigger] paths[k])@.push(os(MARKER)),
        true,
    ) by {
        let path = paths[k]@.push(os(MARKER));
        assert(was_told(some, path, true));
        let i = choose|i: int| 0 <= i < some.len() && is_flag(#[trigger] some[i], path, true);
        let j = choose|j: int| 0 <= j < events.len() && some[i] == #[trigger] events[j];
        assert(is_flag(events[j], path, true));
    }
}

/// A pruning that goes on to the next tree or probe fits its history.
proof fn lemma_goes_to_tree(
    opts: Options,
    platform: Platform,
    todo: Seq<FsPath>,
    at: nat,
    probes: Seq<FsPath>,
    trees: Seq<Tree>,
    u: Pruning,
    events: Events,
)
    requires
        are_rightly_removed(trees, opts.remove),
        are_marked(events, todo),
        to_tree(opts, platform, todo, at, probes, trees, PruneStep::Ask(u)),
    ensures
        fits_history(u, events),
        u.opts == opts,
        u.platform == platform,
        !(u.phase is Root),
{
    if at < todo.len() {
        if let PrunePhase::Examine { todo: d, at: i, examining, .. } = u.phase {
            assert(d@ == todo);
            let n = events.len() as int;
            assert(events.skip(n) =~= Seq::empty());
            assert(examines(examining, events.skip(n), ExamineStep::Ask(examining)));
            assert(examined_since(events, n, examining, d@[i as int]@, opts.remove, examining));
        }
    } else {
        lemma_to_probe(opts, platform, trees, probes, 0, Seq::empty(), PruneStep::Ask(u));
    }
}

#[verifier::spinoff_prover]
#[verifier::rlimit(40)]
proof fn lemma_fits_step(t: Pruning, events: Events, o: PruneStep)
    requires
        events.len() > 0,
        t.phase is Root == (events.len() == 1),
        fits_history(t, events.drop_last()),
        t.moves(events.last(), o),
    ensures
        match o {
            Step::Ask(u) => {
                &&& fits_history(u, events)
                &&& u.opts == t.opts
                &&& u.platform == t.platform
                &&& !(u.phase is Root)
            },
            Step::Done(Ok(report)) => are_rightly_removed(report.trees@, t.opts.remove),
            Step::Done(Err(_)) => true,
        },
{
    let before = events.drop_last();
    let a = events.last().1;
    assert forall|i: int| 0 <= i < before.len() implies exists|j: int|
        0 <= j < events.len() && #[trigger] before[i] == #[trigger] events[j] by {
        assert(before[i] == events[i]);
    }
    match t.phase {
        PrunePhase::Root => {
            if let Step::Ask(u) = o {
                if let PrunePhase::Search { searching } = u.phase {
                    assert(events.skip(1) =~= Seq::empty());
                    assert(searched_since(events, searching, SearchStep::Ask(searching)));
                }
            }
        },
        PrunePhase::Search { searching } => {
            let p = choose|p| #[trigger] searching.next(a, p) && t.searched(p, o);
            let s = choose|s: Searching| #[trigger]
                searched_since(before, s, SearchStep::Ask(searching));
            assert(events.skip(1).drop_last() =~= before.skip(1));
            assert(events.skip(1).last() == events.last());
            assert(searching.moves(events.last(), p));
            assert(searches(s, events.skip(1), p));
            assert(searched_since(events, s, p));
            if let Step::Done(Ok(found)) = p {
                law_only_marked_trees_are_found(s, events.skip(1), found);
                assert forall|i: int| 0 <= i < events.skip(1).len() implies exists|j: int|
                    0 <= j < events.len() && #[trigger] events.skip(1)[i]
                        == #[trigger] events[j] by {
                    assert(events.skip(1)[i] == events[i + 1]);
                }
                lemma_were_marked(events, events.skip(1), found.staged@);
                match o {
                    Step::Ask(u) => lemma_goes_to_tree(
                        t.opts,
                        t.platform,
                        found.staged@,
                        0,
                        found.probes@,
                        Seq::empty(),
                        u,
                        events,
                    ),
                    _ => lemma_to_probe(
                        t.opts,
                        t.platform,
                        Seq::empty(),
                        found.probes@,
                        0,
                        Seq::empty(),
                        o,
                    ),
                }
            }
        },
        PrunePhase::Examine { todo, at, probes, trees, examining } => {
            let p = choose|p|
                #[trigger] examining.next(a, p) && t.examined(todo, at, probes, trees, p, o);
            let (from, s) = choose|from: int, s: Examining| #[trigger]
                examined_since(before, from, s, todo@[at as int]@, t.opts.remove, examining);
            lemma_were_marked(events, before, todo@);
            lemma_remembers(s, before.skip(from), examining);
            assert(events.skip(from).drop_last() =~= before.skip(from));
            assert(events.skip(from).last() == events.last());
            assert(examining.moves(events.last(), p));
            assert(examines(s, events.skip(from), p));
            match p {
                Step::Ask(more) => {
                    lemma_remembers(s, events.skip(from), more);
                    assert(examined_since(
                        events,
                        from,
                        s,
                        todo@[at as int]@,
                        t.opts.remove,
                        more,
                    ));
                    assert(o->Ask_0.wf());
                },
                Step::Done(Ok(tree)) => {
                    let more = match tree {
                        Some(tree) => trees@.push(tree),
                        None => trees@,
                    };
                    if let Some(tree) = tree {
                        law_a_tree_in_use_is_left_alone(s, events.skip(from), tree);
                    }
                    assert(are_rightly_removed(more, t.opts.remove));
                    match o {
                        Step::Ask(u) => lemma_goes_to_tree(
                            t.opts,
                            t.platform,
                            todo@,
                            at as nat + 1,
                            probes@,
                            more,
                            u,
                            events,
                        ),
                        _ => lemma_to_probe(
                            t.opts,
                            t.platform,
                            more,
                            probes@,
                            0,
                            Seq::empty(),
                            o,
                        ),
                    }
                },
                _ => {},
            }
        },
        PrunePhase::Clear { trees, probes, at, cleared, clearing } => {
            let p = choose|p|
                #[trigger] clearing.next(a, p) && t.cleared(trees, probes, at, cleared, p, o);
            if let Step::Done(probe) = p {
                lemma_to_probe(
                    t.opts,
                    t.platform,
                    trees@,
                    probes@,
                    at as nat + 1,
                    outcomes(cleared@).push((probe.path@, probe.removed)),
                    o,
                );
            }
        },
    }
}

pub proof fn lemma_fits(s: Pruning, events: Events, t: Pruning)
    requires
        s.phase is Root,
        prunes(s, events, PruneStep::Ask(t)),
    ensures
        fits_history(t, events),
        t.opts == s.opts,
        t.platform == s.platform,
        t.phase is Root == (events.len() == 0),
    decreases events.len(),
{
    if events.len() > 0 {
        let p = choose|p: Pruning|
            prunes(s, events.drop_last(), Step::Ask(p)) && #[trigger] p.moves(
                events.last(),
                PruneStep::Ask(t),
            );
        lemma_fits(s, events.drop_last(), p);
        lemma_fits_step(p, events, PruneStep::Ask(t));
    }
}

/// A pruning that was not asked to remove anything makes, changes and removes
/// nothing.
pub proof fn law_looking_changes_nothing(s: Pruning, events: Events, t: Pruning)
    requires
        s.phase is Root,
        !s.opts.remove,
        prunes(s, events, PruneStep::Ask(t)),
    ensures
        t.asked().written() is None,
{
    lemma_fits(s, events, t);
}

/// A pruning makes and changes nothing, and what it removes is a directory that
/// was found to hold a marker, whose lock it holds and which is not the
/// destination that the marker names; the marker of one that is; or a directory
/// found to hold nothing but what a probe leaves, with no tree beside it that
/// may be being built.
pub proof fn law_only_what_is_left_behind_is_removed(s: Pruning, events: Events, t: Pruning)
    requires
        s.phase is Root,
        prunes(s, events, PruneStep::Ask(t)),
        t.asked().written() is Some,
    ensures
        s.opts.remove,
        match t.phase {
            PrunePhase::Examine { examining, .. } => {
                let marker = examining.marker_path();
                &&& was_told(events, marker, true)
                &&& exists|from: int|
                    #![trigger events.skip(from)]
                    {
                        let since = events.skip(from);
                        &&& 0 <= from <= events.len()
                        &&& has_taken(since, marker)
                        &&& has_the_marker(since, marker)
                        &&& never_closed(since)
                        &&& match t.asked() {
                            Request::RemoveFile(path) => path == marker && has_landed(since),
                            Request::RemoveDirAll(path) => path == examining.staging@
                                && !has_landed(since),
                            _ => false,
                        }
                    }
            },
            PrunePhase::Clear { trees, clearing, .. } => {
                &&& t.asked() matches Request::RemoveDirAll(path)
                &&& path == clearing.path@
                &&& is_cleared_of(events, path)
                &&& !is_busy_beside(trees@, path)
            },
            _ => false,
        },
{
    lemma_fits(s, events, t);
    if let PrunePhase::Examine { todo, at, examining, .. } = t.phase {
        let (from, e) = choose|from: int, e: Examining| #[trigger]
            examined_since(events, from, e, todo@[at as int]@, t.opts.remove, examining);
        lemma_remembers(e, events.skip(from), examining);
        law_removed_only_under_its_lock(e, events.skip(from), examining);
        assert(was_told(events, todo@[at as int]@.push(os(MARKER)), true));
    }
}

/// What a pruning reports as removed was abandoned or has landed, and was
/// removed only because that was asked for.
pub proof fn law_a_report_of_what_was_removed(s: Pruning, events: Events, report: Report)
    requires
        s.phase is Root,
        prunes(s, events, PruneStep::Done(Ok(report))),
    ensures
        are_rightly_removed(report.trees@, s.opts.remove),
{
    let o = PruneStep::Done(Ok(report));
    let t = choose|t: Pruning|
        prunes(s, events.drop_last(), Step::Ask(t)) && #[trigger] t.moves(events.last(), o);
    lemma_fits(s, events.drop_last(), t);
    lemma_fits_step(t, events, o);
}

proof fn lemma_still_found(events: Events, found: Found)
    requires
        events.len() > 0,
        has_found(events.drop_last(), found),
    ensures
        has_found(events, found),
{
    let before = events.drop_last();
    let (to, s) = choose|to: int, s: Searching| #[trigger] found_by(before, to, s, found);
    assert(events.take(to) =~= before.take(to));
    assert(found_by(events, to, s, found));
}

proof fn lemma_probes_reported(
    opts: Options,
    platform: Platform,
    trees: Seq<Tree>,
    probes: Seq<FsPath>,
    at: nat,
    cleared: Seq<(Seq<Seq<u8>>, bool)>,
    o: PruneStep,
    events: Events,
    found: Found,
)
    requires
        to_probe(opts, platform, trees, probes, at, cleared, o),
        has_found(events, found),
        found.probes@ == probes,
        are_drawn_from(trees, found.staged@, events),
        at <= probes.len(),
        are_told_of(cleared, probes.take(at as int)),
    ensures
        o matches Step::Ask(u) ==> works_through(u, events),
        o matches Step::Done(Ok(report)) ==> reports(report, events),
    decreases probes.len() - at,
{
    if at >= probes.len() {
        assert(probes.take(at as int) =~= probes);
    } else if !opts.remove || is_busy_beside(trees, probes[at as int]@) {
        lemma_probes_reported(
            opts,
            platform,
            trees,
            probes,
            at + 1,
            cleared.push((probes[at as int]@, false)),
            o,
            events,
            found,
        );
    }
}

proof fn lemma_trees_reported(
    opts: Options,
    platform: Platform,
    todo: Seq<FsPath>,
    at: nat,
    probes: Seq<FsPath>,
    trees: Seq<Tree>,
    o: PruneStep,
    events: Events,
    found: Found,
)
    requires
        to_tree(opts, platform, todo, at, probes, trees, o),
        has_found(events, found),
        found.staged@ == todo,
        found.probes@ == probes,
        at <= todo.len(),
        are_drawn_from(trees, todo.take(at as int), events),
    ensures
        o matches Step::Ask(u) ==> works_through(u, events),
        o matches Step::Done(Ok(report)) ==> reports(report, events),
{
    if at >= todo.len() {
        assert(todo.take(at as int) =~= todo);
        assert(are_told_of(Seq::empty(), probes.take(0)));
        lemma_probes_reported(
            opts,
            platform,
            trees,
            probes,
            0,
            Seq::empty(),
            o,
            events,
            found,
        );
    }
}

#[verifier::spinoff_prover]
proof fn lemma_works_step(t: Pruning, events: Events, o: PruneStep)
    requires
        events.len() > 0,
        fits_history(t, events.drop_last()),
        works_through(t, events.drop_last()),
        t.phase is Root == (events.len() == 1),
        t.moves(events.last(), o),
    ensures
        o matches Step::Ask(u) ==> works_through(u, events),
        o matches Step::Done(Ok(report)) ==> reports(report, events),
{
    let before = events.drop_last();
    let a = events.last().1;
    match t.phase {
        PrunePhase::Root => {},
        PrunePhase::Search { searching } => {
            let p = choose|p| #[trigger] searching.next(a, p) && t.searched(p, o);
            let s = choose|s: Searching| #[trigger]
                searched_since(before, s, SearchStep::Ask(searching));
            assert(events.skip(1).drop_last() =~= before.skip(1));
            assert(events.skip(1).last() == events.last());
            assert(searching.moves(events.last(), p));
            assert(searches(s, events.skip(1), p));
            if let Step::Done(Ok(found)) = p {
                assert(events.take(events.len() as int) =~= events);
                assert(found_by(events, events.len() as int, s, found));
                assert(found.staged@.take(0) =~= Seq::empty());
                lemma_trees_reported(
                    t.opts,
                    t.platform,
                    found.staged@,
                    0,
                    found.probes@,
                    Seq::empty(),
                    o,
                    events,
                    found,
                );
            }
        },
        PrunePhase::Examine { todo, at, probes, trees, examining } => {
            let p = choose|p|
                #[trigger] examining.next(a, p) && t.examined(todo, at, probes, trees, p, o);
            let found = choose|found: Found| #[trigger]
                has_found(before, found) && found.staged@ == todo@ && found.probes@ == probes@;
            lemma_still_found(events, found);
            lemma_still_drawn(trees@, todo@.take(at as int), events);
            if let Step::Done(Ok(tree)) = p {
                let more = match tree {
                    Some(tree) => trees@.push(tree),
                    None => trees@,
                };
                let (from, s) = choose|from: int, s: Examining| #[trigger]
                    examined_since(before, from, s, todo@[at as int]@, t.opts.remove, examining);
                assert(events.skip(from).drop_last() =~= before.skip(from));
                assert(events.skip(from).last() == events.last());
                assert(examining.moves(events.last(), p));
                assert(examines(s, events.skip(from), p));
                if let Some(tree) = tree {
                    law_a_tree_in_use_is_left_alone(s, events.skip(from), tree);
                    assert(more.drop_last() =~= trees@);
                } else {
                    law_only_what_is_gone_is_passed_over(s, events.skip(from));
                    lemma_gone_in_part(events, from, s.marker_path());
                }
                let next = todo@.take(at + 1);
                assert(next.drop_last() =~= todo@.take(at as int));
                assert(next.last() == todo@[at as int]);
                assert(are_drawn_from(more, next, events));
                lemma_trees_reported(
                    t.opts,
                    t.platform,
                    todo@,
                    at as nat + 1,
                    probes@,
                    more,
                    o,
                    events,
                    found,
                );
            }
        },
        PrunePhase::Clear { trees, probes, at, cleared, clearing } => {
            let p = choose|p|
                #[trigger] clearing.next(a, p) && t.cleared(trees, probes, at, cleared, p, o);
            let found = choose|found: Found| #[trigger]
                has_found(before, found) && are_drawn_from(trees@, found.staged@, before)
                    && found.probes@ == probes@;
            lemma_still_found(events, found);
            lemma_still_drawn(trees@, found.staged@, events);
            if let Step::Done(probe) = p {
                let told = outcomes(cleared@).push((probe.path@, probe.removed));
                assert(probes@.take(at + 1) =~= probes@.take(at as int).push(probes@[at as int]));
                assert(are_told_of(told, probes@.take(at + 1)));
                lemma_probes_reported(
                    t.opts,
                    t.platform,
                    trees@,
                    probes@,
                    at as nat + 1,
                    told,
                    o,
                    events,
                    found,
                );
            }
        },
    }
}

proof fn lemma_works(s: Pruning, events: Events, t: Pruning)
    requires
        s.phase is Root,
        prunes(s, events, PruneStep::Ask(t)),
    ensures
        works_through(t, events),
    decreases events.len(),
{
    if events.len() > 0 {
        let p = choose|p: Pruning|
            prunes(s, events.drop_last(), Step::Ask(p)) && #[trigger] p.moves(
                events.last(),
                PruneStep::Ask(t),
            );
        lemma_works(s, events.drop_last(), p);
        lemma_fits(s, events.drop_last(), p);
        lemma_works_step(p, events, PruneStep::Ask(t));
    }
}

/// A pruning reports every probe and every tree that was found, each once and in
/// the order in which they were found, but for the trees that were gone by the
/// time they were looked at; and it reports nothing else.
pub proof fn law_what_is_found_is_reported(s: Pruning, events: Events, report: Report)
    requires
        s.phase is Root,
        prunes(s, events, PruneStep::Done(Ok(report))),
    ensures
        reports(report, events),
{
    let o = PruneStep::Done(Ok(report));
    let t = choose|t: Pruning|
        prunes(s, events.drop_last(), Step::Ask(t)) && #[trigger] t.moves(events.last(), o);
    lemma_works(s, events.drop_last(), t);
    lemma_fits(s, events.drop_last(), t);
    lemma_works_step(t, events, o);
}

/// Whether an examination may still have its marker to let go of.
pub open spec fn may_hold_marker(t: Examining) -> bool {
    match t.stage {
        ExamineStage::Claim { claiming, .. } => {
            !(claiming.stage is Open) && !(claiming.stage is IsThere)
        },
        ExamineStage::RemoveMarker { .. } => true,
        ExamineStage::RemoveTree { .. } => true,
        ExamineStage::Close { .. } => true,
        _ => false,
    }
}

#[verifier::spinoff_prover]
proof fn lemma_marker_step(t: Examining, event: (Asked, Answer), o: ExamineStep)
    requires
        t.wf(),
        t.moves(event, o),
    ensures
        match o {
            Step::Ask(u) => (may_hold_marker(t) || marker_open(seq![event])) && !(
            event.0 is CloseMarker) ==> may_hold_marker(u),
            Step::Done(_) => (event.0 is CloseMarker || !may_hold_marker(t)) && !marker_open(
                seq![event],
            ),
        },
{
    let a = event.1;
    assert(seq![event].drop_last() =~= Seq::empty());
    reveal_with_fuel(marker_open, 2);
    match t.stage {
        ExamineStage::ReadMarker => {
            if let Answer::Contents(contents) = a {
                if !is_missing(contents) {
                    let r = choose|r|
                        is_read(t.marker_path(), contents, r) && #[trigger] t.has_read(r, o);
                }
            }
        },
        ExamineStage::Weigh { marker: m, weighing } => {
            let p = choose|p| #[trigger] weighing.next(a, p) && t.weighed(m, p, o);
        },
        ExamineStage::Claim { marker: m, landed, weight, claiming } => {
            let p = choose|p|
                #[trigger] claiming.next(a, p) && t.claimed(m, landed, weight, p, o);
        },
        _ => {},
    }
}

/// No marker is open but the one that the pruning may still have to let go of.
pub open spec fn opens_at_most(o: PruneStep, events: Events) -> bool {
    &&& !shares_held(events)
    &&& marker_open(events) ==> (o matches Step::Ask(t) && (
    t.phase matches PrunePhase::Examine { examining, .. } && may_hold_marker(examining)))
}

#[verifier::spinoff_prover]
proof fn lemma_opens_step(t: Pruning, events: Events, o: PruneStep)
    requires
        events.len() > 0,
        t.wf(),
        opens_at_most(PruneStep::Ask(t), events.drop_last()),
        t.moves(events.last(), o),
    ensures
        opens_at_most(o, events),
{
    let a = events.last().1;
    assert(seq![events.last()].drop_last() =~= Seq::empty());
    reveal_with_fuel(marker_open, 2);
    match t.phase {
        PrunePhase::Root => {},
        PrunePhase::Search { searching } => {
            let p = choose|p| #[trigger] searching.next(a, p) && t.searched(p, o);
        },
        PrunePhase::Examine { todo, at, probes, trees, examining } => {
            let p = choose|p|
                #[trigger] examining.next(a, p) && t.examined(todo, at, probes, trees, p, o);
            assert(examining.moves(events.last(), p));
            lemma_marker_step(examining, events.last(), p);
        },
        PrunePhase::Clear { trees, probes, at, cleared, clearing } => {
            let p = choose|p|
                #[trigger] clearing.next(a, p) && t.cleared(trees, probes, at, cleared, p, o);
        },
    }
}

proof fn lemma_opens(s: Pruning, events: Events, o: PruneStep)
    requires
        s.phase is Root,
        prunes(s, events, o),
    ensures
        opens_at_most(o, events),
    decreases events.len(),
{
    if events.len() > 0 {
        let p = choose|p: Pruning|
            prunes(s, events.drop_last(), Step::Ask(p)) && #[trigger] p.moves(events.last(), o);
        lemma_opens(s, events.drop_last(), Step::Ask(p));
        lemma_fits(s, events.drop_last(), p);
        lemma_opens_step(p, events, o);
    }
}

/// A pruning that has ended, well or not, holds no lock that it took.
pub proof fn law_an_ended_pruning_holds_nothing(
    s: Pruning,
    events: Events,
    r: Result<Report, Error>,
)
    requires
        s.phase is Root,
        prunes(s, events, PruneStep::Done(r)),
    ensures
        !shares_held(events),
        !marker_open(events),
{
    lemma_opens(s, events, Step::Done(r));
}

} // verus!
