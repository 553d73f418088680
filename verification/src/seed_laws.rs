//! What every seeding keeps to, whatever it is told.

use crate::error::Error;
use crate::fill::{is_blank, lemma_within_staging, FillStep, Filling};
use crate::fill_laws::{
    bytes_told, entries_counted, entries_told, entry_at, fills, has_arrived,
    law_every_entry_arrives, law_every_entry_is_counted_once,
};
use crate::lock::Acquiring;
use crate::nesting::{holder, law_resolution_keeps_the_rest, Resolution};
use crate::path::{here_part, os, views, within, FsPath};
use crate::probe::{law_probe_stays_in_its_directory, PROBE_DIR};
use crate::protocol::{
    marker_open, shares_held, Answer, Asked, Events, Lock, Request, Step, Walked, Written,
};
use crate::seed::{is_refusal, lemma_seed_step, Phase, Report, SeedStep, Seeding};
use crate::staging::{tells, ReleaseStage, Releasing, MARKER};
use vstd::prelude::*;

verus! {

impl Seeding {
    /// The seeding can be told that, and becomes `o`.
    pub open spec fn moves(self, event: (Asked, Answer), o: SeedStep) -> bool {
        &&& self.room()
        &&& event.0 == self.asked()
        &&& event.0.fits(event.1)
        &&& self.next(event.1, o)
    }
}

/// What a seeding that starts as `s` has become after all that.
pub open spec fn seeds(s: Seeding, events: Events, o: SeedStep) -> bool
    decreases events.len(),
{
    if events.len() == 0 {
        o == SeedStep::Ask(s)
    } else {
        exists|t: Seeding|
            seeds(s, events.drop_last(), Step::Ask(t)) && #[trigger] t.moves(events.last(), o)
    }
}

/// Nothing was made, changed or removed.
pub open spec fn nothing_written(events: Events) -> bool {
    forall|i: int| 0 <= i < events.len() ==> (#[trigger] events[i]).0.written() is None
}

/// The path was found to lead to `found`.
pub open spec fn resolved_as(events: Events, path: Seq<Seq<u8>>, found: Seq<Seq<u8>>) -> bool {
    exists|i: int, k: int| #[trigger] resolved_at(events, i, path, k, found)
}

/// The event of that index says where the first `k` components of the path lead,
/// and the path leads to what the others name there.
pub open spec fn resolved_at(
    events: Events,
    i: int,
    path: Seq<Seq<u8>>,
    k: int,
    found: Seq<Seq<u8>>,
) -> bool {
    &&& 0 <= i < events.len()
    &&& 0 <= k <= path.len()
    &&& events[i].0 matches Request::Canonicalize(part)
    &&& part == path.take(k) || (k == 0 && part == seq![here_part()])
    &&& events[i].1 matches Answer::Canonical(Ok(base))
    &&& found == base@ + path.skip(k)
}

/// The source was found to be at `source`.
pub open spec fn is_source(event: (Asked, Answer), src: Seq<Seq<u8>>, source: Seq<Seq<u8>>) -> bool {
    &&& event.0 matches Request::Canonicalize(path)
    &&& path == src
    &&& event.1 matches Answer::Canonical(Ok(base))
    &&& base@ == source
}

/// A marker was written at `path`.
pub open spec fn is_marking(event: (Asked, Answer), path: Seq<Seq<u8>>) -> bool {
    &&& event.0 matches Request::WriteMarker { path: p, .. }
    &&& p == path
    &&& event.1 == Answer::Written(Written::Done)
}

/// The walk came to its end.
pub open spec fn is_end_of_walk(event: (Asked, Answer)) -> bool {
    event.0 is NextEntry && event.1 == Answer::Walked(Walked::End)
}

/// The locks were let go of.
pub open spec fn is_unlocking(event: (Asked, Answer)) -> bool {
    event.0 is ReleaseLocks
}

/// What was at `from` is at `to`.
pub open spec fn is_renaming(
    event: (Asked, Answer),
    from: Seq<Seq<u8>>,
    to: Seq<Seq<u8>>,
) -> bool {
    &&& event.0 matches Request::Rename { from: f, to: t }
    &&& f == from
    &&& t == to
    &&& event.1 matches Answer::Done(Ok(_))
}

/// The marker at `path` was removed, or was gone already.
pub open spec fn is_unmarking(event: (Asked, Answer), path: Seq<Seq<u8>>) -> bool {
    &&& event.0 matches Request::RemoveFile(p)
    &&& p == path
    &&& event.1 matches Answer::Done(came)
    &&& came matches Err(f) ==> f.missing
}

/// It was known where the source leads.
pub open spec fn knows_source(events: Events, src: Seq<Seq<u8>>, source: Seq<Seq<u8>>) -> bool {
    exists|i: int| 0 <= i < events.len() && is_source(#[trigger] events[i], src, source)
}

/// The tree was marked.
pub open spec fn has_marked(events: Events, path: Seq<Seq<u8>>) -> bool {
    exists|i: int| 0 <= i < events.len() && is_marking(#[trigger] events[i], path)
}

/// The source was walked to the end.
pub open spec fn has_walked(events: Events) -> bool {
    exists|i: int| 0 <= i < events.len() && is_end_of_walk(#[trigger] events[i])
}

/// The locks were let go of.
pub open spec fn has_unlocked(events: Events) -> bool {
    exists|i: int| 0 <= i < events.len() && is_unlocking(#[trigger] events[i])
}

/// The tree was renamed.
pub open spec fn has_renamed(events: Events, from: Seq<Seq<u8>>, to: Seq<Seq<u8>>) -> bool {
    exists|i: int| 0 <= i < events.len() && is_renaming(#[trigger] events[i], from, to)
}

/// The marker was removed, or was gone already.
pub open spec fn has_unmarked(events: Events, path: Seq<Seq<u8>>) -> bool {
    exists|i: int| 0 <= i < events.len() && is_unmarking(#[trigger] events[i], path)
}

/// The seeding fits its history.
pub open spec fn recalls(t: Seeding, events: Events) -> bool {
    let marker = t.staging@.push(os(MARKER));
    &&& t.wf()
    &&& t.cleared() is None ==> nothing_written(events)
    &&& match t.phase {
        Phase::ResolveDest { source, .. } => knows_source(events, t.opts.src@, source@),
        Phase::ResolveStaging { source, dest, .. } => {
            &&& knows_source(events, t.opts.src@, source@)
            &&& resolved_as(events, t.opts.dest@, dest@)
        },
        _ => true,
    }
    &&& t.cleared() matches Some(clear) ==> {
        &&& knows_source(events, t.opts.src@, clear.source@)
        &&& resolved_as(events, t.opts.dest@, clear.dest@)
        &&& resolved_as(events, t.staging@, clear.staging@)
    }
    &&& (t.phase matches Phase::Mark { marking, .. } && marking.stage is TakeLock) ==> has_marked(
        events,
        marker,
    )
    &&& (t.phase is Fill || t.phase is Unlock || t.phase is Rename || t.phase is Unmark)
        ==> has_marked(events, marker)
    &&& (t.phase is Unlock || t.phase is Rename || t.phase is Unmark) ==> has_walked(events)
    &&& has_unlocked(events) == (t.phase is Rename || t.phase is Unmark || (
    t.phase matches Phase::GiveUp { unlock, .. } && !unlock))
    &&& t.phase is Unmark ==> has_renamed(events, t.staging@, t.opts.dest@)
    &&& (t.phase matches Phase::Unmark {
        releasing: Releasing { stage: ReleaseStage::Close { came: Ok(_) }, .. },
        ..
    }) ==> has_unmarked(events, t.opts.dest@.push(os(MARKER)))
}

/// What happened stays so when more happens.
pub proof fn lemma_more(events: Events)
    requires
        events.len() > 0,
    ensures
        forall|src, source|
            #![trigger knows_source(events.drop_last(), src, source)]
            knows_source(events.drop_last(), src, source) ==> knows_source(events, src, source),
        forall|path, found|
            #![trigger resolved_as(events.drop_last(), path, found)]
            resolved_as(events.drop_last(), path, found) ==> resolved_as(events, path, found),
        forall|path|
            #![trigger has_marked(events.drop_last(), path)]
            has_marked(events.drop_last(), path) ==> has_marked(events, path),
        has_walked(events.drop_last()) ==> has_walked(events),
        has_unlocked(events) == (has_unlocked(events.drop_last()) || is_unlocking(events.last())),
        forall|from, to|
            #![trigger has_renamed(events.drop_last(), from, to)]
            has_renamed(events.drop_last(), from, to) ==> has_renamed(events, from, to),
        nothing_written(events.drop_last()) && events.last().0.written() is None
            ==> nothing_written(events),
{
    let before = events.drop_last();
    assert forall|i: int| 0 <= i < before.len() implies before[i] == #[trigger] events[i] by {}
    assert(events[events.len() - 1] == events.last());
    assert forall|src, source| #![trigger knows_source(before, src, source)] knows_source(
        before,
        src,
        source,
    ) implies knows_source(events, src, source) by {
        let i = choose|i: int| 0 <= i < before.len() && is_source(#[trigger] before[i], src, source);
        assert(is_source(events[i], src, source));
    }
    assert forall|path, found| #![trigger resolved_as(before, path, found)] resolved_as(
        before,
        path,
        found,
    ) implies resolved_as(events, path, found) by {
        let (i, k) = choose|i: int, k: int| #[trigger] resolved_at(before, i, path, k, found);
        assert(resolved_at(events, i, path, k, found));
    }
    assert forall|path| #![trigger has_marked(before, path)] has_marked(
        before,
        path,
    ) implies has_marked(events, path) by {
        let i = choose|i: int| 0 <= i < before.len() && is_marking(#[trigger] before[i], path);
        assert(is_marking(events[i], path));
    }
    if has_walked(before) {
        let i = choose|i: int| 0 <= i < before.len() && is_end_of_walk(#[trigger] before[i]);
        assert(is_end_of_walk(events[i]));
    }
    if has_unlocked(before) {
        let i = choose|i: int| 0 <= i < before.len() && is_unlocking(#[trigger] before[i]);
        assert(is_unlocking(events[i]));
    }
    if has_unlocked(events) {
        let i = choose|i: int| 0 <= i < events.len() && is_unlocking(#[trigger] events[i]);
        if i < before.len() {
            assert(is_unlocking(before[i]));
        }
    }
    assert forall|from, to| #![trigger has_renamed(before, from, to)] has_renamed(
        before,
        from,
        to,
    ) implies has_renamed(events, from, to) by {
        let i = choose|i: int| 0 <= i < before.len() && is_renaming(#[trigger] before[i], from, to);
        assert(is_renaming(events[i], from, to));
    }
}

/// A search that comes to its end has found where the path leads.
proof fn lemma_found(events: Events, search: Resolution, found: FsPath)
    requires
        events.len() > 0,
        search.keeps(),
        events.last().0 == search.asked(),
        search.next(events.last().1, Step::<Resolution, Result<FsPath, Error>>::Done(Ok(found))),
    ensures
        resolved_as(events, search.path@, found@),
{
    if let Answer::Canonical(Ok(base)) = events.last().1 {
        law_resolution_keeps_the_rest(search, base, found);
        let k = choose|k: int|
            #![trigger search.path@.skip(k)]
            {
                &&& 0 <= k <= search.path@.len()
                &&& search.existing@ == search.path@.take(k) || (k == 0 && search.existing@
                    == seq![here_part()])
                &&& found@ == base@ + search.path@.skip(k)
            };
        assert(resolved_at(events, events.len() - 1, search.path@, k, found@));
    }
}

#[verifier::spinoff_prover]
#[verifier::rlimit(40)]
proof fn lemma_recalls_step(t: Seeding, events: Events, u: Seeding)
    requires
        events.len() > 0,
        recalls(t, events.drop_last()),
        t.moves(events.last(), SeedStep::Ask(u)),
    ensures
        recalls(u, events),
{
    let a = events.last().1;
    let o = SeedStep::Ask(u);
    let last = events.len() - 1;
    assert(events[last] == events.last());
    lemma_more(events);
    lemma_seed_step(t, a, o);
    match t.phase {
        Phase::SourceName => {
            if let Phase::ResolveDest { source, .. } = u.phase {
                assert(is_source(events[last], u.opts.src@, source@));
            }
        },
        Phase::ResolveDest { source, search } => {
            let p = choose|p| #[trigger] search.next(a, p) && t.dest_search(source, p, o);
            if let Step::Done(Ok(found)) = p {
                lemma_found(events, search, found);
            }
        },
        Phase::ResolveStaging { source, dest, search } => {
            let p = choose|p| #[trigger] search.next(a, p) && t.staging_search(source, dest, p, o);
            if let Step::Done(Ok(found)) = p {
                lemma_found(events, search, found);
            }
        },
        Phase::Mark { site, strategy, locks, marking } => {
            let p = choose|p|
                #[trigger] marking.next(a, p) && t.marked(site, strategy, locks, p, o);
            if marking.stage is Write && a == Answer::Written(Written::Done) {
                assert(is_marking(events[last], t.staging@.push(os(MARKER))));
            }
        },
        Phase::Fill { site, locks, held, filling } => {
            let p = choose|p| #[trigger] filling.next(a, p) && t.filled(site, locks, held, p, o);
            if p matches Step::Done(Ok(_)) {
                assert(is_end_of_walk(events[last]));
            }
        },
        Phase::Rename { .. } => {
            if a matches Answer::Done(Ok(_)) {
                assert(is_renaming(events[last], t.staging@, t.opts.dest@));
            }
        },
        Phase::Unmark { site, releasing, report } => {
            let p = choose|p| #[trigger] releasing.next(a, p) && t.unmarked(site, report, p, o);
            if u.phase matches Phase::Unmark {
                releasing: Releasing { stage: ReleaseStage::Close { came: Ok(_) }, .. },
                ..
            } {
                assert(is_unmarking(events[last], t.opts.dest@.push(os(MARKER))));
            }
        },
        _ => {},
    }
}

/// What is known of a seeding after some events.
pub proof fn lemma_recalls(s: Seeding, events: Events, t: Seeding)
    requires
        s.wf(),
        s.phase is Source,
        seeds(s, events, SeedStep::Ask(t)),
    ensures
        recalls(t, events),
        t.opts == s.opts,
        t.staging == s.staging,
    decreases events.len(),
{
    if events.len() > 0 {
        let p = choose|p: Seeding|
            seeds(s, events.drop_last(), Step::Ask(p)) && #[trigger] p.moves(
                events.last(),
                SeedStep::Ask(t),
            );
        lemma_recalls(s, events.drop_last(), p);
        lemma_recalls_step(p, events, t);
        lemma_seed_step(p, events.last().1, SeedStep::Ask(t));
    }
}

/// Nothing is made, changed or removed before it is known where the source, the
/// destination and the staged tree lead, and that neither of the latter two is
/// the source or inside it.
pub proof fn law_nothing_is_written_before_it_is_known_where(s: Seeding, events: Events, t: Seeding)
    requires
        s.wf(),
        s.phase is Source,
        seeds(s, events, SeedStep::Ask(t)),
        t.asked().written() is Some,
    ensures
        exists|source: Seq<Seq<u8>>, dest: Seq<Seq<u8>>, staging: Seq<Seq<u8>>|
            {
                &&& #[trigger] knows_source(events, s.opts.src@, source)
                &&& #[trigger] resolved_as(events, s.opts.dest@, dest)
                &&& #[trigger] resolved_as(events, s.opts.staged_at(), staging)
                &&& !within(dest, source)
                &&& !within(staging, source)
            },
{
    lemma_recalls(s, events, t);
    let clear = t.cleared()->0;
    assert(knows_source(events, s.opts.src@, clear.source@));
    assert(resolved_as(events, s.opts.dest@, clear.dest@));
    assert(resolved_as(events, s.opts.staged_at(), clear.staging@));
}

/// A seeding that is refused, because there is nothing to seed from, because
/// something is where the tree is to go or to be staged, or because one of them
/// is inside the source, has made, changed and removed nothing.
pub proof fn law_a_refusal_writes_nothing(s: Seeding, events: Events, e: Error)
    requires
        s.wf(),
        s.phase is Source,
        seeds(s, events, SeedStep::Done(Err(e))),
        is_refusal(e),
    ensures
        nothing_written(events),
{
    let o = SeedStep::Done(Err(e));
    let t = choose|t: Seeding|
        seeds(s, events.drop_last(), Step::Ask(t)) && #[trigger] t.moves(events.last(), o);
    let a = events.last().1;
    lemma_recalls(s, events.drop_last(), t);
    lemma_more(events);
    match t.phase {
        Phase::Probe { site, probe } => {
            let p = choose|p| #[trigger] probe.next(a, p) && t.probed(site, p, o);
        },
        Phase::Locks { site, strategy, taking } => {
            let p = choose|p| #[trigger] taking.next(a, p) && t.locked(site, strategy, p, o);
        },
        Phase::Mark { site, strategy, locks, marking } => {
            let p = choose|p|
                #[trigger] marking.next(a, p) && t.marked(site, strategy, locks, p, o);
        },
        Phase::Fill { site, locks, held, filling } => {
            let p = choose|p| #[trigger] filling.next(a, p) && t.filled(site, locks, held, p, o);
        },
        Phase::Unmark { site, releasing, report } => {
            let p = choose|p| #[trigger] releasing.next(a, p) && t.unmarked(site, report, p, o);
        },
        _ => {},
    }
}

/// Whether a seeding may make or change what is at `path`: the directories that
/// hold the tree and the staged tree, a probe beside the staged tree, what is in
/// the staged tree, the tree itself once it is renamed, and the marker in it.
pub open spec fn may_write(s: Seeding, path: Seq<Seq<u8>>) -> bool {
    ||| holder(s.opts.dest@) == Some(path)
    ||| holder(s.opts.staged_at()) == Some(path)
    ||| within(path, holder(s.opts.staged_at())->0.push(os(PROBE_DIR)))
    ||| within(path, s.opts.staged_at())
    ||| path == s.opts.dest@
    ||| path == s.opts.dest@.push(os(MARKER))
}

/// A seeding writes nowhere but where it says, and removes nothing but the files
/// of its probe and, in the end, its marker.
pub proof fn law_seeding_writes_only_where_it_says(s: Seeding, events: Events, t: Seeding)
    requires
        s.wf(),
        s.phase is Source,
        seeds(s, events, SeedStep::Ask(t)),
    ensures
        t.asked().written() matches Some(path) ==> may_write(s, path),
        t.asked().removes() ==> (t.asked().written() matches Some(path) && (within(
            path,
            holder(s.opts.staged_at())->0.push(os(PROBE_DIR)),
        ) || path == s.opts.dest@.push(os(MARKER)))),
{
    lemma_recalls(s, events, t);
    match t.phase {
        Phase::Probe { probe, .. } => {
            law_probe_stays_in_its_directory(probe);
        },
        Phase::Mark { marking, .. } => {
            let staging = t.staging@;
            assert(staging.take(staging.len() as int) =~= staging);
            assert(staging.push(os(MARKER)).take(staging.len() as int) =~= staging);
        },
        Phase::Fill { filling, .. } => {
            lemma_within_staging(filling);
        },
        _ => {},
    }
}

/// Nothing is put into the staged tree before the marker is in it, which says
/// what is being seeded and where it is going; and the marker is the one thing
/// in it that a seeding writes by itself.
pub proof fn law_marked_before_it_is_filled(s: Seeding, events: Events, t: Seeding)
    requires
        s.wf(),
        s.phase is Source,
        seeds(s, events, SeedStep::Ask(t)),
    ensures
        t.phase is Fill ==> has_marked(events, s.opts.staged_at().push(os(MARKER))),
        t.asked() matches Request::WriteMarker { path, text } ==> {
            &&& path == s.opts.staged_at().push(os(MARKER))
            &&& exists|pid: u32, now: u64|
                #[trigger] tells(text, s.opts.src.spelling(), s.opts.dest.spelling(), pid, now)
        },
{
    lemma_recalls(s, events, t);
    if let Phase::Mark { marking, .. } = t.phase {
        let (pid, now) = choose|pid: u32, now: u64|
            #[trigger] tells(
                marking.text@,
                s.opts.src.spelling(),
                s.opts.dest.spelling(),
                pid,
                now,
            );
        assert(tells(marking.text@, s.opts.src.spelling(), s.opts.dest.spelling(), pid, now));
        if let Request::WriteMarker { path, text } = t.asked() {
            assert(path == s.opts.staged_at().push(os(MARKER)));
            assert(text == marking.text@);
            assert(tells(text, s.opts.src.spelling(), s.opts.dest.spelling(), pid, now));
        }
    } else {
        assert(!(t.asked() is WriteMarker));
    }
}

/// No build lock is let go of while the source is read.
pub proof fn law_locked_while_it_is_read(s: Seeding, events: Events, t: Seeding)
    requires
        s.wf(),
        s.phase is Source,
        seeds(s, events, SeedStep::Ask(t)),
        t.phase is Fill,
    ensures
        !has_unlocked(events),
{
    lemma_recalls(s, events, t);
}

/// The staged tree is renamed only once the whole source has been walked, and
/// with the marker in it.
pub proof fn law_renamed_only_when_whole(s: Seeding, events: Events, t: Seeding)
    requires
        s.wf(),
        s.phase is Source,
        seeds(s, events, SeedStep::Ask(t)),
        t.asked() is Rename,
    ensures
        has_walked(events),
        has_unlocked(events),
        has_marked(events, s.opts.staged_at().push(os(MARKER))),
{
    lemma_recalls(s, events, t);
}

/// A seeding that ends well has marked a tree, filled it from the whole source,
/// renamed it to the destination, and, last of all, taken the marker out of it
/// there and let go of it.
pub proof fn law_a_seeded_tree_is_whole(s: Seeding, events: Events, report: Report)
    requires
        s.wf(),
        s.phase is Source,
        seeds(s, events, SeedStep::Done(Ok(report))),
    ensures
        report.dest@ == s.opts.dest@,
        has_marked(events, s.opts.staged_at().push(os(MARKER))),
        has_walked(events),
        has_unlocked(events),
        has_renamed(events, s.opts.staged_at(), s.opts.dest@),
        events.len() > 0,
        events.last().0 is CloseMarker,
        exists|i: int|
            0 <= i < events.len() - 1 && is_unmarking(
                #[trigger] events[i],
                s.opts.dest@.push(os(MARKER)),
            ),
{
    let o = SeedStep::Done(Ok(report));
    let before = events.drop_last();
    let t = choose|t: Seeding|
        seeds(s, events.drop_last(), Step::Ask(t)) && #[trigger] t.moves(events.last(), o);
    lemma_recalls(s, before, t);
    lemma_more(events);
    let i = choose|i: int|
        0 <= i < before.len() && is_unmarking(#[trigger] before[i], s.opts.dest@.push(os(MARKER)));
    assert(is_unmarking(events[i], s.opts.dest@.push(os(MARKER))));
}

/// How many build locks were taken.
pub open spec fn locks_taken(events: Events) -> nat
    decreases events.len(),
{
    if events.len() == 0 {
        0
    } else {
        locks_taken(events.drop_last()) + if events.last().0 is LockShared && events.last().1
            == Answer::Lock(Lock::Taken) {
            1nat
        } else {
            0nat
        }
    }
}

/// How many build locks the seeding holds, or reports that it held.
pub open spec fn locks_known(t: Seeding) -> nat {
    match t.phase {
        Phase::Locks { taking: Acquiring::Take { held, .. }, .. } => held@.len(),
        Phase::Stamp { locks, .. } => locks.held@.len(),
        Phase::Mark { locks, .. } => locks.held@.len(),
        Phase::Fill { locks, .. } => locks.held@.len(),
        Phase::Unlock { locks, .. } => locks.held@.len(),
        Phase::Rename { report, .. } => report.build_locks_held as nat,
        Phase::Unmark { report, .. } => report.build_locks_held as nat,
        _ => 0,
    }
}

/// The seeding has not been stopped.
pub open spec fn is_going_on(t: Seeding) -> bool {
    match t.phase {
        Phase::Locks { taking: Acquiring::Refuse { .. }, .. } => false,
        Phase::GiveUp { .. } => false,
        Phase::LetGo { .. } => false,
        _ => true,
    }
}

#[verifier::spinoff_prover]
proof fn lemma_locks_step(t: Seeding, event: (Asked, Answer), o: SeedStep)
    requires
        t.wf(),
        t.moves(event, o),
    ensures
        o matches Step::Ask(u) ==> is_going_on(u) ==> is_going_on(t) && locks_known(u)
            == locks_known(t) + locks_taken(seq![event]),
        o matches Step::Done(Ok(report)) ==> is_going_on(t) && report.build_locks_held
            == locks_known(t) + locks_taken(seq![event]),
{
    let a = event.1;
    assert(seq![event].drop_last() =~= Seq::empty());
    reveal_with_fuel(locks_taken, 2);
    match t.phase {
        Phase::Probe { site, probe } => {
            let p = choose|p| #[trigger] probe.next(a, p) && t.probed(site, p, o);
        },
        Phase::Locks { site, strategy, taking } => {
            let p = choose|p| #[trigger] taking.next(a, p) && t.locked(site, strategy, p, o);
            match p {
                Step::Ask(Acquiring::Take { held, .. }) => {
                    assert(views(held@).len() == held@.len());
                },
                Step::Done(Ok(locks)) => {
                    assert(views(locks.held@).len() == locks.held@.len());
                },
                _ => {},
            }
            if let Acquiring::Take { held, .. } = taking {
                assert(views(held@).len() == held@.len());
            }
        },
        Phase::Mark { site, strategy, locks, marking } => {
            let p = choose|p|
                #[trigger] marking.next(a, p) && t.marked(site, strategy, locks, p, o);
        },
        Phase::Fill { site, locks, held, filling } => {
            let p = choose|p| #[trigger] filling.next(a, p) && t.filled(site, locks, held, p, o);
        },
        Phase::Unmark { site, releasing, report } => {
            let p = choose|p| #[trigger] releasing.next(a, p) && t.unmarked(site, report, p, o);
        },
        _ => {},
    }
}

proof fn lemma_locks(s: Seeding, events: Events, t: Seeding)
    requires
        s.wf(),
        s.phase is Source,
        seeds(s, events, SeedStep::Ask(t)),
    ensures
        is_going_on(t) ==> locks_known(t) == locks_taken(events),
    decreases events.len(),
{
    if events.len() > 0 {
        let p = choose|p: Seeding|
            seeds(s, events.drop_last(), Step::Ask(p)) && #[trigger] p.moves(
                events.last(),
                SeedStep::Ask(t),
            );
        lemma_locks(s, events.drop_last(), p);
        lemma_recalls(s, events.drop_last(), p);
        lemma_locks_step(p, events.last(), SeedStep::Ask(t));
        assert(seq![events.last()].drop_last() =~= Seq::empty());
        reveal_with_fuel(locks_taken, 2);
    }
}

/// What is reported of the build locks is how many were taken.
pub proof fn law_locks_are_reported_as_held(s: Seeding, events: Events, report: Report)
    requires
        s.wf(),
        s.phase is Source,
        seeds(s, events, SeedStep::Done(Ok(report))),
    ensures
        report.build_locks_held == locks_taken(events),
{
    let o = SeedStep::Done(Ok(report));
    let t = choose|t: Seeding|
        seeds(s, events.drop_last(), Step::Ask(t)) && #[trigger] t.moves(events.last(), o);
    lemma_locks(s, events.drop_last(), t);
    lemma_recalls(s, events.drop_last(), t);
    lemma_locks_step(t, events.last(), o);
    assert(seq![events.last()].drop_last() =~= Seq::empty());
    reveal_with_fuel(locks_taken, 2);
}

/// The building that a seeding of that kind starts with.
pub open spec fn is_its_filling(b: Filling, s: Seeding) -> bool {
    &&& b.stage is MakeRoot
    &&& b.src@ == s.opts.src@
    &&& b.staging@ == s.opts.staged_at()
    &&& b.min_shared_size == s.opts.min_shared_size
    &&& b.platform == s.platform
    &&& is_blank(b.report, b.report.strategy, b.report.dest@)
}

/// The events from index `from` up to index `to` build the tree, and come to
/// `o`.
pub open spec fn built_by(
    events: Events,
    from: int,
    to: int,
    s: Seeding,
    b: Filling,
    o: FillStep,
) -> bool {
    &&& 0 <= from <= to <= events.len()
    &&& is_its_filling(b, s)
    &&& fills(b, events.subrange(from, to), o)
}

/// The reports differ in nothing but where the tree is and how many locks were
/// held.
pub open spec fn counts_as(report: Report, built: Report) -> bool {
    report == (Report {
        dest: report.dest,
        build_locks_held: report.build_locks_held,
        ..built
    })
}

/// The building of the tree is part of the history.
pub open spec fn recalls_building(t: Seeding, events: Events) -> bool {
    match t.phase {
        Phase::Fill { filling, .. } => exists|from: int, b: Filling| #[trigger]
            built_by(events, from, events.len() as int, t, b, FillStep::Ask(filling)),
        Phase::Unlock { report, .. } => has_built(t, events, report),
        Phase::Rename { report, .. } => has_built(t, events, report),
        Phase::Unmark { report, .. } => has_built(t, events, report),
        _ => true,
    }
}

/// The tree was built, with that report but for where it is and how many locks
/// were held.
pub open spec fn has_built(s: Seeding, events: Events, report: Report) -> bool {
    exists|from: int, to: int, b: Filling, built: Report| #[trigger]
        built_by(events, from, to, s, b, FillStep::Done(Ok(built))) && counts_as(report, built)
}

proof fn lemma_still_built(t: Seeding, u: Seeding, events: Events, report: Report, more: Report)
    requires
        events.len() > 0,
        u.opts == t.opts,
        u.platform == t.platform,
        has_built(t, events.drop_last(), report),
        counts_as(more, report),
    ensures
        has_built(u, events, more),
{
    let before = events.drop_last();
    let (from, to, b, built) = choose|from: int, to: int, b: Filling, built: Report| #[trigger]
        built_by(before, from, to, t, b, FillStep::Done(Ok(built))) && counts_as(report, built);
    assert(events.subrange(from, to) =~= before.subrange(from, to));
    assert(built_by(events, from, to, u, b, FillStep::Done(Ok(built))));
}

#[verifier::spinoff_prover]
proof fn lemma_building_step(t: Seeding, events: Events, o: SeedStep)
    requires
        events.len() > 0,
        t.wf(),
        recalls_building(t, events.drop_last()),
        t.moves(events.last(), o),
    ensures
        o matches Step::Ask(u) ==> recalls_building(u, events),
        o matches Step::Done(Ok(report)) ==> has_built(t, events, report),
{
    let before = events.drop_last();
    let a = events.last().1;
    let n = events.len() as int;
    if let Step::Ask(u) = o {
        lemma_seed_step(t, a, o);
    }
    match t.phase {
        Phase::Mark { site, strategy, locks, marking } => {
            let p = choose|p|
                #[trigger] marking.next(a, p) && t.marked(site, strategy, locks, p, o);
            if let Step::Ask(u) = o {
                if let Phase::Fill { filling, .. } = u.phase {
                    assert(events.subrange(n, n) =~= Seq::empty());
                    assert(fills(filling, events.subrange(n, n), FillStep::Ask(filling)));
                    assert(built_by(events, n, n, u, filling, FillStep::Ask(filling)));
                }
            }
        },
        Phase::Fill { site, locks, held, filling } => {
            let p = choose|p| #[trigger] filling.next(a, p) && t.filled(site, locks, held, p, o);
            let (from, b) = choose|from: int, b: Filling| #[trigger]
                built_by(before, from, n - 1, t, b, FillStep::Ask(filling));
            let part = events.subrange(from, n);
            assert(part.drop_last() =~= before.subrange(from, n - 1));
            assert(part.last() == events.last());
            assert(filling.moves(part.last(), p));
            assert(fills(b, part, p));
            if let Step::Ask(u) = o {
                assert(built_by(events, from, n, u, b, p));
                if let Phase::Unlock { report, .. } = u.phase {
                    assert(counts_as(report, report));
                    assert(has_built(u, events, report));
                }
            }
        },
        Phase::Unlock { report, .. } => {
            if let Step::Ask(u) = o {
                if let Phase::Rename { report: more, .. } = u.phase {
                    lemma_still_built(t, u, events, report, more);
                }
            }
        },
        Phase::Rename { report, .. } => {
            if let Step::Ask(u) = o {
                if let Phase::Unmark { report: more, .. } = u.phase {
                    lemma_still_built(t, u, events, report, more);
                }
            }
        },
        Phase::Unmark { site, releasing, report } => {
            let p = choose|p| #[trigger] releasing.next(a, p) && t.unmarked(site, report, p, o);
            lemma_still_built(t, t, events, report, report);
            if let Step::Ask(u) = o {
                lemma_still_built(t, u, events, report, report);
            }
        },
        _ => {},
    }
}

proof fn lemma_building(s: Seeding, events: Events, t: Seeding)
    requires
        s.wf(),
        s.phase is Source,
        seeds(s, events, SeedStep::Ask(t)),
    ensures
        recalls_building(t, events),
        t.opts == s.opts,
        t.platform == s.platform,
    decreases events.len(),
{
    if events.len() > 0 {
        let p = choose|p: Seeding|
            seeds(s, events.drop_last(), Step::Ask(p)) && #[trigger] p.moves(
                events.last(),
                SeedStep::Ask(t),
            );
        lemma_building(s, events.drop_last(), p);
        lemma_recalls(s, events.drop_last(), p);
        lemma_building_step(p, events, SeedStep::Ask(t));
        lemma_seed_step(p, events.last().1, SeedStep::Ask(t));
    }
}

/// A seeding that ends well has built its tree from the source by a building
/// that ended well, and reports what that building counted: so every entry of
/// the source that was handed out has arrived in the staged tree, and is counted
/// once.
pub proof fn law_a_seeded_tree_has_every_entry(s: Seeding, events: Events, report: Report)
    requires
        s.wf(),
        s.phase is Source,
        seeds(s, events, SeedStep::Done(Ok(report))),
    ensures
        exists|from: int, to: int, b: Filling, built: Report|
            {
                let part = events.subrange(from, to);
                &&& #[trigger] built_by(events, from, to, s, b, FillStep::Done(Ok(built)))
                &&& counts_as(report, built)
                &&& entries_counted(report) == entries_told(part)
                &&& report.shared_bytes + report.copied_bytes == bytes_told(part)
                &&& forall|i: int|
                    0 <= i < part.len() ==> (#[trigger] entry_at(part, i) matches Some(entry)
                        ==> has_arrived(b, part, entry))
            },
{
    let o = SeedStep::Done(Ok(report));
    let t = choose|t: Seeding|
        seeds(s, events.drop_last(), Step::Ask(t)) && #[trigger] t.moves(events.last(), o);
    lemma_building(s, events.drop_last(), t);
    lemma_recalls(s, events.drop_last(), t);
    lemma_building_step(t, events, o);
    let (from, to, b, built) = choose|from: int, to: int, b: Filling, built: Report| #[trigger]
        built_by(events, from, to, t, b, FillStep::Done(Ok(built))) && counts_as(report, built);
    let part = events.subrange(from, to);
    law_every_entry_is_counted_once(b, part, built);
    assert forall|i: int| 0 <= i < part.len() implies (#[trigger] entry_at(
        part,
        i,
    ) matches Some(entry) ==> has_arrived(b, part, entry)) by {
        law_every_entry_arrives(b, part, built, i);
    }
    assert(built_by(events, from, to, s, b, FillStep::Done(Ok(built))));
}

/// What a seeding may still have to let go of: build locks, and a marker.
pub open spec fn may_hold(t: Seeding) -> (bool, bool) {
    match t.phase {
        Phase::Locks { taking: Acquiring::Take { .. }, .. } => (true, false),
        Phase::Locks { taking: Acquiring::Refuse { .. }, .. } => (true, false),
        Phase::Stamp { .. } => (true, false),
        Phase::Mark { marking, .. } => (
            true,
            marking.stage is TakeLock || marking.stage is Close,
        ),
        Phase::Fill { .. } => (true, true),
        Phase::Unlock { .. } => (true, true),
        Phase::Rename { .. } => (false, true),
        Phase::Unmark { .. } => (false, true),
        Phase::GiveUp { unlock, .. } => (unlock, true),
        Phase::LetGo { .. } => (true, false),
        _ => (false, false),
    }
}

/// No more is held than the seeding may still have to let go of; nothing where
/// it is done.
pub open spec fn holds_at_most(o: SeedStep, events: Events) -> bool {
    match o {
        Step::Ask(t) => {
            &&& shares_held(events) ==> may_hold(t).0
            &&& marker_open(events) ==> may_hold(t).1
        },
        Step::Done(_) => !shares_held(events) && !marker_open(events),
    }
}

#[verifier::spinoff_prover]
#[verifier::rlimit(40)]
proof fn lemma_holds_step(t: Seeding, events: Events, o: SeedStep)
    requires
        events.len() > 0,
        t.wf(),
        holds_at_most(SeedStep::Ask(t), events.drop_last()),
        t.moves(events.last(), o),
    ensures
        holds_at_most(o, events),
{
    let a = events.last().1;
    match t.phase {
        Phase::ResolveDest { source, search } => {
            let p = choose|p| #[trigger] search.next(a, p) && t.dest_search(source, p, o);
        },
        Phase::ResolveStaging { source, dest, search } => {
            let p = choose|p| #[trigger] search.next(a, p) && t.staging_search(source, dest, p, o);
        },
        Phase::Probe { site, probe } => {
            let p = choose|p| #[trigger] probe.next(a, p) && t.probed(site, p, o);
        },
        Phase::Locks { site, strategy, taking } => {
            let p = choose|p| #[trigger] taking.next(a, p) && t.locked(site, strategy, p, o);
        },
        Phase::Mark { site, strategy, locks, marking } => {
            let p = choose|p|
                #[trigger] marking.next(a, p) && t.marked(site, strategy, locks, p, o);
        },
        Phase::Fill { site, locks, held, filling } => {
            let p = choose|p| #[trigger] filling.next(a, p) && t.filled(site, locks, held, p, o);
        },
        Phase::Unmark { site, releasing, report } => {
            let p = choose|p| #[trigger] releasing.next(a, p) && t.unmarked(site, report, p, o);
        },
        _ => {},
    }
}

proof fn lemma_holds(s: Seeding, events: Events, o: SeedStep)
    requires
        s.wf(),
        s.phase is Source,
        seeds(s, events, o),
    ensures
        holds_at_most(o, events),
    decreases events.len(),
{
    if events.len() > 0 {
        let p = choose|p: Seeding|
            seeds(s, events.drop_last(), Step::Ask(p)) && #[trigger] p.moves(events.last(), o);
        lemma_holds(s, events.drop_last(), Step::Ask(p));
        lemma_recalls(s, events.drop_last(), p);
        lemma_holds_step(p, events, o);
    }
}

/// A seeding that has ended, well or not, holds no lock that it took: neither a
/// share of a build lock nor its marker.
pub proof fn law_an_ended_seeding_holds_nothing(
    s: Seeding,
    events: Events,
    r: Result<Report, Error>,
)
    requires
        s.wf(),
        s.phase is Source,
        seeds(s, events, SeedStep::Done(r)),
    ensures
        !shares_held(events),
        !marker_open(events),
{
    lemma_holds(s, events, Step::Done(r));
}

} // verus!
