//! How a seeding goes from one step to the next, and what it refuses.

use crate::error::{Error, Failure};
use crate::lock::BuildLocks;
use crate::nesting::Resolution;
use crate::path::FsPath;
use crate::probe::{ProbeStage, Probing};
use crate::protocol::{Answer, Asked, Events, Request, Step};
use crate::seed::{
    lemma_seed_step, Clearance, Phase, Report, SeedStep, Seeding, Site, Strategy,
};
use crate::seed_laws::seeds;
use crate::staging::{tells, Held, MarkStage, Marking};
use vstd::prelude::*;
use vstd::utf8::encode_utf8;

verus! {

/// No device number was asked for.
pub open spec fn no_device_asked(events: Events) -> bool {
    forall|i: int| 0 <= i < events.len() ==> !((#[trigger] events[i]).0 is Device)
}

/// The device number of `path` was asked for last, and was said to be that.
pub open spec fn told_last(events: Events, path: Seq<Seq<u8>>, device: Option<u64>) -> bool {
    &&& events.len() > 0
    &&& events.last().0 matches Request::Device(p)
    &&& p == path
    &&& events.last().1 matches Answer::Device(Ok(d))
    &&& d == device
}

/// The seeding fits what it was told of devices.
pub open spec fn recalls_devices(t: Seeding, events: Events) -> bool {
    match t.phase {
        Phase::Source | Phase::Destination | Phase::Staging | Phase::SourceName => no_device_asked(
            events,
        ),
        Phase::ResolveDest { .. } | Phase::ResolveStaging { .. } => no_device_asked(events),
        Phase::MakeDestParent { .. } | Phase::MakeStagingParent { .. } => no_device_asked(events),
        Phase::StagingDevice { .. } => no_device_asked(events),
        Phase::DestDevice { site, left } => {
            &&& no_device_asked(events.drop_last())
            &&& told_last(events, site.staging_parent@, left)
        },
        Phase::SourceDevice { .. } => !no_device_asked(events) && events.len() > 0 && !(
        events.last().0 is Device),
        Phase::LinkDevice { left, .. } => {
            &&& !no_device_asked(events.drop_last())
            &&& told_last(events, t.opts.src@, left)
        },
        Phase::Probe { .. } => !no_device_asked(events),
        Phase::GiveUp { error, .. } => !(error is CrossDevice),
        Phase::LetGo { error, .. } => !(error is CrossDevice),
        _ => true,
    }
}

proof fn lemma_asked_before(events: Events)
    requires
        events.len() > 0,
    ensures
        no_device_asked(events) == (no_device_asked(events.drop_last()) && !(
        events.last().0 is Device)),
{
    let before = events.drop_last();
    assert(events.last() == events[events.len() - 1]);
    assert forall|i: int| 0 <= i < before.len() implies before[i] == #[trigger] events[i] by {}
    if no_device_asked(events) {
        assert forall|i: int| 0 <= i < before.len() implies !((#[trigger] before[i]).0 is Device) by {
            assert(before[i] == events[i]);
        }
    }
}

#[verifier::spinoff_prover]
#[verifier::rlimit(40)]
proof fn lemma_devices_step(t: Seeding, events: Events, o: SeedStep)
    requires
        events.len() > 0,
        t.wf(),
        recalls_devices(t, events.drop_last()),
        t.moves(events.last(), o),
    ensures
        o matches Step::Ask(u) ==> recalls_devices(u, events) && u.wf() && u.opts == t.opts,
        (o matches Step::Done(Err(Error::CrossDevice { .. }))) ==> t.phase is DestDevice
            || t.phase is LinkDevice,
{
    let a = events.last().1;
    lemma_asked_before(events);
    lemma_seed_step(t, a, o);
    match t.phase {
        Phase::ResolveDest { source, search } => {
            let p = choose|p| #[trigger] search.next(a, p) && t.dest_search(source, p, o);
        },
        Phase::ResolveStaging { source, dest, search } => {
            let p = choose|p| #[trigger] search.next(a, p) && t.staging_search(source, dest, p, o);
        },
        Phase::Probe { site, probe } => {
            let p = choose|p| #[trigger] probe.next(a, p) && t.probed(site, p, o);
        },
        Phase::Locks { site, strategy, taking } => {
            let p = choose|p| #[trigger] taking.next(a, p) && t.locked(site, strategy, p, o);
        },
        Phase::Mark { site, strategy, locks, marking } => {
            let p = choose|p|
                #[trigger] marking.next(a, p) && t.marked(site, strategy, locks, p, o);
        },
        Phase::Fill { site, locks, held, filling } => {
            let p = choose|p| #[trigger] filling.next(a, p) && t.filled(site, locks, held, p, o);
        },
        Phase::Unmark { site, releasing, report } => {
            let p = choose|p| #[trigger] releasing.next(a, p) && t.unmarked(site, report, p, o);
        },
        _ => {},
    }
}

proof fn lemma_devices(s: Seeding, events: Events, t: Seeding)
    requires
        s.wf(),
        s.phase is Source,
        seeds(s, events, SeedStep::Ask(t)),
    ensures
        recalls_devices(t, events),
        t.wf(),
        t.opts == s.opts,
    decreases events.len(),
{
    if events.len() > 0 {
        let u = choose|u: Seeding|
            seeds(s, events.drop_last(), Step::Ask(u)) && #[trigger] u.moves(
                events.last(),
                SeedStep::Ask(t),
            );
        lemma_devices(s, events.drop_last(), u);
        lemma_devices_step(u, events, SeedStep::Ask(t));
    }
}

/// Two paths are held to be on different file systems if and only if both device
/// numbers are known and are not the same. A seeding that is told two such
/// numbers, one after the other, is refused as going across file systems, from
/// the path of the first to that of the second; one that is told anything else
/// goes on, to the probe after the first two, and to the build locks of the
/// source after the second two.
pub proof fn law_refused_if_and_only_if_devices_differ(
    s: Seeding,
    events: Events,
    left: Seq<Seq<u8>>,
    a: Option<u64>,
    right: Seq<Seq<u8>>,
    b: Option<u64>,
    o: SeedStep,
)
    requires
        s.wf(),
        s.phase is Source,
        seeds(s, events.push((Request::Device(left), Answer::Device(Ok(a)))).push(
            (Request::Device(right), Answer::Device(Ok(b))),
        ), o),
    ensures
        match (a, b) {
            (Some(x), Some(y)) if x != y => {
                &&& o matches Step::Done(Err(Error::CrossDevice { src, dest }))
                &&& src@ == left
                &&& dest@ == right
            },
            _ => {
                &&& o matches Step::Ask(t)
                &&& if exists|i: int| 0 <= i < events.len() && (#[trigger] events[i]).0 is Device {
                    t.asked() matches Request::List(p) && p == s.opts.src@ && left == p
                } else {
                    t.asked() matches Request::CreateDirAll(p) && p == left.push(
                        encode_utf8(".cargo-shared-target-probe"@),
                    )
                }
            },
        },
{
    let one = events.push((Request::Device(left), Answer::Device(Ok(a))));
    let both = one.push((Request::Device(right), Answer::Device(Ok(b))));
    assert(both.drop_last() =~= one);
    assert(one.drop_last() =~= events);
    let t = choose|t: Seeding|
        seeds(s, both.drop_last(), Step::Ask(t)) && #[trigger] t.moves(both.last(), o);
    lemma_devices(s, one, t);
    assert(t.asked() is Device);
    assert(one.last().0 is Device);
    assert(t.phase is DestDevice || t.phase is LinkDevice || t.phase is StagingDevice
        || t.phase is SourceDevice) by {
        lemma_who_asks_devices(t);
    }
    if t.phase is StagingDevice {
        assert(one[one.len() - 1].0 is Device);
    }
}

proof fn lemma_who_asks_devices(t: Seeding)
    requires
        t.asked() is Device,
    ensures
        t.phase is DestDevice || t.phase is LinkDevice || t.phase is StagingDevice
            || t.phase is SourceDevice,
{
}

/// A seeding that is refused as going across file systems was told, of the two
/// paths that it names, two different device numbers, one after the other and
/// last of all.
pub proof fn law_refused_only_across_devices(s: Seeding, events: Events, e: Error)
    requires
        s.wf(),
        s.phase is Source,
        e is CrossDevice,
        seeds(s, events, SeedStep::Done(Err(e))),
    ensures
        events.len() >= 2,
        e matches Error::CrossDevice { src, dest } && {
            let first = events[events.len() - 2];
            let second = events[events.len() - 1];
            &&& first.0 matches Request::Device(p)
            &&& p == src@
            &&& second.0 matches Request::Device(q)
            &&& q == dest@
            &&& first.1 matches Answer::Device(Ok(Some(a)))
            &&& second.1 matches Answer::Device(Ok(Some(b)))
            &&& a != b
        },
{
    let o = SeedStep::Done(Err(e));
    let t = choose|t: Seeding|
        seeds(s, events.drop_last(), Step::Ask(t)) && #[trigger] t.moves(events.last(), o);
    lemma_devices(s, events.drop_last(), t);
    lemma_devices_step(t, events, o);
    assert(events.drop_last().last() == events[events.len() - 2]);
}

/// A seeding asks whether the source is a directory, whether the destination is
/// there, and whether the staged tree is, and is refused by the first answer that
/// is not the one it needs; it then asks where the source is.
pub proof fn law_how_a_seeding_begins(
    s: Seeding,
    is_dir: bool,
    o: SeedStep,
    taken: bool,
    p: SeedStep,
    staged: bool,
    q: SeedStep,
    source: Result<FsPath, Failure>,
    r: SeedStep,
)
    requires
        s.phase is Source,
        s.next(Answer::Flag(is_dir), o),
        o matches Step::Ask(t) ==> t.next(Answer::Flag(taken), p),
        o is Ask ==> (p matches Step::Ask(t) ==> t.next(Answer::Flag(staged), q)),
        o is Ask && p is Ask ==> (q matches Step::Ask(t) ==> t.next(Answer::Canonical(source), r)),
    ensures
        s.asked() matches Request::IsDir(path) && path == s.opts.src@,
        if !is_dir {
            o == SeedStep::Done(Err(Error::SourceMissing(s.opts.src)))
        } else {
            &&& o matches Step::Ask(t)
            &&& t.asked() matches Request::Exists(path)
            &&& path == s.opts.dest@
            &&& if taken {
                p == SeedStep::Done(Err(Error::DestinationExists(s.opts.dest)))
            } else {
                &&& p matches Step::Ask(u)
                &&& u.asked() matches Request::Exists(path)
                &&& path == s.staging@
                &&& if staged {
                    q == SeedStep::Done(Err(Error::StagingExists(s.staging)))
                } else {
                    &&& q matches Step::Ask(v)
                    &&& v.asked() matches Request::Canonicalize(path)
                    &&& path == s.opts.src@
                    &&& match source {
                        Ok(_) => r matches Step::Ask(w) && (w.asked() matches Request::Canonicalize(
                            path,
                        ) && path == s.opts.dest@) && w.opts == s.opts && w.staging == s.staging
                            && w.platform == s.platform,
                        Err(f) => r matches Step::Done(Err(Error::Io { op, path, source }))
                            && op@ == "resolving"@ && path@ == s.opts.src@ && source == f.source,
                    }
                }
            }
        },
{
}

/// What a path is in: the path without its last component; the directory that
/// relative paths start from where there is no other; nothing for the root and
/// for the path of no components.
pub open spec fn is_its_directory(path: Seq<Seq<u8>>, dir: Seq<Seq<u8>>) -> bool {
    &&& path.len() > 0
    &&& path.last() != seq![0x2fu8]
    &&& dir == if path.len() == 1 {
        seq![seq![0x2eu8]]
    } else {
        path.drop_last()
    }
}

/// A seeding is refused if and only if the destination leads into the source, or
/// to it, and then if and only if the staged tree does. Where neither does, the
/// directory of the destination is made; a destination without one is refused.
pub proof fn law_refused_if_and_only_if_inside_the_source(
    t: Seeding,
    source: FsPath,
    search: Resolution,
    base: FsPath,
    o: SeedStep,
    u: Seeding,
    dest: FsPath,
    p: SeedStep,
)
    requires
        t.phase == (Phase::ResolveDest { source, search }),
        t.next(Answer::Canonical(Ok(base)), o),
        u.phase == (Phase::ResolveStaging { source, dest, search }),
        u.next(Answer::Canonical(Ok(base)), p),
    ensures
        match o {
            Step::Done(Err(Error::DestinationInsideSource { src, dest })) => source@.is_prefix_of(
                base@ + search.rest(),
            ) && src == source && dest@ == base@ + search.rest(),
            Step::Ask(v) => !source@.is_prefix_of(base@ + search.rest()) && (
            v.asked() matches Request::Canonicalize(path) && path == t.staging@),
            _ => false,
        },
        match p {
            Step::Done(Err(Error::DestinationInsideSource { src, dest })) => source@.is_prefix_of(
                base@ + search.rest(),
            ) && src == source && dest@ == base@ + search.rest(),
            Step::Done(Err(Error::DestinationHasNoParent(path))) => !source@.is_prefix_of(
                base@ + search.rest(),
            ) && path == u.opts.dest && (path@.len() == 0 || path@.last() == seq![0x2fu8]),
            Step::Ask(v) => !source@.is_prefix_of(base@ + search.rest()) && (
            v.asked() matches Request::CreateDirAll(dir) && is_its_directory(u.opts.dest@, dir)),
            _ => false,
        },
{
    let a = Answer::Canonical(Ok(base));
    let r = choose|r| #[trigger] search.next(a, r) && t.dest_search(source, r, o);
    let r = choose|r| #[trigger] search.next(a, r) && u.staging_search(source, dest, r, p);
}

/// The directories of the destination and of the staged tree are made, in that
/// order, and then asked for their devices, the other way round.
pub proof fn law_what_is_made_first(
    t: Seeding,
    clear: Clearance,
    dest_parent: FsPath,
    o: SeedStep,
    p: SeedStep,
    a: Option<u64>,
    q: SeedStep,
    f: Failure,
    r: SeedStep,
    x: SeedStep,
)
    requires
        t.phase == (Phase::MakeDestParent { clear, dest_parent }),
        t.next(Answer::Done(Ok(())), o),
        o matches Step::Ask(u) ==> u.next(Answer::Done(Ok(())), p) && u.next(
            Answer::Done(Err(f)),
            x,
        ),
        o is Ask ==> (p matches Step::Ask(u) ==> u.next(Answer::Device(Ok(a)), q)),
        t.next(Answer::Done(Err(f)), r),
    ensures
        t.asked() matches Request::CreateDirAll(path) && path == dest_parent@,
        match o {
            Step::Done(Err(Error::DestinationHasNoParent(path))) => path == t.staging && (
            path@.len() == 0 || path@.last() == seq![0x2fu8]),
            Step::Ask(u) => {
                &&& u.asked() matches Request::CreateDirAll(dir)
                &&& is_its_directory(t.staging@, dir)
                &&& p matches Step::Ask(v)
                &&& v.asked() matches Request::Device(path)
                &&& path == dir
                &&& q matches Step::Ask(w)
                &&& w.asked() matches Request::Device(path)
                &&& path == dest_parent@
                &&& x matches Step::Done(Err(Error::Io { op, path, source }))
                &&& op@ == "creating"@
                &&& path@ == dir
                &&& source == f.source
            },
            _ => false,
        },
        r matches Step::Done(Err(Error::Io { op, path, source })) && op@ == "creating"@ && path@
            == dest_parent@ && source == f.source,
{
}

/// A device that cannot be asked for ends a seeding.
pub proof fn law_an_unknown_device_ends_a_seeding(t: Seeding, f: Failure, o: SeedStep)
    requires
        t.asked() is Device,
        t.next(Answer::Device(Err(f)), o),
    ensures
        o matches Step::Done(Err(Error::Io { op, path, source })) && op@ == "reading"@ && t.asked()
            == Asked::Device(path@) && source == f.source,
{
    lemma_who_asks_devices(t);
}

/// Where blocks clone, the build locks are next, and everything is cloned. Where
/// they do not, it is first asked which devices the source and the staged tree
/// are on, in that order.
pub proof fn law_what_follows_the_probe(
    t: Seeding,
    site: Site,
    probe: Probing,
    answer: Result<bool, Error>,
    a: Answer,
    o: SeedStep,
    device: Option<u64>,
    p: SeedStep,
)
    requires
        t.phase == (Phase::Probe { site, probe }),
        probe.stage == (ProbeStage::RemoveDir { answer }),
        a is Done,
        t.next(a, o),
        answer == Ok::<bool, Error>(false) ==> (o matches Step::Ask(u) ==> u.next(
            Answer::Device(Ok(device)),
            p,
        )),
    ensures
        match answer {
            Err(e) => o == SeedStep::Done(Err(e)),
            Ok(true) => {
                &&& o matches Step::Ask(u)
                &&& u.asked() matches Request::List(path)
                &&& path == t.opts.src@
                &&& u.phase matches Phase::Locks { strategy, .. }
                &&& strategy == Strategy::Clone
            },
            Ok(false) => {
                &&& o matches Step::Ask(u)
                &&& u.asked() matches Request::Device(path)
                &&& path == t.opts.src@
                &&& p matches Step::Ask(v)
                &&& v.asked() matches Request::Device(path)
                &&& path == site.staging_parent@
            },
        },
{
    let r = choose|r| #[trigger] probe.next(a, r) && t.probed(site, r, o);
}

/// Once the source was read the build locks are let go of, the staged tree is
/// renamed to the destination, the marker is removed there and let go of, and
/// the report is that of the building, with the destination and with how many
/// locks were held.
pub proof fn law_how_a_seeding_ends(
    t: Seeding,
    site: Site,
    locks: BuildLocks,
    held: Held,
    built: Report,
    a: Answer,
    o: SeedStep,
    came: Result<(), Failure>,
    p: SeedStep,
    b: Answer,
    q: SeedStep,
    c: Answer,
    r: SeedStep,
)
    requires
        t.phase == (Phase::Unlock { site, locks, held, report: built }),
        a is Done,
        t.next(a, o),
        o matches Step::Ask(u) ==> u.next(Answer::Done(came), p),
        b is Done,
        c is Done,
        p matches Step::Ask(u) ==> u.next(b, q),
        q matches Step::Ask(u) ==> came is Ok ==> u.next(c, r),
    ensures
        t.asked() is ReleaseLocks,
        o matches Step::Ask(u) && (u.asked() matches Request::Rename { from, to } && from
            == t.staging@ && to == t.opts.dest@),
        match came {
            Ok(_) => {
                &&& p matches Step::Ask(u)
                &&& u.asked() matches Request::RemoveFile(path)
                &&& path == t.opts.dest@.push(encode_utf8(".cargo-shared-target-staging"@))
                &&& q matches Step::Ask(v)
                &&& v.asked() is CloseMarker
                &&& match b {
                    Answer::Done(Err(f)) if !f.missing => r matches Step::Done(
                        Err(Error::Io { op, path, source }),
                    ) && op@ == "removing the staging marker"@ && path@ == t.opts.dest@.push(
                        encode_utf8(".cargo-shared-target-staging"@),
                    ) && source == f.source,
                    _ => r matches Step::Done(Ok(report)) && report == (Report {
                        dest: report.dest,
                        build_locks_held: locks.held.len(),
                        ..built
                    }) && report.dest@ == t.opts.dest@,
                }
            },
            Err(f) => {
                &&& p matches Step::Ask(u)
                &&& u.asked() is CloseMarker
                &&& q matches Step::Done(Err(Error::Io { op, path, source }))
                &&& op@ == "renaming the staged tree to"@
                &&& path@ == t.opts.dest@
                &&& source == f.source
            },
        },
{
    if let Step::Ask(u) = o {
        if let Step::Ask(v) = p {
            if let Phase::Unmark { site: s, releasing, report } = v.phase {
                let x = choose|x| #[trigger] releasing.next(b, x) && v.unmarked(s, report, x, q);
                if let Step::Ask(w) = q {
                    if let Phase::Unmark { site: s, releasing, report } = w.phase {
                        let y = choose|y|
                            #[trigger] releasing.next(c, y) && w.unmarked(s, report, y, r);
                    }
                }
            }
        }
    }
}

/// A seeding that gives up lets go of its marker, then of the build locks where
/// it still holds them, and ends with what went wrong.
pub proof fn law_how_a_seeding_gives_up(
    t: Seeding,
    site: Site,
    unlock: bool,
    error: Error,
    a: Answer,
    o: SeedStep,
    b: Answer,
    p: SeedStep,
)
    requires
        t.phase == (Phase::GiveUp { site, unlock, error }),
        a is Done,
        b is Done,
        t.next(a, o),
        o matches Step::Ask(u) ==> u.next(b, p),
    ensures
        t.asked() is CloseMarker,
        if unlock {
            (o matches Step::Ask(u) && u.asked() is ReleaseLocks) && p == SeedStep::Done(Err(error))
        } else {
            o == SeedStep::Done(Err(error))
        },
{
}

/// The build locks are held before the tree is marked; the marker says which
/// process it was and when.
pub proof fn law_what_follows_the_locks(
    t: Seeding,
    site: Site,
    strategy: Strategy,
    locks: BuildLocks,
    pid: u32,
    now: u64,
    o: SeedStep,
    p: SeedStep,
)
    requires
        t.phase == (Phase::Stamp { site, strategy, locks }),
        t.next(Answer::Stamp { pid, now }, o),
        o matches Step::Ask(u) ==> u.next(Answer::Done(Ok(())), p),
    ensures
        t.asked() is Stamp,
        o matches Step::Ask(u) && (u.asked() matches Request::CreateDirAll(path) && path
            == t.staging@),
        p matches Step::Ask(u) && (u.asked() matches Request::WriteMarker { path, text } && path
            == t.staging@.push(encode_utf8(".cargo-shared-target-staging"@)) && tells(
            text,
            t.opts.src.spelling(),
            t.opts.dest.spelling(),
            pid,
            now,
        )),
{
    if let Step::Ask(u) = o {
        if let Phase::Mark { site: s, strategy: y, locks: l, marking } = u.phase {
            let a = Answer::Done(Ok(()));
            let r = choose|r| #[trigger] marking.next(a, r) && u.marked(s, y, l, r, p);
        }
    }
}

/// How files are shared, once that is settled.
pub open spec fn strategy_in(phase: Phase) -> Option<Strategy> {
    match phase {
        Phase::Locks { strategy, .. } => Some(strategy),
        Phase::Stamp { strategy, .. } => Some(strategy),
        Phase::Mark { strategy, .. } => Some(strategy),
        Phase::Fill { filling, .. } => Some(filling.report.strategy),
        Phase::Unlock { report, .. } => Some(report.strategy),
        Phase::Rename { report, .. } => Some(report.strategy),
        Phase::Unmark { report, .. } => Some(report.strategy),
        _ => None,
    }
}

/// How files are shared is settled once, before the build locks are taken, and is
/// reported as it was settled; where the devices of the source and of the staged
/// tree were asked for, it is by link and by copy.
pub proof fn law_the_strategy_stays(t: Seeding, a: Answer, o: SeedStep)
    requires
        t.next(a, o),
    ensures
        t.phase is LinkDevice ==> (o matches Step::Ask(u) ==> u.phase is LinkDevice || strategy_in(
            u.phase,
        ) == Some(Strategy::LinkAndCopy)),
        strategy_in(t.phase) matches Some(strategy) ==> match o {
            Step::Ask(u) => u.phase is GiveUp || u.phase is LetGo || strategy_in(u.phase) == Some(
                strategy,
            ),
            Step::Done(Ok(report)) => report.strategy == strategy,
            Step::Done(Err(_)) => true,
        },
{
    match t.phase {
        Phase::Locks { site, strategy, taking } => {
            let p = choose|p| #[trigger] taking.next(a, p) && t.locked(site, strategy, p, o);
        },
        Phase::Mark { site, strategy, locks, marking } => {
            let p = choose|p|
                #[trigger] marking.next(a, p) && t.marked(site, strategy, locks, p, o);
        },
        Phase::Fill { site, locks, held, filling } => {
            let p = choose|p| #[trigger] filling.next(a, p) && t.filled(site, locks, held, p, o);
        },
        Phase::Unmark { site, releasing, report } => {
            let p = choose|p| #[trigger] releasing.next(a, p) && t.unmarked(site, report, p, o);
        },
        _ => {},
    }
}

/// A building that fails, and a marking that fails, end a seeding with that
/// error, once what is held is let go of: the marker and the build locks after
/// the one, the build locks after the other.
pub proof fn law_a_failed_building_is_given_up(
    t: Seeding,
    f: Failure,
    o: SeedStep,
    u: Seeding,
    error: Error,
    marking: Marking,
    a: Answer,
    p: SeedStep,
    q: SeedStep,
)
    requires
        t.phase matches Phase::Fill { filling, .. } && filling.stage is MakeRoot,
        t.next(Answer::Done(Err(f)), o),
        u.phase matches Phase::Mark { marking: m, .. } && m == marking,
        marking.stage == (MarkStage::Close { error }),
        a is Done,
        u.next(a, p),
        p matches Step::Ask(v) ==> v.next(a, q),
    ensures
        o matches Step::Ask(v) && (v.phase matches Phase::GiveUp { unlock, error, .. } && unlock && (
        error matches Error::Io { op, path, source } && op@ == "creating"@ && source == f.source)),
        p matches Step::Ask(v) && v.asked() is ReleaseLocks,
        q == SeedStep::Done(Err(error)),
{
    let b = Answer::Done(Err(f));
    if let Phase::Fill { site, locks, held, filling } = t.phase {
        let r = choose|r| #[trigger] filling.next(b, r) && t.filled(site, locks, held, r, o);
    }
    if let Phase::Mark { site, strategy, locks, marking: m } = u.phase {
        let r = choose|r| #[trigger] m.next(a, r) && u.marked(site, strategy, locks, r, p);
    }
}

/// While a part of a seeding asks, the seeding asks what the part asks, and
/// hands on what it is told; nothing else of the seeding changes until the part
/// has come to its end.
pub proof fn law_a_seeding_does_what_its_parts_do(t: Seeding, a: Answer, o: SeedStep)
    requires
        t.next(a, o),
    ensures
        match t.phase {
            Phase::ResolveDest { source, search } => t.asked() == search.asked() && exists|p|
                #![trigger search.next(a, p)]
                search.next(a, p) && match p {
                    Step::Ask(s) => o == SeedStep::Ask(
                        Seeding { phase: Phase::ResolveDest { source, search: s }, ..t },
                    ),
                    Step::Done(Err(e)) => o == SeedStep::Done(Err(e)),
                    Step::Done(Ok(_)) => true,
                },
            Phase::ResolveStaging { source, dest, search } => t.asked() == search.asked()
                && exists|p|
                #![trigger search.next(a, p)]
                search.next(a, p) && match p {
                    Step::Ask(s) => o == SeedStep::Ask(
                        Seeding { phase: Phase::ResolveStaging { source, dest, search: s }, ..t },
                    ),
                    Step::Done(Err(e)) => o == SeedStep::Done(Err(e)),
                    Step::Done(Ok(_)) => true,
                },
            Phase::Probe { site, probe } => t.asked() == probe.asked() && exists|p|
                #![trigger probe.next(a, p)]
                probe.next(a, p) && match p {
                    Step::Ask(s) => o == SeedStep::Ask(
                        Seeding { phase: Phase::Probe { site, probe: s }, ..t },
                    ),
                    Step::Done(Err(e)) => o == SeedStep::Done(Err(e)),
                    Step::Done(Ok(_)) => true,
                },
            Phase::Locks { site, strategy, taking } => t.asked() == taking.asked() && exists|p|
                #![trigger taking.next(a, p)]
                taking.next(a, p) && match p {
                    Step::Ask(s) => o == SeedStep::Ask(
                        Seeding { phase: Phase::Locks { site, strategy, taking: s }, ..t },
                    ),
                    Step::Done(Err(e)) => o == SeedStep::Done(Err(e)),
                    Step::Done(Ok(locks)) => o == SeedStep::Ask(
                        Seeding { phase: Phase::Stamp { site, strategy, locks }, ..t },
                    ),
                },
            Phase::Mark { site, strategy, locks, marking } => t.asked() == marking.asked()
                && exists|p|
                #![trigger marking.next(a, p)]
                marking.next(a, p) && match p {
                    Step::Ask(s) => o == SeedStep::Ask(
                        Seeding { phase: Phase::Mark { site, strategy, locks, marking: s }, ..t },
                    ),
                    Step::Done(Err(error)) => o == SeedStep::Ask(
                        Seeding { phase: Phase::LetGo { site, error }, ..t },
                    ),
                    Step::Done(Ok(_)) => o matches Step::Ask(u) && (u.asked() matches
                        Request::CreateDirAll(path) && path == t.staging@) && (u.phase matches
                        Phase::Fill { locks: l, filling, .. } && l == locks && filling.src@
                        == t.opts.src@ && filling.min_shared_size == t.opts.min_shared_size
                        && filling.platform == t.platform && filling.report.strategy == strategy),
                },
            Phase::Fill { site, locks, held, filling } => t.asked() == filling.asked()
                && exists|p|
                #![trigger filling.next(a, p)]
                filling.next(a, p) && match p {
                    Step::Ask(s) => o == SeedStep::Ask(
                        Seeding { phase: Phase::Fill { site, locks, held, filling: s }, ..t },
                    ),
                    Step::Done(Err(error)) => o == SeedStep::Ask(
                        Seeding { phase: Phase::GiveUp { site, unlock: true, error }, ..t },
                    ),
                    Step::Done(Ok(report)) => o == SeedStep::Ask(
                        Seeding { phase: Phase::Unlock { site, locks, held, report }, ..t },
                    ),
                },
            Phase::LetGo { error, .. } => t.asked() is ReleaseLocks && (a is Done ==> o
                == SeedStep::Done(Err(error))),
            _ => true,
        },
{
    match t.phase {
        Phase::ResolveDest { source, search } => {
            let p = choose|p| #[trigger] search.next(a, p) && t.dest_search(source, p, o);
            assert(search.next(a, p));
        },
        Phase::ResolveStaging { source, dest, search } => {
            let p = choose|p| #[trigger] search.next(a, p) && t.staging_search(source, dest, p, o);
            assert(search.next(a, p));
        },
        Phase::Probe { site, probe } => {
            let p = choose|p| #[trigger] probe.next(a, p) && t.probed(site, p, o);
            assert(probe.next(a, p));
        },
        Phase::Locks { site, strategy, taking } => {
            let p = choose|p| #[trigger] taking.next(a, p) && t.locked(site, strategy, p, o);
            assert(taking.next(a, p));
        },
        Phase::Mark { site, strategy, locks, marking } => {
            let p = choose|p|
                #[trigger] marking.next(a, p) && t.marked(site, strategy, locks, p, o);
            assert(marking.next(a, p));
        },
        Phase::Fill { site, locks, held, filling } => {
            let p = choose|p| #[trigger] filling.next(a, p) && t.filled(site, locks, held, p, o);
            assert(filling.next(a, p));
        },
        _ => {},
    }
}

} // verus!
