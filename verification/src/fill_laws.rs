//! What every building of a tree keeps to, whatever it is told.

use crate::fill::{
    is_blank, is_own_marker, lemma_fill_step, lemma_within_staging, FillStage, FillStep, Filling,
};
use crate::fill_rules::law_shared_by_hard_link;
use crate::path::{name_of, os, parent_parts, within};
use crate::protocol::{Answer, Asked, Entry, Events, Kind, Platform, Request, Step, Walked};
use crate::seed::{is_shared, is_under_deps, lists_sources, Report, Strategy, DEPS, INCREMENTAL};
use vstd::prelude::*;
use vstd::utf8::encode_utf8;

verus! {

impl Filling {
    /// The building can be told that, and becomes `o`.
    pub open spec fn moves(self, event: (Asked, Answer), o: FillStep) -> bool {
        &&& self.room()
        &&& event.0 == self.asked()
        &&& event.0.fits(event.1)
        &&& self.next(event.1, o)
    }

    /// How many entries are being dealt with.
    pub open spec fn in_hand(self) -> nat {
        match self.stage {
            FillStage::MakeRoot => 0,
            FillStage::OpenWalk => 0,
            FillStage::NextEntry => 0,
            FillStage::SkipDir => 0,
            _ => 1,
        }
    }

    /// How large the file is that is being dealt with, once it is known.
    pub open spec fn bytes_in_hand(self) -> nat {
        match self.stage {
            FillStage::Place { size, .. } => size as nat,
            FillStage::SetMode { size, .. } => size as nat,
            FillStage::SetTimes { size, .. } => size as nat,
            _ => 0,
        }
    }
}

/// How many entries a report counts.
pub open spec fn entries_counted(report: Report) -> nat {
    (report.dirs + report.shared + report.copied + report.symlinks
        + report.incremental_dropped) as nat
}

/// How many entries were handed out, the marker of the tree itself aside.
pub open spec fn entries_told(events: Events) -> nat
    decreases events.len(),
{
    if events.len() == 0 {
        0
    } else {
        entries_told(events.drop_last()) + entry_told(events.last().1)
    }
}

/// How large the files are together that were measured.
pub open spec fn bytes_told(events: Events) -> nat
    decreases events.len(),
{
    if events.len() == 0 {
        0
    } else {
        bytes_told(events.drop_last()) + size_told(events.last().1)
    }
}

/// What a building that starts as `s` has become after all that.
pub open spec fn fills(s: Filling, events: Events, o: FillStep) -> bool
    decreases events.len(),
{
    if events.len() == 0 {
        o == FillStep::Ask(s)
    } else {
        exists|t: Filling|
            fills(s, events.drop_last(), Step::Ask(t)) && #[trigger] t.moves(events.last(), o)
    }
}

/// How many entries an answer hands out, the marker of the tree itself aside.
pub open spec fn entry_told(a: Answer) -> nat {
    match a {
        Answer::Walked(Walked::Entry(entry)) => if is_own_marker(entry) {
            0
        } else {
            1
        },
        _ => 0,
    }
}

/// How large the file is that an answer measures.
pub open spec fn size_told(a: Answer) -> nat {
    match a {
        Answer::Measured(Ok(measured)) => measured.len as nat,
        _ => 0,
    }
}

/// What is handed out is in hand until it is counted.
proof fn lemma_fill_counts(s: Filling, event: (Asked, Answer), o: FillStep)
    requires
        s.moves(event, o),
    ensures
        match o {
            Step::Ask(t) => {
                &&& entries_counted(t.report) + t.in_hand() == entries_counted(s.report)
                    + s.in_hand() + entry_told(event.1)
                &&& t.report.shared_bytes + t.report.copied_bytes + t.bytes_in_hand()
                    == s.report.shared_bytes + s.report.copied_bytes + s.bytes_in_hand()
                    + size_told(event.1)
            },
            Step::Done(Ok(report)) => {
                &&& report == s.report
                &&& s.in_hand() == 0
                &&& s.bytes_in_hand() == 0
                &&& entry_told(event.1) == 0
                &&& size_told(event.1) == 0
            },
            Step::Done(Err(_)) => true,
        },
{
    match s.stage {
        FillStage::NextEntry => {},
        FillStage::Measure { .. } => {},
        FillStage::Place { .. } => {},
        FillStage::SetTimes { .. } => {},
        _ => {},
    }
}

pub proof fn lemma_fill(s: Filling, events: Events, o: FillStep)
    requires
        s.stage is MakeRoot,
        is_blank(s.report, s.report.strategy, s.report.dest@),
        fills(s, events, o),
    ensures
        match o {
            Step::Ask(t) => {
                &&& t.wf()
                &&& t.src == s.src
                &&& t.staging == s.staging
                &&& t.min_shared_size == s.min_shared_size
                &&& t.platform == s.platform
                &&& t.report.strategy == s.report.strategy
                &&& entries_counted(t.report) + t.in_hand() == entries_told(events)
                &&& t.report.shared_bytes + t.report.copied_bytes + t.bytes_in_hand() == bytes_told(
                    events,
                )
            },
            Step::Done(Ok(report)) => {
                &&& entries_counted(report) == entries_told(events)
                &&& report.shared_bytes + report.copied_bytes == bytes_told(events)
            },
            Step::Done(Err(_)) => true,
        },
    decreases events.len(),
{
    if events.len() > 0 {
        let t = choose|t: Filling|
            fills(s, events.drop_last(), Step::Ask(t)) && #[trigger] t.moves(events.last(), o);
        lemma_fill(s, events.drop_last(), Step::Ask(t));
        lemma_fill_counts(t, events.last(), o);
        lemma_fill_step(t, events.last().1, o);
    }
}

/// A building that ends well has been told that there is nothing more to walk;
/// its report counts every entry that was handed out exactly once, and the size
/// of every file.
pub proof fn law_every_entry_is_counted_once(s: Filling, events: Events, report: Report)
    requires
        s.stage is MakeRoot,
        is_blank(s.report, s.report.strategy, s.report.dest@),
        fills(s, events, FillStep::Done(Ok(report))),
    ensures
        events.len() > 0,
        events.last().1 == Answer::Walked(Walked::End),
        entries_counted(report) == entries_told(events),
        report.shared_bytes + report.copied_bytes == bytes_told(events),
{
    lemma_fill(s, events, Step::Done(Ok(report)));
}

/// Whatever a building makes or changes is in the tree being built.
pub proof fn law_filling_stays_in_the_staged_tree(s: Filling, events: Events, t: Filling)
    requires
        s.stage is MakeRoot,
        is_blank(s.report, s.report.strategy, s.report.dest@),
        fills(s, events, FillStep::Ask(t)),
    ensures
        t.asked().written() matches Some(path) ==> within(path, s.staging@),
        !t.asked().removes(),
{
    lemma_fill(s, events, Step::Ask(t));
    lemma_within_staging(t);
}

/// The building asks for a hard link.
pub open spec fn asks_to_link(t: Filling, from: Seq<Seq<u8>>, to: Seq<Seq<u8>>) -> bool {
    t.asked() matches Request::HardLink { from: f, to: p } && f == from && p == to
}

/// It was found that `deps` is beside what is at `path`.
pub open spec fn is_profile(event: (Asked, Answer), path: Seq<Seq<u8>>) -> bool {
    &&& event.0 matches Request::IsDir(deps)
    &&& deps == parent_parts(path)->0.push(os(DEPS))
    &&& event.1 == Answer::Flag(true)
}

/// A hard link is made only where blocks do not clone, and only of a file that
/// Cargo writes once: one under `deps`, that is not dep-info, and that is of the
/// size from which on sharing is worth it.
pub proof fn law_only_large_artifacts_are_linked(
    s: Filling,
    events: Events,
    t: Filling,
    from: Seq<Seq<u8>>,
    to: Seq<Seq<u8>>,
)
    requires
        s.stage is MakeRoot,
        is_blank(s.report, s.report.strategy, s.report.dest@),
        fills(s, events, FillStep::Ask(t)),
        asks_to_link(t, from, to),
    ensures
        s.report.strategy == Strategy::LinkAndCopy,
        t.stage matches FillStage::Place { size, .. } && size >= s.min_shared_size,
        exists|relative: Seq<Seq<u8>>|
            {
                &&& from == #[trigger] s.source_of(relative)
                &&& to == s.place_of(relative)
                &&& is_under_deps(relative)
                &&& !lists_sources(relative)
                &&& exists|i: int|
                    0 <= i < relative.len() - 1 && #[trigger] relative[i] == encode_utf8("deps"@)
                &&& !(relative.last().len() >= 3 && relative.last()[relative.last().len() - 2]
                    == 0x2e && relative.last()[relative.last().len() - 1] == 0x64)
            },
{
    lemma_fill(s, events, Step::Ask(t));
    if let FillStage::Place { from: f, at, size, share } = t.stage {
        let relative = choose|relative: Seq<Seq<u8>>|
            {
                &&& at@ == #[trigger] t.place_of(relative)
                &&& f@ == t.source_of(relative)
                &&& share == is_shared(t.report.strategy, relative, size, t.min_shared_size)
            };
        assert(from == s.source_of(relative));
        assert(to == s.place_of(relative));
        law_shared_by_hard_link(relative, size, s.min_shared_size);
    }
}

/// A directory is left out only where blocks do not clone, and only if it is
/// called as Cargo calls its incremental directory and has `deps` beside it.
pub proof fn law_only_profile_incremental_is_dropped(s: Filling, events: Events, t: Filling)
    requires
        s.stage is MakeRoot,
        is_blank(s.report, s.report.strategy, s.report.dest@),
        fills(s, events, FillStep::Ask(t)),
        t.asked() is SkipDir,
    ensures
        s.report.strategy == Strategy::LinkAndCopy,
        events.len() > 0,
        exists|relative: Seq<Seq<u8>>|
            {
                &&& name_of(#[trigger] s.source_of(relative)) == Some(os(INCREMENTAL))
                &&& is_profile(events.last(), s.source_of(relative))
            },
{
    lemma_fill(s, events, Step::Ask(t));
    let p = choose|p: Filling|
        fills(s, events.drop_last(), Step::Ask(p)) && #[trigger] p.moves(
            events.last(),
            FillStep::Ask(t),
        );
    lemma_fill(s, events.drop_last(), Step::Ask(p));
    if let FillStage::IsProfile { deps, at } = p.stage {
        let relative = choose|relative: Seq<Seq<u8>>|
            {
                &&& at@ == #[trigger] p.place_of(relative)
                &&& name_of(p.source_of(relative)) == Some(os(INCREMENTAL))
                &&& deps@ == parent_parts(p.source_of(relative))->0.push(os(DEPS))
            };
        assert(p.source_of(relative) == s.source_of(relative));
    }
}

/// The file at `from` was cloned, linked or copied to `to`, as the strategy has
/// it.
pub open spec fn is_placing(
    event: (Asked, Answer),
    strategy: Strategy,
    share: bool,
    from: Seq<Seq<u8>>,
    to: Seq<Seq<u8>>,
) -> bool {
    let how: Asked = if !share {
        Request::Copy { from, to }
    } else if strategy == Strategy::Clone {
        Request::Reflink { from, to }
    } else {
        Request::HardLink { from, to }
    };
    &&& event.0 == how
    &&& event.1 matches Answer::Done(Ok(_))
}

/// The mode and the times of what was measured last were given to what is at
/// `at`.
pub open spec fn is_carrying(event: (Asked, Answer), at: Seq<Seq<u8>>, times: bool) -> bool {
    let what: Asked = if times {
        Request::SetTimes(at)
    } else {
        Request::SetMode(at)
    };
    &&& event.0 == what
    &&& event.1 matches Answer::Done(Ok(_))
}

/// The file is in its place, with what it shares as the strategy has it.
pub open spec fn is_placed(s: Filling, events: Events, relative: Seq<Seq<u8>>, share: bool) -> bool {
    exists|i: int|
        0 <= i < events.len() && is_placing(
            #[trigger] events[i],
            s.report.strategy,
            share,
            s.source_of(relative),
            s.place_of(relative),
        )
}

/// The file in the place of the entry has the mode, or the times, of the entry.
pub open spec fn is_carried(
    s: Filling,
    events: Events,
    relative: Seq<Seq<u8>>,
    times: bool,
) -> bool {
    exists|i: int|
        0 <= i < events.len() && is_carrying(#[trigger] events[i], s.place_of(relative), times)
}

/// A directory was made in the place of the entry.
pub open spec fn is_dir_making(event: (Asked, Answer), at: Seq<Seq<u8>>) -> bool {
    &&& event.0 matches Request::CreateDirAll(path)
    &&& path == at
    &&& event.1 matches Answer::Done(Ok(_))
}

/// The symlink at `from` was found to point at `target`.
pub open spec fn is_pointing(
    event: (Asked, Answer),
    from: Seq<Seq<u8>>,
    target: Seq<u8>,
) -> bool {
    &&& event.0 matches Request::ReadLink(path)
    &&& path == from
    &&& event.1 matches Answer::Target(Ok(found))
    &&& found@ == target
}

/// A symlink that points at `target` was made at `to`, or, where making one is
/// not taken for granted, what the one at `from` pointed at was copied there.
pub open spec fn is_linking(
    event: (Asked, Answer),
    platform: Platform,
    from: Seq<Seq<u8>>,
    target: Seq<u8>,
    to: Seq<Seq<u8>>,
) -> bool {
    &&& match event.0 {
        Request::Symlink { target: t, at } => platform == Platform::Unix && t == target && at == to,
        Request::Copy { from: f, to: t } => platform != Platform::Unix && f == from && t == to,
        _ => false,
    }
    &&& event.1 matches Answer::Done(Ok(_))
}

/// It was found where the symlink at `from` points.
pub open spec fn is_pointed(events: Events, from: Seq<Seq<u8>>, target: Seq<u8>) -> bool {
    exists|i: int| 0 <= i < events.len() && is_pointing(#[trigger] events[i], from, target)
}

/// The symlink was made again.
pub open spec fn is_linked(
    events: Events,
    platform: Platform,
    from: Seq<Seq<u8>>,
    target: Seq<u8>,
    to: Seq<Seq<u8>>,
) -> bool {
    exists|i: int|
        0 <= i < events.len() && is_linking(#[trigger] events[i], platform, from, target, to)
}

/// The entry has arrived: a directory is made, or left out as one that Cargo
/// keeps incremental state in; a symlink is made that points where the other
/// does; a file is shared or copied, and what is no second name of the same file
/// has its mode and its times.
pub open spec fn has_arrived(s: Filling, events: Events, entry: Entry) -> bool {
    let from = s.source_of(entry.relative@);
    let to = s.place_of(entry.relative@);
    match entry.kind {
        Kind::Dir => {
            ||| exists|i: int| 0 <= i < events.len() && is_dir_making(#[trigger] events[i], to)
            ||| s.report.strategy == Strategy::LinkAndCopy && name_of(from) == Some(os(INCREMENTAL))
                && exists|i: int| 0 <= i < events.len() && is_profile(#[trigger] events[i], from)
        },
        Kind::Symlink => exists|target: Seq<u8>| #[trigger]
            is_pointed(events, from, target) && is_linked(events, s.platform, from, target, to),
        _ => {
            ||| s.report.strategy == Strategy::LinkAndCopy && is_placed(
                s,
                events,
                entry.relative@,
                true,
            )
            ||| {
                &&& is_carried(s, events, entry.relative@, false)
                &&& is_carried(s, events, entry.relative@, true)
                &&& is_placed(s, events, entry.relative@, s.report.strategy == Strategy::Clone)
            }
        },
    }
}

/// What is in hand is on its way to the place of the entry.
pub open spec fn is_about(t: Filling, events: Events, entry: Entry) -> bool {
    let from = t.source_of(entry.relative@);
    let to = t.place_of(entry.relative@);
    let is_file = entry.kind != Kind::Dir && entry.kind != Kind::Symlink;
    match t.stage {
        FillStage::IsProfile { deps, at } => {
            &&& entry.kind == Kind::Dir
            &&& at@ == to
            &&& t.report.strategy == Strategy::LinkAndCopy
            &&& name_of(from) == Some(os(INCREMENTAL))
            &&& deps@ == parent_parts(from)->0.push(os(DEPS))
        },
        FillStage::MakeDir { at } => entry.kind == Kind::Dir && at@ == to,
        FillStage::ReadLink { from: f, at } => entry.kind == Kind::Symlink && f@ == from && at@
            == to,
        FillStage::MakeLink { from: f, target, at } => {
            &&& entry.kind == Kind::Symlink
            &&& f@ == from
            &&& at@ == to
            &&& is_pointed(events, from, target@)
        },
        FillStage::Measure { relative } => is_file && relative@ == entry.relative@,
        FillStage::Place { from: f, at, share, .. } => {
            &&& is_file
            &&& f@ == from
            &&& at@ == to
            &&& t.report.strategy == Strategy::Clone ==> share
        },
        FillStage::SetMode { at, share, .. } => {
            &&& is_file
            &&& at@ == to
            &&& share == (t.report.strategy == Strategy::Clone)
            &&& is_placed(t, events, entry.relative@, share)
        },
        FillStage::SetTimes { at, share, .. } => {
            &&& is_file
            &&& at@ == to
            &&& share == (t.report.strategy == Strategy::Clone)
            &&& is_placed(t, events, entry.relative@, share)
            &&& is_carried(t, events, entry.relative@, false)
        },
        _ => false,
    }
}

/// The entry that was handed out by the event of that index, where one was that
/// is to be carried over.
pub open spec fn entry_at(events: Events, i: int) -> Option<Entry> {
    match events[i].1 {
        Answer::Walked(Walked::Entry(entry)) => if is_own_marker(entry) {
            None
        } else {
            Some(entry)
        },
        _ => None,
    }
}

/// Every entry that was handed out has arrived, but for the one in hand.
pub open spec fn all_arrived(t: Filling, events: Events) -> bool {
    forall|i: int|
        0 <= i < events.len() ==> (#[trigger] entry_at(events, i) matches Some(entry)
            ==> has_arrived(t, events, entry) || is_about(t, events, entry))
}

/// What has arrived stays so, whatever else happens.
proof fn lemma_stays_arrived(t: Filling, u: Filling, events: Events, entry: Entry)
    requires
        events.len() > 0,
        u.src == t.src,
        u.staging == t.staging,
        u.platform == t.platform,
        u.report.strategy == t.report.strategy,
    ensures
        has_arrived(t, events.drop_last(), entry) ==> has_arrived(u, events, entry),
        forall|share: bool|
            is_placed(t, events.drop_last(), entry.relative@, share) ==> #[trigger] is_placed(
                u,
                events,
                entry.relative@,
                share,
            ),
        forall|times: bool|
            is_carried(t, events.drop_last(), entry.relative@, times) ==> #[trigger] is_carried(
                u,
                events,
                entry.relative@,
                times,
            ),
        forall|target: Seq<u8>|
            is_pointed(events.drop_last(), t.source_of(entry.relative@), target)
                ==> #[trigger] is_pointed(events, t.source_of(entry.relative@), target),
{
    let before = events.drop_last();
    let relative = entry.relative@;
    let from = t.source_of(relative);
    let to = t.place_of(relative);
    assert(u.source_of(relative) == from && u.place_of(relative) == to);
    assert forall|i: int| 0 <= i < before.len() implies before[i] == #[trigger] events[i] by {}
    assert forall|share: bool| is_placed(t, before, relative, share) implies #[trigger] is_placed(
        u,
        events,
        relative,
        share,
    ) by {
        let i = choose|i: int|
            0 <= i < before.len() && is_placing(
                #[trigger] before[i],
                t.report.strategy,
                share,
                from,
                to,
            );
        assert(is_placing(events[i], u.report.strategy, share, from, to));
    }
    assert forall|times: bool| is_carried(t, before, relative, times) implies #[trigger] is_carried(
        u,
        events,
        relative,
        times,
    ) by {
        let i = choose|i: int| 0 <= i < before.len() && is_carrying(#[trigger] before[i], to, times);
        assert(is_carrying(events[i], to, times));
    }
    assert forall|target: Seq<u8>| is_pointed(before, from, target) implies #[trigger] is_pointed(
        events,
        from,
        target,
    ) by {
        let i = choose|i: int|
            0 <= i < before.len() && is_pointing(#[trigger] before[i], from, target);
        assert(is_pointing(events[i], from, target));
    }
    if has_arrived(t, before, entry) {
        match entry.kind {
            Kind::Dir => {
                if exists|i: int| 0 <= i < before.len() && is_dir_making(#[trigger] before[i], to) {
                    let i = choose|i: int|
                        0 <= i < before.len() && is_dir_making(#[trigger] before[i], to);
                    assert(is_dir_making(events[i], to));
                } else {
                    let i = choose|i: int|
                        0 <= i < before.len() && is_profile(#[trigger] before[i], from);
                    assert(is_profile(events[i], from));
                }
            },
            Kind::Symlink => {
                let target = choose|target: Seq<u8>| #[trigger]
                    is_pointed(before, from, target) && is_linked(
                        before,
                        t.platform,
                        from,
                        target,
                        to,
                    );
                let i = choose|i: int|
                    0 <= i < before.len() && is_linking(
                        #[trigger] before[i],
                        t.platform,
                        from,
                        target,
                        to,
                    );
                assert(is_linking(events[i], u.platform, from, target, to));
                assert(is_pointed(events, from, target));
            },
            _ => {
                if t.report.strategy == Strategy::LinkAndCopy && is_placed(t, before, relative, true) {
                    assert(is_placed(u, events, relative, true));
                } else {
                    assert(is_carried(u, events, relative, false));
                    assert(is_carried(u, events, relative, true));
                    assert(is_placed(u, events, relative, t.report.strategy == Strategy::Clone));
                }
            },
        }
    }
}

/// What is in hand arrives, or stays in hand.
#[verifier::spinoff_prover]
#[verifier::rlimit(40)]
proof fn lemma_in_hand(t: Filling, events: Events, u: Filling, entry: Entry)
    requires
        events.len() > 0,
        t.wf(),
        t.moves(events.last(), FillStep::Ask(u)),
        is_about(t, events.drop_last(), entry),
    ensures
        has_arrived(u, events, entry) || is_about(u, events, entry),
{
    let last = events.len() - 1;
    let event = events[last];
    let from = t.source_of(entry.relative@);
    let to = t.place_of(entry.relative@);
    lemma_fill_step(t, event.1, FillStep::Ask(u));
    lemma_stays_arrived(t, u, events, entry);
    assert(u.source_of(entry.relative@) == from && u.place_of(entry.relative@) == to);
    match (t.stage, event.1) {
        (FillStage::IsProfile { .. }, Answer::Flag(profile)) => {
            if profile {
                assert(is_profile(events[last], from));
            }
        },
        (FillStage::MakeDir { .. }, Answer::Done(Ok(_))) => {
            assert(is_dir_making(events[last], to));
        },
        (FillStage::ReadLink { .. }, Answer::Target(Ok(target))) => {
            assert(is_pointing(events[last], from, target@));
        },
        (FillStage::MakeLink { target, .. }, Answer::Done(Ok(_))) => {
            assert(is_pointed(events, from, target@));
            assert(is_linking(events[last], t.platform, from, target@, to));
        },
        (FillStage::Place { share, .. }, Answer::Done(Ok(_))) => {
            assert(is_placing(events[last], t.report.strategy, share, from, to));
            assert(is_placed(u, events, entry.relative@, share));
        },
        (FillStage::SetMode { share, .. }, Answer::Done(Ok(_))) => {
            assert(is_carrying(events[last], to, false));
            assert(is_carried(u, events, entry.relative@, false));
            assert(is_placed(u, events, entry.relative@, share));
        },
        (FillStage::SetTimes { share, .. }, Answer::Done(Ok(_))) => {
            assert(is_carrying(events[last], to, true));
            assert(is_carried(u, events, entry.relative@, true));
            assert(is_carried(u, events, entry.relative@, false));
            assert(is_placed(u, events, entry.relative@, share));
        },
        _ => {},
    }
}

proof fn lemma_arrivals(s: Filling, events: Events, t: Filling)
    requires
        s.stage is MakeRoot,
        is_blank(s.report, s.report.strategy, s.report.dest@),
        fills(s, events, FillStep::Ask(t)),
    ensures
        all_arrived(t, events),
    decreases events.len(),
{
    if events.len() > 0 {
        let before = events.drop_last();
        let p = choose|p: Filling|
            fills(s, events.drop_last(), Step::Ask(p)) && #[trigger] p.moves(
                events.last(),
                FillStep::Ask(t),
            );
        lemma_arrivals(s, before, p);
        lemma_fill(s, before, Step::Ask(p));
        lemma_fill_step(p, events.last().1, FillStep::Ask(t));
        assert forall|i: int| 0 <= i < events.len() implies (#[trigger] entry_at(
            events,
            i,
        ) matches Some(entry) ==> has_arrived(t, events, entry) || is_about(t, events, entry)) by {
            if let Some(entry) = entry_at(events, i) {
                if i < before.len() {
                    assert(entry_at(before, i) == Some(entry));
                    lemma_stays_arrived(p, t, events, entry);
                    if is_about(p, before, entry) {
                        lemma_in_hand(p, events, t, entry);
                    }
                } else {
                    assert(p.stage is NextEntry);
                    assert(p.takes(entry, FillStep::Ask(t)));
                }
            }
        }
    }
}

/// A building that ends well has carried over every entry of the tree it was
/// handed, each to the same place in the tree that is built, and nothing is left
/// in hand: directories are made, but for those that Cargo keeps incremental
/// state in where carrying them would cost; symlinks are made again; files are
/// shared or copied as the strategy has it, with their modes and times.
pub proof fn law_every_entry_arrives(s: Filling, events: Events, report: Report, i: int)
    requires
        s.stage is MakeRoot,
        is_blank(s.report, s.report.strategy, s.report.dest@),
        fills(s, events, FillStep::Done(Ok(report))),
        0 <= i < events.len(),
    ensures
        entry_at(events, i) matches Some(entry) ==> has_arrived(s, events, entry),
{
    let o = FillStep::Done(Ok(report));
    let before = events.drop_last();
    let t = choose|t: Filling|
        fills(s, events.drop_last(), Step::Ask(t)) && #[trigger] t.moves(events.last(), o);
    lemma_arrivals(s, before, t);
    lemma_fill(s, before, Step::Ask(t));
    if let Some(entry) = entry_at(events, i) {
        assert(i < before.len());
        assert(entry_at(before, i) == Some(entry));
        lemma_stays_arrived(t, s, events, entry);
    }
}

} // verus!
