//! How what a seeding reports follows from what it saw of the source.

use crate::fill::{is_blank, is_own_marker, FillStage, FillStep, Filling};
use crate::fill_laws::{fills, lemma_fill};
use crate::protocol::{Answer, Asked, Events, Kind, Request, Step, Walked};
use crate::seed::{is_shared, Report, Strategy};
use vstd::prelude::*;

verus! {

/// What a building sees of the source.
pub enum Seen {
    Entry { relative: Seq<Seq<u8>>, kind: Kind },
    /// The size of the file that was seen last.
    Size(u64),
    /// Whether the directory that was seen last has `deps` beside it.
    Profile(bool),
}

/// A file: where it is in the source, and how large.
pub type SizedFile = (Seq<Seq<u8>>, u64);

/// What one answer lets the building see.
pub open spec fn seen_in(event: (Asked, Answer)) -> Option<Seen> {
    match event {
        (Request::NextEntry, Answer::Walked(Walked::Entry(entry))) => if is_own_marker(entry) {
            None
        } else {
            Some(Seen::Entry { relative: entry.relative@, kind: entry.kind })
        },
        (Request::Measure, Answer::Measured(Ok(measured))) => Some(Seen::Size(measured.len)),
        (Request::IsDir(_), Answer::Flag(there)) => Some(Seen::Profile(there)),
        _ => None,
    }
}

/// All that was seen.
pub open spec fn seen(events: Events) -> Seq<Seen>
    decreases events.len(),
{
    if events.len() == 0 {
        Seq::empty()
    } else {
        match seen_in(events.last()) {
            Some(more) => seen(events.drop_last()).push(more),
            None => seen(events.drop_last()),
        }
    }
}

/// Where the entry is that was seen last.
pub open spec fn last_entry(seen: Seq<Seen>) -> Seq<Seq<u8>>
    decreases seen.len(),
{
    if seen.len() == 0 {
        Seq::empty()
    } else {
        match seen.last() {
            Seen::Entry { relative, .. } => relative,
            _ => last_entry(seen.drop_last()),
        }
    }
}

/// The files that were seen.
pub open spec fn files_in(seen: Seq<Seen>) -> Seq<SizedFile>
    decreases seen.len(),
{
    if seen.len() == 0 {
        Seq::empty()
    } else {
        match seen.last() {
            Seen::Size(size) => files_in(seen.drop_last()).push(
                (last_entry(seen.drop_last()), size),
            ),
            _ => files_in(seen.drop_last()),
        }
    }
}

/// How many entries of that kind were seen.
pub open spec fn entries_in(seen: Seq<Seen>, kind: Kind) -> nat
    decreases seen.len(),
{
    if seen.len() == 0 {
        0
    } else {
        entries_in(seen.drop_last(), kind) + match seen.last() {
            Seen::Entry { kind: k, .. } => if k == kind {
                1nat
            } else {
                0nat
            },
            _ => 0nat,
        }
    }
}

/// How many directories were seen to be ones that Cargo keeps incremental state
/// in.
pub open spec fn profiles_in(seen: Seq<Seen>) -> nat
    decreases seen.len(),
{
    if seen.len() == 0 {
        0
    } else {
        profiles_in(seen.drop_last()) + if seen.last() == Seen::Profile(true) {
            1nat
        } else {
            0nat
        }
    }
}

/// How many of the files are shared.
pub open spec fn shared_among(files: Seq<SizedFile>, strategy: Strategy, min: u64) -> nat
    decreases files.len(),
{
    if files.len() == 0 {
        0
    } else {
        shared_among(files.drop_last(), strategy, min) + if is_shared(
            strategy,
            files.last().0,
            files.last().1,
            min,
        ) {
            1nat
        } else {
            0nat
        }
    }
}

/// How large those are together.
pub open spec fn shared_size(files: Seq<SizedFile>, strategy: Strategy, min: u64) -> nat
    decreases files.len(),
{
    if files.len() == 0 {
        0
    } else {
        shared_size(files.drop_last(), strategy, min) + if is_shared(
            strategy,
            files.last().0,
            files.last().1,
            min,
        ) {
            files.last().1 as nat
        } else {
            0nat
        }
    }
}

/// How large the files are together.
pub open spec fn whole_size(files: Seq<SizedFile>) -> nat
    decreases files.len(),
{
    if files.len() == 0 {
        0
    } else {
        whole_size(files.drop_last()) + files.last().1 as nat
    }
}

/// The report is what was seen comes to.
pub open spec fn is_report_of(
    report: Report,
    seen: Seq<Seen>,
    strategy: Strategy,
    min: u64,
) -> bool {
    let files = files_in(seen);
    &&& report.strategy == strategy
    &&& report.incremental_dropped == profiles_in(seen)
    &&& report.dirs + report.incremental_dropped == entries_in(seen, Kind::Dir)
    &&& report.symlinks == entries_in(seen, Kind::Symlink)
    &&& report.shared == shared_among(files, strategy, min)
    &&& report.shared_bytes == shared_size(files, strategy, min)
    &&& report.shared + report.copied == files.len()
    &&& report.shared_bytes + report.copied_bytes == whole_size(files)
}

/// The file in hand: its size, and whether it is shared.
pub open spec fn file_in_hand(t: Filling) -> Option<(u64, bool)> {
    match t.stage {
        FillStage::Place { size, share, .. } => Some((size, share)),
        FillStage::SetMode { size, share, .. } => Some((size, share)),
        FillStage::SetTimes { size, share, .. } => Some((size, share)),
        _ => None,
    }
}

/// The report and what is in hand are what was seen comes to.
pub open spec fn comes_to(t: Filling, seen: Seq<Seen>) -> bool {
    let files = files_in(seen);
    let strategy = t.report.strategy;
    let min = t.min_shared_size;
    let dir: nat = if t.stage is IsProfile || t.stage is MakeDir {
        1
    } else {
        0
    };
    let link: nat = if t.stage is ReadLink || t.stage is MakeLink {
        1
    } else {
        0
    };
    let (size, one, shared_one, shared_bytes): (nat, nat, nat, nat) = match file_in_hand(t) {
        Some((size, true)) => (size as nat, 1, 1, size as nat),
        Some((size, false)) => (size as nat, 1, 0, 0),
        None => (0, 0, 0, 0),
    };
    &&& t.report.incremental_dropped == profiles_in(seen)
    &&& t.report.dirs + t.report.incremental_dropped + dir == entries_in(seen, Kind::Dir)
    &&& t.report.symlinks + link == entries_in(seen, Kind::Symlink)
    &&& t.report.shared + shared_one == shared_among(files, strategy, min)
    &&& t.report.shared_bytes + shared_bytes == shared_size(files, strategy, min)
    &&& t.report.shared + t.report.copied + one == files.len()
    &&& t.report.shared_bytes + t.report.copied_bytes + size == whole_size(files)
    &&& t.stage matches FillStage::Measure { relative } ==> last_entry(seen) == relative@
}

#[verifier::spinoff_prover]
#[verifier::rlimit(40)]
proof fn lemma_comes_to_step(t: Filling, events: Events, o: FillStep)
    requires
        events.len() > 0,
        comes_to(t, seen(events.drop_last())),
        t.moves(events.last(), o),
    ensures
        match o {
            Step::Ask(u) => comes_to(u, seen(events)) && u.report.strategy == t.report.strategy
                && u.min_shared_size == t.min_shared_size,
            Step::Done(Ok(report)) => is_report_of(
                report,
                seen(events),
                t.report.strategy,
                t.min_shared_size,
            ),
            Step::Done(Err(_)) => true,
        },
{
    let before = seen(events.drop_last());
    let after = seen(events);
    if let Some(more) = seen_in(events.last()) {
        assert(after.drop_last() =~= before);
        assert(after.last() == more);
        if let Seen::Size(size) = more {
            let files = files_in(before);
            assert(files_in(after).drop_last() =~= files);
            assert(files_in(after).last() == (last_entry(before), size));
        }
    }
    match t.stage {
        FillStage::NextEntry => {},
        FillStage::IsProfile { .. } => {},
        FillStage::Measure { .. } => {},
        FillStage::Place { .. } => {},
        FillStage::SetTimes { .. } => {},
        _ => {},
    }
}

proof fn lemma_comes_to(s: Filling, events: Events, t: Filling)
    requires
        s.stage is MakeRoot,
        is_blank(s.report, s.report.strategy, s.report.dest@),
        fills(s, events, FillStep::Ask(t)),
    ensures
        comes_to(t, seen(events)),
    decreases events.len(),
{
    if events.len() > 0 {
        let p = choose|p: Filling|
            fills(s, events.drop_last(), Step::Ask(p)) && #[trigger] p.moves(
                events.last(),
                FillStep::Ask(t),
            );
        lemma_comes_to(s, events.drop_last(), p);
        lemma_comes_to_step(p, events, FillStep::Ask(t));
    }
}

/// What a building reports is a matter of what it saw of the source, of the
/// strategy and of the size from which on files are shared.
pub proof fn law_a_report_is_of_the_source(s: Filling, events: Events, report: Report)
    requires
        s.stage is MakeRoot,
        is_blank(s.report, s.report.strategy, s.report.dest@),
        fills(s, events, FillStep::Done(Ok(report))),
    ensures
        is_report_of(report, seen(events), s.report.strategy, s.min_shared_size),
{
    let o = FillStep::Done(Ok(report));
    let t = choose|t: Filling|
        fills(s, events.drop_last(), Step::Ask(t)) && #[trigger] t.moves(events.last(), o);
    lemma_comes_to(s, events.drop_last(), t);
    lemma_fill(s, events.drop_last(), Step::Ask(t));
    lemma_comes_to_step(t, events, o);
}

proof fn lemma_less_is_shared(files: Seq<SizedFile>, strategy: Strategy, low: u64, high: u64)
    requires
        low <= high,
    ensures
        shared_among(files, strategy, high) <= shared_among(files, strategy, low),
        shared_size(files, strategy, high) <= shared_size(files, strategy, low),
    decreases files.len(),
{
    if files.len() > 0 {
        lemma_less_is_shared(files.drop_last(), strategy, low, high);
    }
}

/// Of one source, no more is shared where files have to be larger to be shared,
/// and what is not shared is copied: all the other totals are the same.
pub proof fn law_a_higher_threshold_shares_no_more(
    low: Filling,
    low_events: Events,
    low_report: Report,
    high: Filling,
    high_events: Events,
    high_report: Report,
)
    requires
        low.stage is MakeRoot,
        high.stage is MakeRoot,
        is_blank(low.report, low.report.strategy, low.report.dest@),
        is_blank(high.report, high.report.strategy, high.report.dest@),
        low.report.strategy == high.report.strategy,
        low.min_shared_size <= high.min_shared_size,
        fills(low, low_events, FillStep::Done(Ok(low_report))),
        fills(high, high_events, FillStep::Done(Ok(high_report))),
        seen(low_events) == seen(high_events),
    ensures
        high_report.shared <= low_report.shared,
        high_report.shared_bytes <= low_report.shared_bytes,
        high_report.shared + high_report.copied == low_report.shared + low_report.copied,
        high_report.shared_bytes + high_report.copied_bytes == low_report.shared_bytes
            + low_report.copied_bytes,
        high_report.dirs == low_report.dirs,
        high_report.symlinks == low_report.symlinks,
        high_report.incremental_dropped == low_report.incremental_dropped,
{
    law_a_report_is_of_the_source(low, low_events, low_report);
    law_a_report_is_of_the_source(high, high_events, high_report);
    lemma_less_is_shared(
        files_in(seen(low_events)),
        low.report.strategy,
        low.min_shared_size,
        high.min_shared_size,
    );
}

} // verus!
