//! What becomes of each entry of the source, from its being handed out to the
//! next one.

use crate::error::{Error, Failure};
use crate::fill::{is_blank, FillStage, FillStep, Filling};
use crate::fill_laws::fills;
use crate::path::{extension_of, last_dot, name_of, DOT};
use crate::protocol::{
    Answer, Asked, Entry, Events, Kind, Measured, Platform, Request, Step, Walked,
};
use crate::seed::{is_shared, Report, Strategy};
use vstd::prelude::*;
use vstd::utf8::{encode_utf8, is_ascii_chars_encode_utf8};

verus! {

/// Behind the last dot of a name stands one letter if and only if the name ends
/// in a dot and that letter, and something stands before them.
pub proof fn law_an_extension_of_one_letter(name: Seq<u8>, letter: u8)
    requires
        letter != 0x2e,
    ensures
        (extension_of(name) == Some(seq![letter])) == (name.len() >= 3 && name[name.len() - 2]
            == 0x2e && name[name.len() - 1] == letter),
{
    let n = name.len();
    reveal_with_fuel(last_dot, 3);
    lemma_last_dot(name, n);
    if n >= 3 && name[n - 2] == 0x2e && name[n - 1] == letter {
        assert(last_dot(name, n) == Some((n - 2) as nat));
        assert(name.skip(n - 1) =~= seq![letter]);
    }
    if extension_of(name) == Some(seq![letter]) {
        let at = last_dot(name, n)->0;
        assert(name.skip(at as int + 1).len() == 1);
        assert(name.skip(at as int + 1)[0] == name[at as int + 1]);
    }
}

proof fn lemma_last_dot(name: Seq<u8>, upto: nat)
    requires
        upto <= name.len(),
    ensures
        last_dot(name, upto) matches Some(at) ==> at < upto && name[at as int] == 0x2e,
    decreases upto,
{
    if upto > 0 && name[upto - 1] != DOT {
        lemma_last_dot(name, (upto - 1) as nat);
    }
}

/// The bytes of the names that decide.
proof fn lemma_bytes()
    ensures
        encode_utf8("d"@) == seq![0x64u8],
        encode_utf8("deps"@).len() == 4,
        encode_utf8("incremental"@).len() == 11,
{
    reveal_strlit("d");
    reveal_strlit("deps");
    reveal_strlit("incremental");
    is_ascii_chars_encode_utf8("d"@);
    is_ascii_chars_encode_utf8("deps"@);
    is_ascii_chars_encode_utf8("incremental"@);
    assert(encode_utf8("d"@) =~= seq![0x64u8]);
}

/// Where blocks do not clone, a file is shared if and only if one of the
/// directories it is in is called `deps`, its name does not end in `.d` behind
/// something else, and it is at least of the size from which on files are shared.
/// Where they do, every file is.
pub proof fn law_shared_by_hard_link(relative: Seq<Seq<u8>>, size: u64, min_shared_size: u64)
    requires
        relative.len() > 1 ==> relative.last() != seq![0x2fu8],
    ensures
        is_shared(Strategy::Clone, relative, size, min_shared_size),
        is_shared(Strategy::LinkAndCopy, relative, size, min_shared_size) <==> {
            let name = relative.last();
            &&& exists|i: int|
                0 <= i < relative.len() - 1 && #[trigger] relative[i] == encode_utf8("deps"@)
            &&& !(name.len() >= 3 && name[name.len() - 2] == 0x2e && name[name.len() - 1] == 0x64)
            &&& size >= min_shared_size
        },
{
    let name = relative.last();
    let parent = relative.drop_last();
    let deps = encode_utf8("deps"@);
    lemma_bytes();
    law_an_extension_of_one_letter(name, 0x64);
    if relative.len() > 0 && parent.contains(deps) {
        let i = choose|i: int| 0 <= i < parent.len() && parent[i] == deps;
        assert(relative[i] == deps);
    }
    if exists|i: int| 0 <= i < relative.len() - 1 && #[trigger] relative[i] == deps {
        let i = choose|i: int| 0 <= i < relative.len() - 1 && #[trigger] relative[i] == deps;
        assert(parent[i] == deps);
    }
    if relative.len() > 0 && name_of(relative) is None {
        assert(name.len() < 3);
    }
}

/// Where blocks clone, every file is cloned. Where they do not, a file is hard
/// linked if and only if one of the directories it is in is called `deps`, its
/// name does not end in `.d` behind something else, and it is at least of the
/// size from which on files are shared; and every other file is copied. Each
/// goes to the same place in the tree that is built.
pub proof fn law_what_becomes_of_a_file(
    t: Filling,
    entry: Entry,
    u: Filling,
    measured: Measured,
    v: Filling,
)
    requires
        t.asked() is NextEntry,
        entry.kind == Kind::File || entry.kind == Kind::Other,
        entry.relative@.len() > 0,
        entry.relative@.last() != seq![0x2fu8],
        !(entry.kind == Kind::File && entry.relative@ == seq![
            encode_utf8(".cargo-shared-target-staging"@),
        ]),
        t.next(Answer::Walked(Walked::Entry(entry)), Step::Ask(u)),
        u.next(Answer::Measured(Ok(measured)), Step::Ask(v)),
    ensures
        u.asked() is Measure,
        ({
            let relative = entry.relative@;
            let name = relative.last();
            let in_deps = exists|i: int|
                0 <= i < relative.len() - 1 && #[trigger] relative[i] == encode_utf8("deps"@);
            let dep_info = name.len() >= 3 && name[name.len() - 2] == 0x2e && name[name.len() - 1]
                == 0x64;
            let linked = in_deps && !dep_info && measured.len >= t.min_shared_size;
            match v.asked() {
                Request::Reflink { from, to } => t.report.strategy == Strategy::Clone && from
                    == t.src@ + relative && to == t.staging@ + relative,
                Request::HardLink { from, to } => t.report.strategy == Strategy::LinkAndCopy
                    && linked && from == t.src@ + relative && to == t.staging@ + relative,
                Request::Copy { from, to } => t.report.strategy == Strategy::LinkAndCopy && !linked
                    && from == t.src@ + relative && to == t.staging@ + relative,
                _ => false,
            }
        }),
        v.report == t.report,
{
    law_shared_by_hard_link(entry.relative@, measured.len, t.min_shared_size);
}

/// A hard link is the file itself, so it is counted as shared and the next entry
/// is asked for. A clone or a copy is given the mode of its source, then the
/// times, and is counted when it has both: as shared if it is a clone, as copied
/// if it is a copy.
pub proof fn law_a_file_is_carried_with_its_times(
    t: Filling,
    entry: Entry,
    u: Filling,
    measured: Measured,
    v: Filling,
    x: Filling,
    y: Filling,
    z: Filling,
)
    requires
        t.asked() is NextEntry,
        entry.kind == Kind::File || entry.kind == Kind::Other,
        !(entry.kind == Kind::File && entry.relative@ == seq![
            encode_utf8(".cargo-shared-target-staging"@),
        ]),
        t.report.shared < u64::MAX,
        t.report.copied < u64::MAX,
        t.report.shared_bytes + measured.len <= u64::MAX,
        t.report.copied_bytes + measured.len <= u64::MAX,
        t.next(Answer::Walked(Walked::Entry(entry)), Step::Ask(u)),
        u.next(Answer::Measured(Ok(measured)), Step::Ask(v)),
        v.next(Answer::Done(Ok(())), Step::Ask(x)),
        !(v.asked() is HardLink) ==> x.next(Answer::Done(Ok(())), Step::Ask(y)) && y.next(
            Answer::Done(Ok(())),
            Step::Ask(z),
        ),
    ensures
        ({
            let to = t.staging@ + entry.relative@;
            let after = if v.asked() is Copy {
                Report {
                    copied: (t.report.copied + 1) as u64,
                    copied_bytes: (t.report.copied_bytes + measured.len) as u64,
                    ..t.report
                }
            } else {
                Report {
                    shared: (t.report.shared + 1) as u64,
                    shared_bytes: (t.report.shared_bytes + measured.len) as u64,
                    ..t.report
                }
            };
            if v.asked() is HardLink {
                x == (Filling { report: after, ..t })
            } else {
                &&& x.asked() matches Request::SetMode(p) && p == to
                &&& y.asked() matches Request::SetTimes(p) && p == to
                &&& z == (Filling { report: after, ..t })
            }
        }),
{
}

/// A directory called `incremental`, at whatever depth, is looked at where blocks
/// do not clone: it is left out, and counted as left out, if and only if `deps`
/// is a directory beside it. Every other directory, and every one where blocks
/// clone, is made at the same place in the tree that is built, and counted.
pub proof fn law_what_becomes_of_a_directory(
    t: Filling,
    entry: Entry,
    u: Filling,
    profile: bool,
    v: Filling,
    x: Filling,
)
    requires
        t.asked() is NextEntry,
        entry.kind == Kind::Dir,
        entry.relative@.len() > 0,
        t.report.dirs < u64::MAX,
        t.report.incremental_dropped < u64::MAX,
        t.next(Answer::Walked(Walked::Entry(entry)), Step::Ask(u)),
        u.asked() is IsDir ==> u.next(Answer::Flag(profile), Step::Ask(v)) && v.next(
            Answer::Done(Ok(())),
            Step::Ask(x),
        ),
        !(u.asked() is IsDir) ==> u.next(Answer::Done(Ok(())), Step::Ask(x)),
    ensures
        ({
            let relative = entry.relative@;
            let looked_at = t.report.strategy == Strategy::LinkAndCopy && relative.last()
                == encode_utf8("incremental"@);
            let made = Filling {
                report: Report { dirs: (t.report.dirs + 1) as u64, ..t.report },
                ..t
            };
            let dropped = Filling {
                report: Report {
                    incremental_dropped: (t.report.incremental_dropped + 1) as u64,
                    ..t.report
                },
                ..t
            };
            if looked_at {
                &&& u.asked() matches Request::IsDir(deps)
                &&& deps == (t.src@ + relative).drop_last().push(encode_utf8("deps"@))
                &&& if profile {
                    v.asked() is SkipDir && x == dropped
                } else {
                    (v.asked() matches Request::CreateDirAll(p) && p == t.staging@ + relative) && x
                        == made
                }
            } else {
                (u.asked() matches Request::CreateDirAll(p) && p == t.staging@ + relative) && x
                    == made
            }
        }),
{
    let relative = entry.relative@;
    let from = t.src@ + relative;
    lemma_bytes();
    assert(from.last() == relative.last());
}

/// A symlink is read, and one with the same target is made at the same place in
/// the tree that is built; where making one is not taken for granted, what it
/// points at is copied there. It is counted as a symlink either way.
pub proof fn law_what_becomes_of_a_symlink(
    t: Filling,
    entry: Entry,
    u: Filling,
    target: Vec<u8>,
    v: Filling,
    x: Filling,
)
    requires
        t.asked() is NextEntry,
        entry.kind == Kind::Symlink,
        t.report.symlinks < u64::MAX,
        t.next(Answer::Walked(Walked::Entry(entry)), Step::Ask(u)),
        u.next(Answer::Target(Ok(target)), Step::Ask(v)),
        v.next(Answer::Done(Ok(())), Step::Ask(x)),
    ensures
        ({
            let from = t.src@ + entry.relative@;
            let to = t.staging@ + entry.relative@;
            &&& u.asked() matches Request::ReadLink(p)
            &&& p == from
            &&& match v.asked() {
                Request::Symlink { target: said, at } => t.platform == Platform::Unix && said
                    == target@ && at == to,
                Request::Copy { from: f, to: p } => t.platform == Platform::Other && f == from && p
                    == to,
                _ => false,
            }
            &&& x == (Filling {
                report: Report { symlinks: (t.report.symlinks + 1) as u64, ..t.report },
                ..t
            })
        }),
{
}

/// The one entry that is passed over is a file called as a marker is, at the root
/// of the source.
pub proof fn law_only_a_marker_is_passed_over(t: Filling, entry: Entry, u: Filling)
    requires
        t.asked() is NextEntry,
        t.next(Answer::Walked(Walked::Entry(entry)), Step::Ask(u)),
    ensures
        (u.asked() is NextEntry) == (entry.kind == Kind::File && entry.relative@ == seq![
            encode_utf8(".cargo-shared-target-staging"@),
        ]),
        u.asked() is NextEntry ==> u == t,
{
}

/// A building makes the tree's own directory, walks the source from its entries
/// on, and ends with what it has counted when the walk does. It starts from
/// nothing counted.
pub proof fn law_how_a_building_begins_and_ends(
    s: Filling,
    t: Filling,
    u: Filling,
    v: Filling,
    o: FillStep,
)
    requires
        s.stage is MakeRoot,
        s.next(Answer::Done(Ok(())), Step::Ask(t)),
        t.next(Answer::Done(Ok(())), Step::Ask(u)),
        v.asked() is NextEntry,
        v.next(Answer::Walked(Walked::End), o),
    ensures
        s.asked() matches Request::CreateDirAll(p) && p == s.staging@,
        t.asked() matches Request::OpenWalk { root, min_depth } && root == s.src@ && min_depth == 1,
        u.asked() is NextEntry,
        u.report == s.report,
        u.src == s.src,
        u.staging == s.staging,
        u.min_shared_size == s.min_shared_size,
        u.platform == s.platform,
        o == FillStep::Done(Ok(v.report)),
{
}

/// Every request of a building that is declined ends it, with an error that says
/// what was being done, to which path, and what was declined.
pub proof fn law_a_declined_request_ends_a_building(t: Filling, f: Failure, o: FillStep)
    requires
        t.asked() is ReadLink ==> t.next(Answer::Target(Err(f)), o),
        !(t.asked() is ReadLink) ==> t.next(Answer::Done(Err(f)), o),
        t.asked() is CreateDirAll || t.asked() is ReadLink || t.asked() is Symlink
            || t.asked() is Copy || t.asked() is Reflink || t.asked() is HardLink
            || t.asked() is SetMode || t.asked() is SetTimes,
    ensures
        o matches Step::Done(Err(Error::Io { op, path, source })) && source == f.source && match t.asked() {
            Request::CreateDirAll(p) => op@ == "creating"@ && path@ == p,
            Request::ReadLink(p) => op@ == "reading the symlink"@ && path@ == p,
            Request::Symlink { at, .. } => op@ == "creating the symlink"@ && path@ == at,
            Request::Copy { to, .. } => path@ == to && if t.stage is Place {
                op@ == "copying to"@
            } else {
                op@ == "copying what the symlink pointed at, to"@
            },
            Request::Reflink { to, .. } => op@ == "cloning to"@ && path@ == to,
            Request::HardLink { to, .. } => op@ == "linking to"@ && path@ == to,
            Request::SetMode(p) => op@ == "setting the mode on"@ && path@ == p,
            Request::SetTimes(p) => op@ == "setting the timestamps on"@ && path@ == p,
            _ => false,
        },
{
}

/// A walk that fails ends a building with the source as the path; an entry that
/// cannot be measured ends it with the entry.
pub proof fn law_a_failed_walk_ends_a_building(
    t: Filling,
    failed: walkdir::Error,
    o: FillStep,
    entry: Entry,
    u: Filling,
    p: FillStep,
)
    requires
        t.asked() is NextEntry,
        t.next(Answer::Walked(Walked::Failed(failed)), o),
        t.next(Answer::Walked(Walked::Entry(entry)), Step::Ask(u)),
        u.asked() is Measure,
        u.next(Answer::Measured(Err(failed)), p),
    ensures
        o == FillStep::Done(Err(Error::Walk { path: t.src, source: failed })),
        p matches Step::Done(Err(Error::Walk { path, source })) && path@ == t.src@
            + entry.relative@ && source == failed,
{
}

/// A building ends only where the walk does, or where something is declined; it
/// ends well if and only if the walk comes to its end.
pub proof fn law_when_a_building_ends(t: Filling, a: Answer, o: FillStep)
    requires
        t.asked().fits(a),
        t.next(a, o),
    ensures
        (o matches Step::Done(Ok(_))) == (a == Answer::Walked(Walked::End)),
        (o matches Step::Done(Err(_))) == match a {
            Answer::Done(Err(_)) => !(t.asked() is OpenWalk) && !(t.asked() is SkipDir),
            Answer::Target(Err(_)) => true,
            Answer::Measured(Err(_)) => true,
            Answer::Walked(Walked::Failed(_)) => true,
            _ => false,
        },
{
}

/// A building starts from nothing counted.
pub proof fn law_a_building_starts_from_nothing(
    report: Report,
    strategy: Strategy,
    staging: Seq<Seq<u8>>,
)
    requires
        is_blank(report, strategy, staging),
    ensures
        report.strategy == strategy,
        report.dest@ == staging,
        report == (Report {
            strategy,
            dest: report.dest,
            dirs: 0,
            shared: 0,
            copied: 0,
            symlinks: 0,
            incremental_dropped: 0,
            shared_bytes: 0,
            copied_bytes: 0,
            build_locks_held: 0,
        }),
{
}

/// A building can go on while nothing that it counts has come to the largest
/// number there is; and while it can go on, nothing that it has counted is lost.
pub proof fn law_a_building_has_room(t: Filling, a: Answer, u: Filling)
    requires
        t.next(a, Step::Ask(u)),
    ensures
        ({
            let r = t.report;
            let size: int = match t.stage {
                FillStage::Place { size, .. } => size as int,
                FillStage::SetTimes { size, .. } => size as int,
                _ => 0,
            };
            r.dirs < u64::MAX && r.symlinks < u64::MAX && r.incremental_dropped < u64::MAX
                && r.shared < u64::MAX && r.copied < u64::MAX && r.shared_bytes + size <= u64::MAX
                && r.copied_bytes + size <= u64::MAX ==> t.room()
        }),
        t.room() ==> {
            &&& u.report.dirs >= t.report.dirs
            &&& u.report.symlinks >= t.report.symlinks
            &&& u.report.incremental_dropped >= t.report.incremental_dropped
            &&& u.report.shared >= t.report.shared
            &&& u.report.copied >= t.report.copied
            &&& u.report.shared_bytes >= t.report.shared_bytes
            &&& u.report.copied_bytes >= t.report.copied_bytes
            &&& u.report.strategy == t.report.strategy
            &&& u.report.dest == t.report.dest
        },
{
}

/// The states that a building went through, each with what it was told.
pub open spec fn is_course(states: Seq<Filling>, events: Events, o: FillStep) -> bool {
    &&& states.len() == events.len()
    &&& forall|i: int|
        0 <= i < events.len() ==> (#[trigger] states[i]).moves(
            events[i],
            if i + 1 < events.len() {
                FillStep::Ask(states[i + 1])
            } else {
                o
            },
        )
}

/// A building that came to something went through states that lead there, and
/// what it was started with stays.
#[verifier::spinoff_prover]
#[verifier::rlimit(40)]
proof fn lemma_course(s: Filling, events: Events, o: FillStep) -> (states: Seq<Filling>)
    requires
        fills(s, events, o),
    ensures
        is_course(states, events, o),
        forall|i: int|
            0 <= i < states.len() ==> {
                &&& (#[trigger] states[i]).src == s.src
                &&& states[i].staging == s.staging
                &&& states[i].min_shared_size == s.min_shared_size
                &&& states[i].platform == s.platform
                &&& states[i].report.strategy == s.report.strategy
            },
        o matches Step::Ask(t) ==> {
            &&& t.src == s.src
            &&& t.staging == s.staging
            &&& t.min_shared_size == s.min_shared_size
            &&& t.platform == s.platform
            &&& t.report.strategy == s.report.strategy
        },
    decreases events.len(),
{
    if events.len() == 0 {
        Seq::empty()
    } else {
        let before = events.drop_last();
        let t = choose|t: Filling|
            fills(s, events.drop_last(), Step::Ask(t)) && #[trigger] t.moves(events.last(), o);
        let fewer = lemma_course(s, before, Step::Ask(t));
        let states = fewer.push(t);
        assert forall|i: int| 0 <= i < events.len() implies (#[trigger] states[i]).moves(
            events[i],
            if i + 1 < events.len() {
                FillStep::Ask(states[i + 1])
            } else {
                o
            },
        ) by {
            if i < before.len() {
                assert(fewer[i].moves(
                    before[i],
                    if i + 1 < before.len() {
                        FillStep::Ask(fewer[i + 1])
                    } else {
                        FillStep::Ask(t)
                    },
                ));
            }
        }
        states
    }
}

/// The state in which a building was told the event of that index, and what it
/// became by that event and by the next one.
#[verifier::spinoff_prover]
#[verifier::rlimit(40)]
proof fn lemma_two_steps(s: Filling, events: Events, o: FillStep, i: int) -> (r: (
    Filling,
    FillStep,
    FillStep,
))
    requires
        fills(s, events, o),
        0 <= i < events.len(),
    ensures
        r.0.moves(events[i], r.1),
        r.0.src == s.src,
        r.0.staging == s.staging,
        r.0.min_shared_size == s.min_shared_size,
        r.0.platform == s.platform,
        r.0.report.strategy == s.report.strategy,
        i + 1 == events.len() ==> r.1 == o,
        i + 1 < events.len() ==> (r.1 matches Step::Ask(u) && u.asked() == events[i + 1].0
            && u.moves(events[i + 1], r.2)),
        i + 2 == events.len() ==> r.2 == o,
        i + 2 < events.len() ==> (r.2 matches Step::Ask(v) && v.asked() == events[i + 2].0),
{
    let states = lemma_course(s, events, o);
    let t = states[i];
    if i + 1 < events.len() {
        let u = states[i + 1];
        assert(t.moves(events[i], FillStep::Ask(u)));
        if i + 2 < events.len() {
            let v = states[i + 2];
            assert(u.moves(events[i + 1], FillStep::Ask(v)));
            assert(v.asked() == events[i + 2].0);
            (t, FillStep::Ask(u), FillStep::Ask(v))
        } else {
            (t, FillStep::Ask(u), o)
        }
    } else {
        (t, o, o)
    }
}

/// Where blocks do not clone, of every directory that is handed out and is called
/// `incremental`, at whatever depth, it is asked next whether `deps` is a
/// directory beside it. Where it is, the directory is passed by next; where it is
/// not, the directory is made.
pub proof fn law_incremental_of_a_profile_is_left_out(
    s: Filling,
    events: Events,
    o: FillStep,
    i: int,
    entry: Entry,
)
    requires
        s.report.strategy == Strategy::LinkAndCopy,
        fills(s, events, o),
        0 <= i < events.len(),
        events[i].0 is NextEntry,
        events[i].1 == Answer::Walked(Walked::Entry(entry)),
        entry.kind == Kind::Dir,
        entry.relative@.len() > 0,
        entry.relative@.last() == encode_utf8("incremental"@),
    ensures
        ({
            let deps = (s.src@ + entry.relative@).drop_last().push(encode_utf8("deps"@));
            let next = if i + 1 < events.len() {
                events[i + 1].0
            } else {
                o->Ask_0.asked()
            };
            let then = if i + 2 < events.len() {
                events[i + 2].0
            } else {
                o->Ask_0.asked()
            };
            &&& i + 1 == events.len() ==> o is Ask
            &&& next == Asked::IsDir(deps)
            &&& i + 1 < events.len() ==> {
                &&& i + 2 == events.len() ==> o is Ask
                &&& events[i + 1].1 == Answer::Flag(true) ==> then is SkipDir
                &&& events[i + 1].1 == Answer::Flag(false) ==> then == Asked::CreateDirAll(
                    s.staging@ + entry.relative@,
                )
                &&& events[i + 1].1 is Flag
            }
        }),
{
    let (t, next, then) = lemma_two_steps(s, events, o, i);
    let from = t.src@ + entry.relative@;
    lemma_bytes();
    assert(from.last() == entry.relative@.last());
    assert(t.takes(entry, next));
    assert(next->Ask_0.stage is IsProfile);
}

/// Every file that is handed out is measured next, and is then cloned where blocks
/// clone. Where they do not, it is hard linked if and only if one of the
/// directories it is in is called `deps`, its name does not end in `.d` behind
/// something else, and it is at least of the size from which on files are shared;
/// and every other is copied.
pub proof fn law_every_file_is_placed(
    s: Filling,
    events: Events,
    o: FillStep,
    i: int,
    entry: Entry,
    measured: Measured,
)
    requires
        fills(s, events, o),
        0 <= i < events.len() - 1,
        events[i].0 is NextEntry,
        events[i].1 == Answer::Walked(Walked::Entry(entry)),
        entry.kind == Kind::File || entry.kind == Kind::Other,
        entry.relative@.len() > 0,
        entry.relative@.last() != seq![0x2fu8],
        !(entry.kind == Kind::File && entry.relative@ == seq![
            encode_utf8(".cargo-shared-target-staging"@),
        ]),
        events[i + 1].1 == Answer::Measured(Ok(measured)),
    ensures
        events[i + 1].0 is Measure,
        i + 2 == events.len() ==> o is Ask,
        ({
            let relative = entry.relative@;
            let name = relative.last();
            let next = if i + 2 < events.len() {
                events[i + 2].0
            } else {
                o->Ask_0.asked()
            };
            let in_deps = exists|i: int|
                0 <= i < relative.len() - 1 && #[trigger] relative[i] == encode_utf8("deps"@);
            let dep_info = name.len() >= 3 && name[name.len() - 2] == 0x2e && name[name.len() - 1]
                == 0x64;
            let from = s.src@ + relative;
            let to = s.staging@ + relative;
            if s.report.strategy == Strategy::Clone {
                next matches Request::Reflink { from: f, to: p } && f == from && p == to
            } else if in_deps && !dep_info && measured.len >= s.min_shared_size {
                next matches Request::HardLink { from: f, to: p } && f == from && p == to
            } else {
                next matches Request::Copy { from: f, to: p } && f == from && p == to
            }
        }),
{
    let (t, next, then) = lemma_two_steps(s, events, o, i);
    assert(t.takes(entry, next));
    assert(next->Ask_0.stage is Measure);
    law_what_becomes_of_a_file(t, entry, next->Ask_0, measured, then->Ask_0);
}

} // verus!
