//! What becomes of each tree and each probe that was found.

use crate::error::{Error, Failure};
use crate::outside::json_parse;
use crate::path::FsPath;
use crate::protocol::{Answer, FileId, Listed, Platform, Request, Step, Walked};
use crate::prune::{
    is_busy_beside, is_busy_neighbour, is_missing, is_probe_file, outcomes, to_probe, ClearStep,
    Clearing, ExamineStage, ExamineStep, Examining, Options, PrunePhase, PruneStep, Pruning, State,
    Tree, Weight,
};
use crate::search::Searching;
use crate::staging::{is_read, marker_told, Claim, ClaimStage, Claiming, Marker};
use crate::weigh::Weighing;
use vstd::prelude::*;
use vstd::utf8::encode_utf8;

verus! {

/// A probe's directory is listed, and removed if and only if everything in it is
/// a file called `a` or `b`. It is reported as removed if and only if that was
/// done.
pub proof fn law_when_a_probe_is_removed(
    s: Clearing,
    listing: Result<Vec<Listed>, Failure>,
    o: ClearStep,
    came: Result<(), Failure>,
    p: ClearStep,
)
    requires
        s.stage is List,
        s.next(Answer::Listing(listing), o),
        o matches Step::Ask(t) ==> t.next(Answer::Done(came), p),
    ensures
        s.asked() matches Request::List(path) && path == s.path@,
        ({
            let known = listing matches Ok(l) && forall|i: int|
                0 <= i < l@.len() ==> (#[trigger] l@[i]).is_file && (l@[i].name@ == encode_utf8(
                    "a"@,
                ) || l@[i].name@ == encode_utf8("b"@));
            match o {
                Step::Ask(t) => known && (t.asked() matches Request::RemoveDirAll(path) && path
                    == s.path@) && (p matches Step::Done(probe) && probe.path@ == s.path@
                    && probe.removed == came is Ok),
                Step::Done(probe) => !known && probe.path@ == s.path@ && !probe.removed,
            }
        }),
{
    if let Ok(l) = listing {
        if let Step::Done(_) = o {
            let i = choose|i: int|
                0 <= i < l@.len() && !is_probe_file(#[trigger] l@[i]);
            assert(!(l@[i].is_file && (l@[i].name@ == encode_utf8("a"@) || l@[i].name@
                == encode_utf8("b"@))));
        }
    }
}

/// A seeding may be going on beside something if and only if one of the trees is
/// in the same directory and is being built, or may be for all that is known.
pub proof fn law_busy_is_being_built_beside(trees: Seq<Tree>, dir: Seq<Seq<u8>>, name: Seq<u8>)
    requires
        name != seq![0x2fu8],
    ensures
        is_busy_beside(trees, dir.push(name)) <==> exists|i: int|
            {
                &&& 0 <= i < trees.len()
                &&& trees[i].state == State::Building || trees[i].state == State::Undecidable
                &&& (#[trigger] trees[i]).staging@.len() > 0
                &&& trees[i].staging@.last() != seq![0x2fu8]
                &&& trees[i].staging@.drop_last() == dir
            },
{
    let path = dir.push(name);
    assert(path.drop_last() =~= dir);
    assert(path.last() == name);
    if is_busy_beside(trees, path) {
        let i = choose|i: int|
            0 <= i < trees.len() && is_busy_neighbour(#[trigger] trees[i], path);
        assert(trees[i].staging@.drop_last() == dir);
    }
    if exists|i: int|
        {
            &&& 0 <= i < trees.len()
            &&& trees[i].state == State::Building || trees[i].state == State::Undecidable
            &&& (#[trigger] trees[i]).staging@.len() > 0
            &&& trees[i].staging@.last() != seq![0x2fu8]
            &&& trees[i].staging@.drop_last() == dir
        } {
        let i = choose|i: int|
            {
                &&& 0 <= i < trees.len()
                &&& trees[i].state == State::Building || trees[i].state == State::Undecidable
                &&& (#[trigger] trees[i]).staging@.len() > 0
                &&& trees[i].staging@.last() != seq![0x2fu8]
                &&& trees[i].staging@.drop_last() == dir
            };
        assert(is_busy_neighbour(trees[i], path));
    }
}

/// An examination reads the marker. A marker that is gone ends it with no tree;
/// one that cannot be read, that spells no document, or that does not say what it
/// is about ends it with that error; and else it is asked where the tree is.
pub proof fn law_how_an_examination_begins(
    s: Examining,
    contents: Result<Vec<u8>, Failure>,
    o: ExamineStep,
)
    requires
        s.stage is ReadMarker,
        s.next(Answer::Contents(contents), o),
    ensures
        ({
            let path = s.staging@.push(encode_utf8(".cargo-shared-target-staging"@));
            &&& s.asked() matches Request::ReadFile(p)
            &&& p == path
            &&& match contents {
                Err(f) => if f.missing {
                    o == ExamineStep::Done(Ok(None))
                } else {
                    o matches Step::Done(Err(Error::Io { op, path: p, source })) && op@
                        == "reading the staging marker"@ && p@ == path && source == f.source
                },
                Ok(text) => match json_parse(text@) {
                    None => o matches Step::Done(Err(Error::MarkerUnreadable { path: p, .. })) && p@
                        == path,
                    Some(document) => match marker_told(document) {
                        None => o matches Step::Done(Err(Error::MarkerIncomplete(p))) && p@ == path,
                        Some(told) => {
                            &&& o matches Step::Ask(t)
                            &&& t == (Examining { stage: t.stage, ..s })
                            &&& t.stage matches ExamineStage::WhereStaged { marker }
                            &&& marker@ == told
                        },
                    },
                },
            }
        }),
{
    if !is_missing(contents) {
        let r = choose|r|
            is_read(s.marker_path(), contents, r) && #[trigger] s.has_read(r, o);
    }
}

/// A tree has landed if and only if it and the destination that its marker names
/// are both there and are one place. A tree that has landed is not weighed: it is
/// asked at once whether a run is still going; every other is weighed first.
pub proof fn law_when_a_tree_has_landed(
    t: Examining,
    marker: Marker,
    staged: Result<FsPath, Failure>,
    o: ExamineStep,
    dest: Result<FsPath, Failure>,
    p: ExamineStep,
)
    requires
        t.stage == (ExamineStage::WhereStaged { marker }),
        t.next(Answer::Canonical(staged), o),
        o matches Step::Ask(u) ==> u.next(Answer::Canonical(dest), p),
    ensures
        t.asked() matches Request::Canonicalize(path) && path == t.staging@,
        o matches Step::Ask(u) && (u.asked() matches Request::Canonicalize(path) && path
            == marker.dest@),
        p matches Step::Ask(v) && v == (Examining { stage: v.stage, ..t }) && {
            let path = t.staging@.push(encode_utf8(".cargo-shared-target-staging"@));
            match (staged, dest) {
                (Ok(one), Ok(other)) if one@ == other@ => {
                    &&& v.stage matches ExamineStage::Claim { landed, marker: m, weight, .. }
                    &&& landed
                    &&& m == marker
                    &&& weight == (Weight { files: 0, dirs: 0, total: 0, shared: None })
                    &&& match v.asked() {
                        Request::OpenMarker(q) => t.platform == Platform::Unix && q == path,
                        Request::IsFile(q) => t.platform == Platform::Other && q == path,
                        _ => false,
                    }
                },
                _ => v.asked() matches Request::OpenWalk { root, min_depth } && root == t.staging@
                    && min_depth == 1,
            }
        },
{
}

/// A tree that was weighed is asked whether a run is still going. One that could
/// not be weighed is an error while its marker is there, and no tree when that is
/// gone.
pub proof fn law_what_follows_the_weighing(
    t: Examining,
    marker: Marker,
    weighing: Weighing,
    o: ExamineStep,
    failed: walkdir::Error,
    p: ExamineStep,
    there: bool,
    q: ExamineStep,
)
    requires
        t.stage == (ExamineStage::Weigh { marker, weighing }),
        weighing.asked() is NextEntry,
        t.next(Answer::Walked(Walked::End), o),
        t.next(Answer::Walked(Walked::Failed(failed)), p),
        p matches Step::Ask(u) ==> u.next(Answer::Flag(there), q),
    ensures
        ({
            let path = t.staging@.push(encode_utf8(".cargo-shared-target-staging"@));
            &&& o matches Step::Ask(u)
            &&& u == (Examining { stage: u.stage, ..t })
            &&& u.stage matches ExamineStage::Claim { landed, marker: m, weight, .. }
            &&& !landed
            &&& m == marker
            &&& weighing.next(Answer::Walked(Walked::End), Step::Done(Ok(weight)))
            &&& match u.asked() {
                Request::OpenMarker(q) => t.platform == Platform::Unix && q == path,
                Request::IsFile(q) => t.platform == Platform::Other && q == path,
                _ => false,
            }
            &&& p matches Step::Ask(v)
            &&& v.asked() matches Request::IsFile(q)
            &&& q == path
        }),
        match q {
            Step::Done(Ok(None)) => !there,
            Step::Done(Err(e)) => there && e == (Error::Walk {
                path: weighing.staging,
                source: failed,
            }),
            _ => false,
        },
{
    let a = Answer::Walked(Walked::End);
    let b = Answer::Walked(Walked::Failed(failed));
    let one = choose|r| #[trigger] weighing.next(a, r) && t.weighed(marker, r, o);
    let other = choose|r| #[trigger] weighing.next(b, r) && t.weighed(marker, r, p);
}

/// An abandoned tree is removed whole if that was asked for, or left; of one that
/// has landed only the marker is removed. The marker's lock is let go of
/// afterwards. The tree is reported as removed if and only if what was to be
/// removed was; that a whole tree could not be removed is an error.
pub proof fn law_what_becomes_of_an_abandoned_tree(
    t: Examining,
    marker: Marker,
    landed: bool,
    weight: Weight,
    claiming: Claiming,
    held: FileId,
    o: ExamineStep,
    came: Result<(), Failure>,
    p: ExamineStep,
    a: Answer,
    q: ExamineStep,
)
    requires
        t.stage == (ExamineStage::Claim { marker, landed, weight, claiming }),
        claiming.stage == (ClaimStage::WhichIsThere { held }),
        t.next(Answer::Identity(Ok(held)), o),
        a is Done,
        o matches Step::Ask(u) ==> if t.remove {
            u.next(Answer::Done(came), p) && (p matches Step::Ask(v) ==> v.next(a, q))
        } else {
            u.next(a, q)
        },
    ensures
        o matches Step::Ask(u) && if t.remove {
            (p matches Step::Ask(v) && v.asked() is CloseMarker) && match u.asked() {
                Request::RemoveFile(path) => landed && path == t.staging@.push(
                    encode_utf8(".cargo-shared-target-staging"@),
                ),
                Request::RemoveDirAll(path) => !landed && path == t.staging@,
                _ => false,
            }
        } else {
            u.asked() is CloseMarker
        },
        match q {
            Step::Done(Ok(Some(tree))) => {
                &&& tree.staging@ == t.staging@
                &&& tree.marker == marker
                &&& tree.weight == weight
                &&& tree.state == if landed {
                    State::Landed
                } else {
                    State::Abandoned
                }
                &&& tree.removed == (t.remove && came is Ok)
                &&& t.remove && !landed ==> came is Ok
            },
            Step::Done(Err(Error::Io { op, path, source })) => {
                &&& t.remove && !landed
                &&& came matches Err(f)
                &&& op@ == "removing"@
                &&& path@ == t.staging@
                &&& source == f.source
            },
            _ => false,
        },
{
    let b = Answer::Identity(Ok(held));
    let r = choose|r| #[trigger] claiming.next(b, r) && t.claimed(marker, landed, weight, r, o);
}

/// A tree that a run is writing, or may be writing, is reported as it is; one
/// that is finished is no staged tree; and what went wrong with the asking went
/// wrong with the examination.
pub proof fn law_what_becomes_of_a_tree_in_use(
    t: Examining,
    marker: Marker,
    landed: bool,
    weight: Weight,
    claiming: Claiming,
    came: Result<Claim, Error>,
    a: Answer,
    o: ExamineStep,
    u: Examining,
    asking: Claiming,
    there: bool,
    p: ExamineStep,
)
    requires
        t.stage == (ExamineStage::Claim { marker, landed, weight, claiming }),
        claiming.stage == (ClaimStage::Close { came }),
        !(came matches Ok(claim) && claim is Abandoned),
        a is Done,
        t.next(a, o),
        u.stage == (ExamineStage::Claim { marker, landed, weight, claiming: asking }),
        asking.stage is IsThere,
        u.next(Answer::Flag(there), p),
    ensures
        match (came, o) {
            (Err(e), Step::Done(Err(said))) => said == e,
            (Ok(claim), Step::Done(Ok(None))) => claim is Finished,
            (Ok(claim), Step::Done(Ok(Some(tree)))) => {
                &&& tree.state == State::Building && claim is Building || tree.state
                    == State::Undecidable && claim is Undecidable
                &&& tree.staging@ == t.staging@
                &&& tree.marker == marker
                &&& tree.weight == weight
                &&& !tree.removed
            },
            _ => false,
        },
        match p {
            Step::Done(Ok(None)) => !there,
            Step::Done(Ok(Some(tree))) => there && tree.state == State::Undecidable
                && tree.staging@ == u.staging@ && tree.marker == marker && tree.weight == weight
                && !tree.removed,
            _ => false,
        },
{
    let b = Answer::Flag(there);
    let r = choose|r| #[trigger] claiming.next(a, r) && t.claimed(marker, landed, weight, r, o);
    let r = choose|r| #[trigger] asking.next(b, r) && u.claimed(marker, landed, weight, r, p);
}

/// A pruning is refused if and only if its root is no directory; and else it
/// searches everything from the root on, the root included.
pub proof fn law_how_a_pruning_begins(s: Pruning, there: bool, o: PruneStep)
    requires
        s.phase is Root,
        s.next(Answer::Flag(there), o),
    ensures
        s.asked() matches Request::IsDir(root) && root == s.opts.root@,
        match o {
            Step::Done(Err(e)) => !there && e == Error::PruneRootMissing(s.opts.root),
            Step::Ask(t) => there && t.opts == s.opts && t.platform == s.platform && (
            t.asked() matches Request::OpenWalk { root, min_depth } && root == s.opts.root@
                && min_depth == 0),
            _ => false,
        },
{
}

/// The probes from the one of that index on are dealt with in turn. Where nothing
/// is to be removed, or a seeding may be going on beside every one of them, all
/// are reported as left, and the pruning ends. Else the first beside which none is
/// going on is listed, and those before it are reported as left.
pub proof fn law_probes_are_dealt_with_in_turn(
    opts: Options,
    platform: Platform,
    trees: Seq<Tree>,
    probes: Seq<FsPath>,
    at: nat,
    cleared: Seq<(Seq<Seq<u8>>, bool)>,
    o: PruneStep,
)
    requires
        at <= probes.len(),
        to_probe(opts, platform, trees, probes, at, cleared, o),
    ensures
        match o {
            Step::Done(Ok(report)) => {
                &&& report.trees@ == trees
                &&& report.probes@.len() == cleared.len() + probes.len() - at
                &&& forall|i: int|
                    0 <= i < cleared.len() ==> ((#[trigger] report.probes@[i]).path@,
                        report.probes@[i].removed) == cleared[i]
                &&& forall|i: int|
                    cleared.len() <= i < report.probes@.len() ==> {
                        &&& (#[trigger] report.probes@[i]).path@ == probes[at + i
                            - cleared.len()]@
                        &&& !report.probes@[i].removed
                        &&& !opts.remove || is_busy_beside(trees, report.probes@[i].path@)
                    }
            },
            Step::Ask(t) => exists|k: int|
                {
                    &&& at <= k < probes.len()
                    &&& opts.remove
                    &&& !is_busy_beside(trees, (#[trigger] probes[k])@)
                    &&& forall|i: int|
                        at <= i < k ==> is_busy_beside(trees, (#[trigger] probes[i])@)
                    &&& t.asked() matches Request::List(path)
                    &&& path == probes[k]@
                },
            Step::Done(Err(_)) => false,
        },
    decreases probes.len() - at,
{
    if at < probes.len() {
        if !opts.remove || is_busy_beside(trees, probes[at as int]@) {
            let more = cleared.push((probes[at as int]@, false));
            law_probes_are_dealt_with_in_turn(opts, platform, trees, probes, at + 1, more, o);
            if let Step::Done(Ok(report)) = o {
                assert forall|i: int| 0 <= i < cleared.len() implies ((
                #[trigger] report.probes@[i]).path@, report.probes@[i].removed) == cleared[i] by {
                    assert(more[i] == cleared[i]);
                }
                let i = cleared.len() as int;
                assert(more[i] == (probes[at as int]@, false));
                assert(report.probes@[i].path@ == probes[at as int]@);
            }
        } else {
            assert(!is_busy_beside(trees, probes[at as int]@));
        }
    } else {
        if let Step::Done(Ok(report)) = o {
            let all = outcomes(report.probes@);
            assert forall|i: int| 0 <= i < cleared.len() implies ((
            #[trigger] report.probes@[i]).path@, report.probes@[i].removed) == cleared[i] by {
                assert(all[i] == cleared[i]);
            }
        }
    }
}

/// The trees that were found are examined in turn, from the first to the last;
/// each that is still there is added to the report, and one whose examination
/// fails ends the pruning.
pub proof fn law_trees_are_examined_in_turn(
    t: Pruning,
    todo: Vec<FsPath>,
    at: usize,
    probes: Vec<FsPath>,
    trees: Vec<Tree>,
    examining: Examining,
    came: Result<Option<Tree>, Error>,
    a: Answer,
    o: PruneStep,
)
    requires
        t.phase == (PrunePhase::Examine { todo, at, probes, trees, examining }),
        examining.stage == (ExamineStage::Close { came }),
        a is Done,
        t.next(a, o),
        at < todo.len(),
    ensures
        match came {
            Err(e) => o == PruneStep::Done(Err(e)),
            Ok(tree) => {
                let reported = if tree is Some {
                    trees@.push(tree->0)
                } else {
                    trees@
                };
                if at + 1 < todo.len() {
                    &&& o matches Step::Ask(u)
                    &&& u.asked() matches Request::ReadFile(path)
                    &&& path == todo@[at + 1]@.push(encode_utf8(".cargo-shared-target-staging"@))
                    &&& u.phase matches PrunePhase::Examine { trees: r, todo: d, at: k, probes: p, .. }
                    &&& r@ == reported
                    &&& d@ == todo@
                    &&& k == at + 1
                    &&& p@ == probes@
                } else if probes@.len() == 0 {
                    &&& o matches Step::Done(Ok(report))
                    &&& report.trees@ == reported
                    &&& report.probes@.len() == 0
                } else {
                    to_probe(t.opts, t.platform, reported, probes@, 0, Seq::empty(), o)
                }
            },
        },
{
    let p = choose|p|
        #[trigger] examining.next(a, p) && t.examined(todo, at, probes, trees, p, o);
    if let Ok(tree) = came {
        if at + 1 >= todo.len() && probes@.len() == 0 {
            let reported = if tree is Some {
                trees@.push(tree->0)
            } else {
                trees@
            };
            law_probes_are_dealt_with_in_turn(
                t.opts,
                t.platform,
                reported,
                probes@,
                0,
                Seq::empty(),
                o,
            );
        }
    }
}

/// When the search is at its end, the first tree that was found is examined; a
/// search that fails ends the pruning.
pub proof fn law_what_follows_the_search(
    t: Pruning,
    searching: Searching,
    a: Answer,
    o: PruneStep,
)
    requires
        t.phase == (PrunePhase::Search { searching }),
        searching.asked() is NextEntry,
        a matches Answer::Walked(w) && (w is End || w is Failed),
        t.next(a, o),
    ensures
        match a {
            Answer::Walked(Walked::Failed(source)) => o == PruneStep::Done(
                Err(Error::Walk { path: searching.root, source }),
            ),
            _ => if searching.found.staged@.len() > 0 {
                &&& o matches Step::Ask(u)
                &&& u.asked() matches Request::ReadFile(path)
                &&& path == searching.found.staged@[0]@.push(
                    encode_utf8(".cargo-shared-target-staging"@),
                )
                &&& u.phase matches PrunePhase::Examine { trees, todo, at, probes, .. }
                &&& trees@.len() == 0
                &&& todo@ == searching.found.staged@
                &&& at == 0
                &&& probes@ == searching.found.probes@
            } else {
                to_probe(
                    t.opts,
                    t.platform,
                    Seq::empty(),
                    searching.found.probes@,
                    0,
                    Seq::empty(),
                    o,
                )
            },
        },
{
    let p = choose|p| #[trigger] searching.next(a, p) && t.searched(p, o);
}

/// While a part of a pruning asks, the pruning asks what the part asks, and hands
/// on what it is told; nothing else of the pruning changes until the part has come
/// to its end.
pub proof fn law_a_pruning_does_what_its_parts_do(t: Pruning, a: Answer, o: PruneStep)
    requires
        t.next(a, o),
    ensures
        match t.phase {
            PrunePhase::Root => true,
            PrunePhase::Search { searching } => t.asked() == searching.asked() && exists|p|
                #![trigger searching.next(a, p)]
                searching.next(a, p) && match p {
                    Step::Ask(s) => o == PruneStep::Ask(
                        Pruning { phase: PrunePhase::Search { searching: s }, ..t },
                    ),
                    Step::Done(Err(e)) => o == PruneStep::Done(Err(e)),
                    Step::Done(Ok(_)) => true,
                },
            PrunePhase::Examine { todo, at, probes, trees, examining } => t.asked()
                == examining.asked() && exists|p|
                #![trigger examining.next(a, p)]
                examining.next(a, p) && match p {
                    Step::Ask(s) => o == PruneStep::Ask(
                        Pruning {
                            phase: PrunePhase::Examine { todo, at, probes, trees, examining: s },
                            ..t
                        },
                    ),
                    Step::Done(Err(e)) => o == PruneStep::Done(Err(e)),
                    Step::Done(Ok(tree)) => at + 1 < todo@.len() ==> (o matches Step::Ask(u)
                        && u.opts == t.opts && u.platform == t.platform && (u.phase matches
                        PrunePhase::Examine { trees: r, todo: d, at: k, probes: q, .. } && r@ == (
                    if tree is Some {
                        trees@.push(tree->0)
                    } else {
                        trees@
                    }) && d@ == todo@ && k == at + 1 && q@ == probes@)),
                },
            PrunePhase::Clear { trees, probes, at, cleared, clearing } => t.asked()
                == clearing.asked() && exists|p|
                #![trigger clearing.next(a, p)]
                clearing.next(a, p) && match p {
                    Step::Ask(s) => o == PruneStep::Ask(
                        Pruning {
                            phase: PrunePhase::Clear { trees, probes, at, cleared, clearing: s },
                            ..t
                        },
                    ),
                    Step::Done(probe) => to_probe(
                        t.opts,
                        t.platform,
                        trees@,
                        probes@,
                        at as nat + 1,
                        Seq::new(
                            cleared@.len(),
                            |i: int| (cleared@[i].path@, cleared@[i].removed),
                        ).push((probe.path@, probe.removed)),
                        o,
                    ),
                },
        },
{
    match t.phase {
        PrunePhase::Root => {},
        PrunePhase::Search { searching } => {
            let p = choose|p| #[trigger] searching.next(a, p) && t.searched(p, o);
            assert(searching.next(a, p));
        },
        PrunePhase::Examine { todo, at, probes, trees, examining } => {
            let p = choose|p|
                #[trigger] examining.next(a, p) && t.examined(todo, at, probes, trees, p, o);
            assert(examining.next(a, p));
        },
        PrunePhase::Clear { trees, probes, at, cleared, clearing } => {
            let p = choose|p|
                #[trigger] clearing.next(a, p) && t.cleared(trees, probes, at, cleared, p, o);
            assert(clearing.next(a, p));
            assert(outcomes(cleared@) =~= Seq::new(
                cleared@.len(),
                |i: int| (cleared@[i].path@, cleared@[i].removed),
            ));
        },
    }
}

/// While a part of an examination asks, the examination asks what the part asks,
/// and hands on what it is told; nothing else of it changes until the part has
/// come to its end.
pub proof fn law_an_examination_does_what_its_parts_do(t: Examining, a: Answer, o: ExamineStep)
    requires
        t.next(a, o),
    ensures
        match t.stage {
            ExamineStage::Weigh { marker, weighing } => t.asked() == weighing.asked() && exists|p|
                #![trigger weighing.next(a, p)]
                weighing.next(a, p) && match p {
                    Step::Ask(s) => o == ExamineStep::Ask(
                        Examining { stage: ExamineStage::Weigh { marker, weighing: s }, ..t },
                    ),
                    _ => true,
                },
            ExamineStage::Claim { marker, landed, weight, claiming } => t.asked()
                == claiming.asked() && exists|p|
                #![trigger claiming.next(a, p)]
                claiming.next(a, p) && match p {
                    Step::Ask(s) => o == ExamineStep::Ask(
                        Examining {
                            stage: ExamineStage::Claim { marker, landed, weight, claiming: s },
                            ..t
                        },
                    ),
                    Step::Done(Err(e)) => o == ExamineStep::Done(Err(e)),
                    Step::Done(Ok(Claim::Finished)) => o == ExamineStep::Done(Ok(None)),
                    _ => true,
                },
            ExamineStage::Close { came } => a is Done ==> o == ExamineStep::Done(came),
            _ => true,
        },
{
    match t.stage {
        ExamineStage::Weigh { marker, weighing } => {
            let p = choose|p| #[trigger] weighing.next(a, p) && t.weighed(marker, p, o);
            assert(weighing.next(a, p));
        },
        ExamineStage::Claim { marker, landed, weight, claiming } => {
            let p = choose|p|
                #[trigger] claiming.next(a, p) && t.claimed(marker, landed, weight, p, o);
            assert(claiming.next(a, p));
        },
        _ => {},
    }
}

} // verus!
