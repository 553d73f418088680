//! What a tree weighs, told from what was met in it.

use crate::error::Error;
use crate::protocol::{Answer, Entry, FileId, Kind, Measured, Platform, Request, Step, Walked};
use crate::prune::Weight;
use crate::weigh::{
    dirs_told, elsewhere, law_weighed_exactly, measured_told, names_met, sizes, weighs, WeighStep,
    Weighing,
};
use vstd::prelude::*;

verus! {

proof fn lemma_dirs(told: Seq<Answer>)
    ensures
        dirs_told(told) == told.filter(
            |a: Answer| a matches Answer::Walked(Walked::Entry(e)) && e.kind == Kind::Dir,
        ).len(),
    decreases told.len(),
{
    reveal(Seq::filter);
    if told.len() > 0 {
        lemma_dirs(told.drop_last());
    }
}

proof fn lemma_measured(told: Seq<Answer>)
    ensures
        measured_told(told) == told.filter(
            |a: Answer| a matches Answer::Measured(Ok(_)),
        ).map_values(|a: Answer| a->Measured_0->Ok_0),
    decreases told.len(),
{
    let is_measured = |a: Answer| a matches Answer::Measured(Ok(_));
    let file = |a: Answer| a->Measured_0->Ok_0;
    reveal(Seq::filter);
    if told.len() > 0 {
        lemma_measured(told.drop_last());
    }
    assert(measured_told(told) =~= told.filter(is_measured).map_values(file));
}

proof fn lemma_names(files: Seq<Measured>, id: FileId)
    ensures
        names_met(files, id) == files.filter(|n: Measured| n.id == id).len(),
    decreases files.len(),
{
    reveal(Seq::filter);
    if files.len() > 0 {
        lemma_names(files.drop_last(), id);
    }
}

proof fn lemma_sizes(files: Seq<Measured>)
    ensures
        sizes(files) == files.fold_left(0int, |sum: int, m: Measured| sum + m.len),
    decreases files.len(),
{
    if files.len() > 0 {
        lemma_sizes(files.drop_last());
    }
}

proof fn lemma_elsewhere(part: Seq<Measured>, all: Seq<Measured>)
    ensures
        elsewhere(part, all) == sizes(
            part.filter(|m: Measured| m.links > all.filter(|n: Measured| n.id == m.id).len()),
        ),
    decreases part.len(),
{
    let linked = |m: Measured| m.links > all.filter(|n: Measured| n.id == m.id).len();
    reveal(Seq::filter);
    if part.len() > 0 {
        let before = part.drop_last();
        let m = part.last();
        lemma_elsewhere(before, all);
        lemma_names(all, m.id);
        assert(names_met(all, m.id) == all.filter(|n: Measured| n.id == m.id).len());
        if linked(m) {
            assert(part.filter(linked).drop_last() =~= before.filter(linked));
        }
    }
}

/// What is shared of a tree is what those of its files weigh, each in full and
/// once for each of its names in the tree, that have more links than they have
/// names in the tree, however many more; the total is what all of them weigh.
pub proof fn law_what_is_shared(s: Weighing, told: Seq<Answer>, weight: Weight)
    requires
        s.is_blank(),
        weighs(s, told, WeighStep::Done(Ok(weight))),
    ensures
        ({
            let files = told.filter(|a: Answer| a matches Answer::Measured(Ok(_))).map_values(
                |a: Answer| a->Measured_0->Ok_0,
            );
            let linked = files.filter(
                |m: Measured| m.links > files.filter(|n: Measured| n.id == m.id).len(),
            );
            &&& weight.files == files.len()
            &&& weight.total == files.fold_left(0int, |sum: int, m: Measured| sum + m.len)
            &&& weight.shared is Some == (s.platform == Platform::Unix)
            &&& weight.shared matches Some(shared) ==> shared == linked.fold_left(
                0int,
                |sum: int, m: Measured| sum + m.len,
            )
        }),
        weight.dirs == told.filter(
            |a: Answer| a matches Answer::Walked(Walked::Entry(e)) && e.kind == Kind::Dir,
        ).len(),
{
    let files = measured_told(told);
    law_weighed_exactly(s, told, weight);
    lemma_dirs(told);
    lemma_measured(told);
    lemma_sizes(files);
    lemma_elsewhere(files, files);
    lemma_sizes(
        files.filter(|m: Measured| m.links > files.filter(|n: Measured| n.id == m.id).len()),
    );
}

proof fn lemma_all_elsewhere(part: Seq<Measured>, all: Seq<Measured>)
    requires
        forall|i: int|
            0 <= i < part.len() ==> (#[trigger] part[i]).links > names_met(all, part[i].id),
    ensures
        elsewhere(part, all) == sizes(part),
    decreases part.len(),
{
    if part.len() > 0 {
        let before = part.drop_last();
        assert forall|i: int| 0 <= i < before.len() implies (#[trigger] before[i]).links
            > names_met(all, before[i].id) by {
            assert(before[i] == part[i]);
        }
        assert(part.last() == part[part.len() - 1]);
        lemma_all_elsewhere(before, all);
    }
}

/// Where every file of a tree has a name elsewhere, all of it is shared, and
/// removing it gives nothing back.
pub proof fn law_a_tree_of_links_gives_nothing_back(s: Weighing, told: Seq<Answer>, weight: Weight)
    requires
        s.is_blank(),
        s.platform == Platform::Unix,
        weighs(s, told, WeighStep::Done(Ok(weight))),
        forall|i: int|
            0 <= i < told.len() ==> ((#[trigger] told[i]) matches Answer::Measured(Ok(m))
                ==> m.links > told.filter(
                |a: Answer| a matches Answer::Measured(Ok(n)) && n.id == m.id,
            ).len()),
    ensures
        weight.shared == Some(weight.total),
        weight.frees() == Some(0u64),
{
    let files = measured_told(told);
    law_weighed_exactly(s, told, weight);
    assert forall|i: int| 0 <= i < files.len() implies (#[trigger] files[i]).links > names_met(
        files,
        files[i].id,
    ) by {
        lemma_told(told, i);
        lemma_names_told(told, files[i].id);
        let k = choose|k: int| 0 <= k < told.len() && #[trigger] told[k] == Answer::Measured(Ok(files[i]));
        assert(told[k] matches Answer::Measured(Ok(_)));
        let m = files[i];
        assert(m.links > told.filter(
            |a: Answer| a matches Answer::Measured(Ok(n)) && n.id == m.id,
        ).len());
    }
    lemma_all_elsewhere(files, files);
}

proof fn lemma_told(told: Seq<Answer>, i: int)
    requires
        0 <= i < measured_told(told).len(),
    ensures
        exists|k: int|
            0 <= k < told.len() && #[trigger] told[k] == Answer::Measured(
                Ok(measured_told(told)[i]),
            ),
    decreases told.len(),
{
    let before = told.drop_last();
    if i < measured_told(before).len() {
        lemma_told(before, i);
        let k = choose|k: int|
            0 <= k < before.len() && #[trigger] before[k] == Answer::Measured(
                Ok(measured_told(before)[i]),
            );
        assert(told[k] == before[k]);
    } else {
        assert(told[told.len() - 1] == told.last());
    }
}

proof fn lemma_names_told(told: Seq<Answer>, id: FileId)
    ensures
        names_met(measured_told(told), id) == told.filter(
            |a: Answer| a matches Answer::Measured(Ok(n)) && n.id == id,
        ).len(),
    decreases told.len(),
{
    reveal(Seq::filter);
    if told.len() > 0 {
        lemma_names_told(told.drop_last(), id);
        if let Answer::Measured(Ok(_)) = told.last() {
            assert(measured_told(told).drop_last() =~= measured_told(told.drop_last()));
        }
    }
}

/// A tree is weighed by walking it from its entries on. Each of its directories
/// is counted, its symlinks are passed over, and everything else is measured
/// before the next entry is asked for.
pub proof fn law_what_is_weighed(
    s: Weighing,
    o: WeighStep,
    t: Weighing,
    entry: Entry,
    p: WeighStep,
    measured: Measured,
    q: WeighStep,
)
    requires
        s.is_blank(),
        s.next(Answer::Done(Ok(())), o),
        t.asked() is NextEntry,
        t.dirs < u64::MAX,
        t.files < u64::MAX,
        t.total + measured.len <= u64::MAX,
        t.next(Answer::Walked(Walked::Entry(entry)), p),
        p matches Step::Ask(u) ==> u.next(Answer::Measured(Ok(measured)), q),
    ensures
        s.asked() matches Request::OpenWalk { root, min_depth } && root == s.staging@ && min_depth
            == 1,
        o matches Step::Ask(w) && w.asked() is NextEntry,
        p matches Step::Ask(u) && match entry.kind {
            Kind::Dir => u == (Weighing { dirs: (t.dirs + 1) as u64, ..t }),
            Kind::Symlink => u == t,
            Kind::File | Kind::Other => u.asked() is Measure && (q matches Step::Ask(v)
                && v.asked() is NextEntry && v.files == t.files + 1 && v.dirs == t.dirs && v.total
                == t.total + measured.len && v.measured@ == t.measured@.push(measured)
                && v.staging == t.staging && v.platform == t.platform),
        },
{
}

/// A weighing fails if and only if the walk does, or the measuring of an entry:
/// with the tree as the path of the one, and the entry as that of the other.
pub proof fn law_when_a_weighing_fails(
    t: Weighing,
    a: Answer,
    o: WeighStep,
    entry: Entry,
    failed: walkdir::Error,
    p: WeighStep,
    q: WeighStep,
)
    requires
        t.asked().fits(a),
        t.next(a, o),
        t.asked() is NextEntry,
        entry.kind == Kind::File,
        t.next(Answer::Walked(Walked::Entry(entry)), p),
        p matches Step::Ask(u) ==> u.next(Answer::Measured(Err(failed)), q),
    ensures
        match o {
            Step::Ask(_) => a matches Answer::Walked(Walked::Entry(_)),
            Step::Done(Ok(_)) => a == Answer::Walked(Walked::End),
            Step::Done(Err(e)) => a matches Answer::Walked(Walked::Failed(source)) && e
                == (Error::Walk { path: t.staging, source }),
        },
        q matches Step::Done(Err(Error::Walk { path, source })) && source == failed && path@
            == t.staging@ + entry.relative@,
{
}

/// What removing a tree gives back is what it weighs, less what is shared of it;
/// nothing where all of it is shared, and unknown where that is.
pub proof fn law_what_a_removal_gives_back(weight: Weight)
    ensures
        weight.frees() is Some == weight.shared is Some,
        (weight.shared matches Some(shared) && shared <= weight.total) ==> weight.frees()->0
            + weight.shared->0 == weight.total,
        (weight.shared matches Some(shared) && shared >= weight.total) ==> weight.frees()->0 == 0,
{
}

/// A weighing can go on while what it counts stays below the largest number there
/// is; and while it can go on, nothing that it has counted is lost.
pub proof fn law_a_weighing_has_room(t: Weighing, a: Answer, u: Weighing)
    requires
        t.next(a, Step::Ask(u)),
    ensures
        t.dirs < u64::MAX && t.files < u64::MAX && (a matches Answer::Measured(Ok(m)) ==> t.total
            + m.len <= u64::MAX) ==> t.room(a),
        t.room(a) ==> u.dirs >= t.dirs && u.files >= t.files && u.total >= t.total,
{
}

} // verus!
