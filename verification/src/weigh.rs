//! What a staged tree weighs.

use crate::error::Error;
use crate::path::FsPath;
use crate::protocol::{
    Answer, Ask, Asked, FileId, Kind, Measured, Platform, Request, Step, Walked,
};
use crate::prune::Weight;
use std::collections::HashMap;
use vstd::prelude::*;

verus! {

/// Adding up the files of a tree.
#[derive(Debug)]
pub struct Weighing {
    pub staging: FsPath,
    pub platform: Platform,
    pub files: u64,
    pub dirs: u64,
    pub total: u64,
    /// The files that were met, a file with several names once for each.
    pub measured: Vec<Measured>,
    pub stage: WeighStage,
}

/// How far the weighing has come.
#[derive(Debug)]
pub enum WeighStage {
    OpenWalk,
    NextEntry,
    Measure { relative: FsPath },
}

/// What becomes of the weighing when it is answered.
pub type WeighStep = Step<Weighing, Result<Weight, Error>>;

/// Starts adding up the files under `staging`.
pub fn weigh(staging: &FsPath, platform: Platform) -> (r: Weighing)
    ensures
        r.staging@ == staging@,
        r.platform == platform,
        r.is_blank(),
{
    Weighing {
        staging: staging.clone(),
        platform,
        files: 0,
        dirs: 0,
        total: 0,
        measured: Vec::new(),
        stage: WeighStage::OpenWalk,
    }
}

impl Weighing {
    /// Nothing has been weighed yet.
    pub open spec fn is_blank(self) -> bool {
        &&& self.files == 0
        &&& self.dirs == 0
        &&& self.total == 0
        &&& self.measured@.len() == 0
        &&& self.stage is OpenWalk
    }

    /// What is asked next.
    pub open spec fn asked(self) -> Asked {
        match self.stage {
            WeighStage::OpenWalk => Request::OpenWalk { root: self.staging@, min_depth: 1 },
            WeighStage::NextEntry => Request::NextEntry,
            WeighStage::Measure { .. } => Request::Measure,
        }
    }

    /// The totals are those of the files that were met.
    pub open spec fn wf(self) -> bool {
        self.files == self.measured@.len() && self.total == sizes(self.measured@)
    }

    /// What the answer counts fits its counter.
    pub open spec fn room(self, a: Answer) -> bool {
        match (self.stage, a) {
            (WeighStage::NextEntry, Answer::Walked(Walked::Entry(entry))) => entry.kind == Kind::Dir
                ==> self.dirs < u64::MAX,
            (WeighStage::Measure { .. }, Answer::Measured(Ok(measured))) => self.files < u64::MAX
                && self.total + measured.len <= u64::MAX,
            _ => true,
        }
    }

    /// The weight, all added up.
    pub open spec fn weight(self) -> Weight {
        Weight {
            files: self.files,
            dirs: self.dirs,
            total: self.total,
            shared: if self.platform == Platform::Unix {
                Some(elsewhere(self.measured@, self.measured@) as u64)
            } else {
                None
            },
        }
    }

    /// The weighing goes on with one more file.
    pub open spec fn counts(self, measured: Measured, o: WeighStep) -> bool {
        &&& o matches Step::Ask(t)
        &&& t == (Weighing {
            files: (self.files + 1) as u64,
            total: (self.total + measured.len) as u64,
            measured: t.measured,
            stage: WeighStage::NextEntry,
            ..self
        })
        &&& t.measured@ == self.measured@.push(measured)
    }

    /// What becomes of the weighing when it is answered.
    pub open spec fn next(self, a: Answer, o: WeighStep) -> bool {
        match (self.stage, a) {
            (WeighStage::OpenWalk, Answer::Done(_)) => o == WeighStep::Ask(
                Weighing { stage: WeighStage::NextEntry, ..self },
            ),
            (WeighStage::NextEntry, Answer::Walked(Walked::Entry(entry))) => o == WeighStep::Ask(
                match entry.kind {
                    Kind::Dir => Weighing { dirs: (self.dirs + 1) as u64, ..self },
                    Kind::Symlink => self,
                    _ => Weighing {
                        stage: WeighStage::Measure { relative: entry.relative },
                        ..self
                    },
                },
            ),
            (WeighStage::NextEntry, Answer::Walked(Walked::Failed(source))) => o == WeighStep::Done(
                Err(Error::Walk { path: self.staging, source }),
            ),
            (WeighStage::NextEntry, Answer::Walked(Walked::End)) => o == WeighStep::Done(
                Ok(self.weight()),
            ),
            (WeighStage::Measure { .. }, Answer::Measured(Ok(measured))) => self.counts(measured, o),
            (WeighStage::Measure { relative }, Answer::Measured(Err(source))) => {
                &&& o matches Step::Done(Err(Error::Walk { path, source: s }))
                &&& path@ == self.staging@ + relative@
                &&& s == source
            },
            _ => o == WeighStep::Ask(self),
        }
    }

    /// Whether what the answer counts fits its counter.
    pub fn has_room(&self, a: &Answer) -> (r: bool)
        ensures
            r == self.room(*a),
    {
        match (&self.stage, a) {
            (WeighStage::NextEntry, Answer::Walked(Walked::Entry(entry))) => entry.kind != Kind::Dir
                || self.dirs < u64::MAX,
            (WeighStage::Measure { .. }, Answer::Measured(Ok(measured))) => self.files < u64::MAX
                && measured.len <= u64::MAX - self.total,
            _ => true,
        }
    }

    /// What is to be done next.
    pub fn request(&self) -> (r: Ask)
        ensures
            r@ == self.asked(),
    {
        match &self.stage {
            WeighStage::OpenWalk => Request::OpenWalk { root: self.staging.clone(), min_depth: 1 },
            WeighStage::NextEntry => Request::NextEntry,
            WeighStage::Measure { .. } => Request::Measure,
        }
    }

    /// Takes in what came of it.
    pub fn step(self, a: Answer) -> (o: WeighStep)
        requires
            self.wf(),
            self.room(a),
        ensures
            self.next(a, o),
            o matches Step::Ask(t) ==> t.wf(),
    {
        let mut t = self;
        match (t.stage, a) {
            (WeighStage::OpenWalk, Answer::Done(_)) => {
                t.stage = WeighStage::NextEntry;
            },
            (WeighStage::NextEntry, Answer::Walked(Walked::Entry(entry))) => {
                t.stage = WeighStage::NextEntry;
                match entry.kind {
                    Kind::Dir => {
                        t.dirs = t.dirs + 1;
                    },
                    Kind::Symlink => {},
                    _ => {
                        t.stage = WeighStage::Measure { relative: entry.relative };
                    },
                }
            },
            (WeighStage::NextEntry, Answer::Walked(Walked::Failed(source))) => {
                return Step::Done(Err(Error::Walk { path: t.staging, source }));
            },
            (WeighStage::NextEntry, Answer::Walked(Walked::End)) => {
                let shared = if t.platform == Platform::Unix {
                    Some(shared_bytes(&t.measured))
                } else {
                    None
                };
                return Step::Done(
                    Ok(Weight { files: t.files, dirs: t.dirs, total: t.total, shared }),
                );
            },
            (WeighStage::Measure { .. }, Answer::Measured(Ok(measured))) => {
                t.stage = WeighStage::NextEntry;
                t.files = t.files + 1;
                t.total = t.total + measured.len;
                let ghost before = t.measured@;
                t.measured.push(measured);
                assert(t.measured@.drop_last() =~= before);
            },
            (WeighStage::Measure { relative }, Answer::Measured(Err(source))) => {
                return Step::Done(
                    Err(Error::Walk { path: t.staging.descend(&relative), source }),
                );
            },
            (same, _) => {
                t.stage = same;
            },
        }
        Step::Ask(t)
    }
}

/// How many of the files that were met are that one.
pub open spec fn names_met(measured: Seq<Measured>, id: FileId) -> nat
    decreases measured.len(),
{
    if measured.len() == 0 {
        0
    } else {
        names_met(measured.drop_last(), id) + if measured.last().id == id {
            1nat
        } else {
            0nat
        }
    }
}

/// Whether a file has more names than were met.
pub open spec fn is_elsewhere(measured: Seq<Measured>, file: Measured) -> bool {
    file.links > names_met(measured, file.id)
}

/// How large the files are together.
pub open spec fn sizes(measured: Seq<Measured>) -> nat
    decreases measured.len(),
{
    if measured.len() == 0 {
        0
    } else {
        sizes(measured.drop_last()) + measured.last().len as nat
    }
}

/// How large those of the files are together that have more names than were met
/// among all.
pub open spec fn elsewhere(part: Seq<Measured>, all: Seq<Measured>) -> nat
    decreases part.len(),
{
    if part.len() == 0 {
        0
    } else {
        elsewhere(part.drop_last(), all) + if is_elsewhere(all, part.last()) {
            part.last().len as nat
        } else {
            0nat
        }
    }
}

proof fn lemma_elsewhere_is_part(part: Seq<Measured>, all: Seq<Measured>)
    ensures
        elsewhere(part, all) <= sizes(part),
    decreases part.len(),
{
    if part.len() > 0 {
        lemma_elsewhere_is_part(part.drop_last(), all);
    }
}

proof fn lemma_sizes_grow(measured: Seq<Measured>, n: int)
    requires
        0 <= n <= measured.len(),
    ensures
        sizes(measured.take(n)) <= sizes(measured),
    decreases measured.len(),
{
    if n < measured.len() {
        lemma_sizes_grow(measured.drop_last(), n);
        assert(measured.drop_last().take(n) =~= measured.take(n));
    } else {
        assert(measured.take(n) =~= measured);
    }
}

/// What was met under each inode.
pub open spec fn under(tally: Map<u64, Vec<Measured>>, inode: u64) -> Seq<Measured> {
    if tally.contains_key(inode) {
        tally[inode]@
    } else {
        Seq::empty()
    }
}

/// Sorts the files that were met by inode.
fn tally_of(measured: &Vec<Measured>) -> (r: HashMap<u64, Vec<Measured>>)
    ensures
        forall|id: FileId| #[trigger]
            names_met(under(r@, id.inode), id) == names_met(measured@, id),
{
    broadcast use vstd::std_specs::hash::group_hash_axioms;

    let mut tally: HashMap<u64, Vec<Measured>> = HashMap::new();
    let mut i: usize = 0;
    assert(measured@.take(0) =~= Seq::empty());
    while i < measured.len()
        invariant
            i <= measured.len(),
            forall|id: FileId| #[trigger]
                names_met(under(tally@, id.inode), id) == names_met(measured@.take(i as int), id),
        decreases measured.len() - i,
    {
        let ghost before = tally@;
        let file = measured[i];
        let inode = file.id.inode;
        let mut met = match tally.remove(&inode) {
            Some(met) => met,
            None => Vec::new(),
        };
        let ghost was = met@;
        assert(was =~= under(before, inode));
        met.push(file);
        tally.insert(inode, met);
        assert(measured@.take(i + 1).drop_last() =~= measured@.take(i as int));
        assert(met@.drop_last() =~= was);
        assert forall|id: FileId| #[trigger]
            names_met(under(tally@, id.inode), id) == names_met(measured@.take(i + 1), id) by {
            assert(names_met(under(before, id.inode), id) == names_met(
                measured@.take(i as int),
                id,
            ));
            if id.inode == inode {
                assert(under(tally@, id.inode) == met@);
            } else {
                assert(under(tally@, id.inode) =~= under(before, id.inode));
            }
        }
        i = i + 1;
    }
    assert(measured@.take(measured@.len() as int) =~= measured@);
    tally
}

fn count_names(met: &Vec<Measured>, id: FileId) -> (r: u64)
    ensures
        r == names_met(met@, id),
{
    let mut count: u64 = 0;
    let mut i: usize = 0;
    assert(met@.take(0) =~= Seq::empty());
    while i < met.len()
        invariant
            i <= met.len(),
            count <= i,
            count == names_met(met@.take(i as int), id),
        decreases met.len() - i,
    {
        assert(met@.take(i + 1).drop_last() =~= met@.take(i as int));
        if met[i].id == id {
            count = count + 1;
        }
        i = i + 1;
    }
    assert(met@.take(met@.len() as int) =~= met@);
    count
}

/// How large the files are together that have more names than were met.
fn shared_bytes(measured: &Vec<Measured>) -> (r: u64)
    requires
        sizes(measured@) <= u64::MAX,
    ensures
        r == elsewhere(measured@, measured@),
{
    broadcast use vstd::std_specs::hash::group_hash_axioms;

    let tally = tally_of(measured);
    let mut shared: u64 = 0;
    let mut i: usize = 0;
    assert(measured@.take(0) =~= Seq::empty());
    while i < measured.len()
        invariant
            i <= measured.len(),
            sizes(measured@) <= u64::MAX,
            forall|id: FileId| #[trigger]
                names_met(under(tally@, id.inode), id) == names_met(measured@, id),
            shared == elsewhere(measured@.take(i as int), measured@),
        decreases measured.len() - i,
    {
        let file = measured[i];
        let inode = file.id.inode;
        let met: u64 = match tally.get(&inode) {
            Some(met) => count_names(met, file.id),
            None => 0,
        };
        assert(met == names_met(under(tally@, file.id.inode), file.id));
        proof {
            assert(measured@.take(i + 1).drop_last() =~= measured@.take(i as int));
            lemma_elsewhere_is_part(measured@.take(i + 1), measured@);
            lemma_sizes_grow(measured@, i + 1);
        }
        if file.links > met {
            shared = shared + file.len;
        }
        i = i + 1;
    }
    assert(measured@.take(measured@.len() as int) =~= measured@);
    shared
}

/// How many directories were handed out.
pub open spec fn dirs_told(told: Seq<Answer>) -> nat
    decreases told.len(),
{
    if told.len() == 0 {
        0
    } else {
        dirs_told(told.drop_last()) + match told.last() {
            Answer::Walked(Walked::Entry(entry)) => if entry.kind == Kind::Dir {
                1nat
            } else {
                0nat
            },
            _ => 0nat,
        }
    }
}

/// The files that were measured.
pub open spec fn measured_told(told: Seq<Answer>) -> Seq<Measured>
    decreases told.len(),
{
    if told.len() == 0 {
        Seq::empty()
    } else {
        match told.last() {
            Answer::Measured(Ok(measured)) => measured_told(told.drop_last()).push(measured),
            _ => measured_told(told.drop_last()),
        }
    }
}

impl Weighing {
    /// The weighing can be told that, and becomes `o`.
    pub open spec fn moves(self, a: Answer, o: WeighStep) -> bool {
        self.room(a) && self.asked().fits(a) && self.next(a, o)
    }

    /// The weighing has added up what it was told.
    pub open spec fn adds_up(self, told: Seq<Answer>) -> bool {
        &&& self.dirs == dirs_told(told)
        &&& self.measured@ == measured_told(told)
        &&& self.wf()
    }
}

/// What a weighing that starts as `s` has become once it is told all that.
pub open spec fn weighs(s: Weighing, told: Seq<Answer>, o: WeighStep) -> bool
    decreases told.len(),
{
    if told.len() == 0 {
        o == WeighStep::Ask(s)
    } else {
        exists|t: Weighing|
            weighs(s, told.drop_last(), Step::Ask(t)) && #[trigger] t.moves(told.last(), o)
    }
}

/// Every answer that can be counted leaves the weighing well-formed.
pub proof fn lemma_weigh_step(s: Weighing, a: Answer, o: WeighStep)
    requires
        s.wf(),
        s.room(a),
        s.next(a, o),
    ensures
        o matches Step::Ask(t) ==> t.wf(),
{
    if let Step::Ask(t) = o {
        if let Answer::Measured(Ok(measured)) = a {
            if s.stage is Measure {
                assert(t.measured@.drop_last() =~= s.measured@);
            }
        }
    }
}

proof fn lemma_weigh(s: Weighing, told: Seq<Answer>, o: WeighStep)
    requires
        s.is_blank(),
        weighs(s, told, o),
    ensures
        o matches Step::Ask(t) ==> t.adds_up(told) && t.platform == s.platform,
        o matches Step::Done(Ok(weight)) ==> exists|t: Weighing|
            t.adds_up(told) && t.platform == s.platform && weight == #[trigger] t.weight(),
    decreases told.len(),
{
    assert(told.len() == 0 ==> s.measured@ =~= Seq::empty());
    if told.len() > 0 {
        let t = choose|t: Weighing|
            weighs(s, told.drop_last(), Step::Ask(t)) && #[trigger] t.moves(told.last(), o);
        lemma_weigh(s, told.drop_last(), Step::Ask(t));
        lemma_weigh_step(t, told.last(), o);
        if let Step::Done(Ok(weight)) = o {
            assert(t.adds_up(told));
            assert(weight == t.weight());
        }
    }
}

/// A tree weighs what its files weigh, each name counted, and what is shared of
/// that is the weight of the files that have more names than the tree has for
/// them; the rest is what removing the tree can give back.
pub proof fn law_weighed_exactly(s: Weighing, told: Seq<Answer>, weight: Weight)
    requires
        s.is_blank(),
        weighs(s, told, WeighStep::Done(Ok(weight))),
    ensures
        weight.dirs == dirs_told(told),
        weight.files == measured_told(told).len(),
        weight.total == sizes(measured_told(told)),
        s.platform == Platform::Unix ==> (weight.shared matches Some(shared) && shared
            == elsewhere(measured_told(told), measured_told(told))),
        s.platform == Platform::Other ==> weight.shared is None,
        weight.shared matches Some(shared) ==> {
            &&& shared <= weight.total
            &&& weight.frees() matches Some(freed)
            &&& freed == weight.total - shared
        },
{
    lemma_weigh(s, told, Step::Done(Ok(weight)));
    lemma_elsewhere_is_part(measured_told(told), measured_told(told));
}

/// A file that has all its names in the tree is not shared, whatever else is.
pub proof fn law_a_file_of_this_tree_alone_is_not_shared(measured: Seq<Measured>)
    requires
        forall|i: int|
            0 <= i < measured.len() ==> (#[trigger] measured[i]).links <= names_met(
                measured,
                measured[i].id,
            ),
    ensures
        elsewhere(measured, measured) == 0,
{
    lemma_none_elsewhere(measured, measured, measured.len());
}

proof fn lemma_none_elsewhere(part: Seq<Measured>, all: Seq<Measured>, n: nat)
    requires
        n == part.len(),
        forall|i: int| 0 <= i < part.len() ==> !is_elsewhere(all, #[trigger] part[i]),
    ensures
        elsewhere(part, all) == 0,
    decreases n,
{
    if n > 0 {
        assert forall|i: int| 0 <= i < part.drop_last().len() implies !is_elsewhere(
            all,
            #[trigger] part.drop_last()[i],
        ) by {
            assert(part.drop_last()[i] == part[i]);
        }
        assert(part.last() == part[n - 1]);
        lemma_none_elsewhere(part.drop_last(), all, (n - 1) as nat);
    }
}

} // verus!
