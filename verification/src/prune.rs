//! Finding the staged trees that runs left behind, and removing them.
//!
//! Seeding builds under a staging name and renames into place, so a run that
//! dies leaves a tree that is inert, and that nothing afterwards knows about.
//! The tree is not small.

use crate::error::{is_io, Error, Failure};
use crate::path::{os, parent_parts, same_bytes, FsPath};
use crate::probe::{CLONE, SUBJECT};
use crate::protocol::{Answer, Ask, Asked, Listed, Platform, Request, Step};
use crate::search::{search, Found, SearchStep, Searching};
use crate::staging::{
    claim, is_read, read, Claim, ClaimStage, ClaimStep, Claiming, Held, Marker, MARKER,
};
use crate::weigh::{weigh, WeighStep, Weighing};
use vstd::prelude::*;

verus! {

/// What is to be pruned.
#[derive(Debug, Clone)]
pub struct Options {
    /// Where to look. Everything under it is searched.
    pub root: FsPath,
    /// Whether to remove what is found, rather than only report it.
    pub remove: bool,
}

impl Options {
    /// Looks under `root` and removes nothing.
    pub fn new(root: FsPath) -> (r: Options)
        ensures
            r == (Options { root, remove: false }),
    {
        Options { root, remove: false }
    }
}

#[derive(Debug, Clone, Copy, PartialEq, Eq, Structural)]
pub enum State {
    /// Nothing holds the marker's lock, so no run is writing here.
    Abandoned,
    /// A seeding is running. Left alone whatever was asked for.
    Building,
    /// This platform cannot say. Left alone, for the same reason.
    Undecidable,
    /// The tree arrived: this is the destination the marker names, so the
    /// rename has happened and what stands here is a target directory Cargo may
    /// well be using. Only the marker is left over, and only the marker goes.
    Landed,
}

/// What a staged tree weighs, and how much of that weight is its own.
#[derive(Debug, Clone, Copy, PartialEq, Eq)]
pub struct Weight {
    pub files: u64,
    pub dirs: u64,
    /// Every byte in the tree, which is what `du` reports.
    pub total: u64,
    /// The bytes in files another tree also has a name for. Removing this tree
    /// frees none of them.
    ///
    /// Nothing where the platform does not say. Counted by names rather than by
    /// blocks, so on a file system that clones blocks this reads zero and the
    /// figure left over is an upper bound rather than a measurement.
    pub shared: Option<u64>,
}

impl Weight {
    /// What removing the tree gives back.
    pub open spec fn frees(self) -> Option<u64> {
        match self.shared {
            Some(shared) => Some(
                if shared <= self.total {
                    (self.total - shared) as u64
                } else {
                    0
                },
            ),
            None => None,
        }
    }

    /// What removing the tree would actually give back, where that can be told.
    pub fn freeable(&self) -> (r: Option<u64>)
        ensures
            r == self.frees(),
    {
        match self.shared {
            Some(shared) => Some(self.total.saturating_sub(shared)),
            None => None,
        }
    }
}

impl Default for Weight {
    fn default() -> (r: Weight)
        ensures
            r == (Weight { files: 0, dirs: 0, total: 0, shared: None }),
    {
        Weight { files: 0, dirs: 0, total: 0, shared: None }
    }
}

/// A staged tree that was found.
#[derive(Debug, Clone)]
pub struct Tree {
    pub staging: FsPath,
    pub marker: Marker,
    pub state: State,
    pub weight: Weight,
    pub removed: bool,
}

/// A probe directory left where a seeding asked the file system whether it can
/// clone. Small; it is here because an untracked directory at the root of a
/// worktree is in the way of the gates people run there.
#[derive(Debug, Clone)]
pub struct Probe {
    pub path: FsPath,
    pub removed: bool,
}

/// What was found, and what became of it.
#[derive(Debug, Clone)]
pub struct Report {
    pub trees: Vec<Tree>,
    pub probes: Vec<Probe>,
}

impl Report {
    /// Whether there is nothing to report.
    pub fn is_empty(&self) -> (r: bool)
        ensures
            r == (self.trees@.len() == 0 && self.probes@.len() == 0),
    {
        self.trees.len() == 0 && self.probes.len() == 0
    }
}

impl Default for Report {
    fn default() -> (r: Report)
        ensures
            r.trees@.len() == 0,
            r.probes@.len() == 0,
    {
        Report { trees: Vec::new(), probes: Vec::new() }
    }
}

/// Weighing one staged tree, and removing it when it is abandoned and removal
/// was asked for.
#[derive(Debug)]
pub struct Examining {
    pub staging: FsPath,
    pub remove: bool,
    pub platform: Platform,
    pub stage: ExamineStage,
}

/// How far the examination has come.
#[derive(Debug)]
pub enum ExamineStage {
    ReadMarker,
    /// Whether the tree has landed, asked before anything is weighed, and long
    /// before anything is removed: a tree that has landed is a target directory,
    /// and removing it would be removing the very thing the seeding was for.
    WhereStaged { marker: Marker },
    WhereDest { marker: Marker, staged: Option<FsPath> },
    Weigh { marker: Marker, weighing: Weighing },
    /// Whether the tree is still there that could not be weighed. One that is
    /// not was renamed into place in the meantime.
    StillThere { error: Error },
    Claim { marker: Marker, landed: bool, weight: Weight, claiming: Claiming },
    /// The lock is held across the removal, so that a seeding cannot start in
    /// this tree while it is being taken apart.
    RemoveMarker { marker: Marker, weight: Weight, held: Held },
    RemoveTree { marker: Marker, weight: Weight, held: Held },
    Close { came: Result<Option<Tree>, Error> },
}

/// What becomes of the examination when it is answered. A tree may have stopped
/// being one while it was being looked at.
pub type ExamineStep = Step<Examining, Result<Option<Tree>, Error>>;

/// Starts the examination of the tree at `staging`.
pub fn examine(staging: &FsPath, remove: bool, platform: Platform) -> (r: Examining)
    ensures
        r.staging@ == staging@,
        r.remove == remove,
        r.platform == platform,
        r.stage is ReadMarker,
{
    Examining { staging: staging.clone(), remove, platform, stage: ExamineStage::ReadMarker }
}

/// Whether two paths lead to one directory, as the file system resolves them.
pub open spec fn is_same_place(one: Option<FsPath>, other: Option<FsPath>) -> bool {
    one matches Some(one) && other matches Some(other) && one@ == other@
}

/// Whether two paths name one directory, asked of the file system rather than of
/// their spelling: the tree is reached by whatever route the search took, and
/// the marker records the route the seeding was given.
fn is_same_directory(one: &Option<FsPath>, other: &Option<FsPath>) -> (r: bool)
    ensures
        r == is_same_place(*one, *other),
{
    match (one, other) {
        (Some(one), Some(other)) => one.same(other),
        _ => false,
    }
}

/// Whether there was no file to read.
pub open spec fn is_missing(contents: Result<Vec<u8>, Failure>) -> bool {
    contents matches Err(f) && f.missing
}

/// What was found, if anything was.
pub open spec fn found_in<T, E>(r: Result<T, E>) -> Option<T> {
    match r {
        Ok(found) => Some(found),
        Err(_) => None,
    }
}

impl Examining {
    /// The marker of the tree.
    pub open spec fn marker_path(self) -> Seq<Seq<u8>> {
        self.staging@.push(os(MARKER))
    }

    /// What is asked next.
    pub open spec fn asked(self) -> Asked {
        match self.stage {
            ExamineStage::ReadMarker => Request::ReadFile(self.marker_path()),
            ExamineStage::WhereStaged { .. } => Request::Canonicalize(self.staging@),
            ExamineStage::WhereDest { marker, .. } => Request::Canonicalize(marker.dest@),
            ExamineStage::Weigh { weighing, .. } => weighing.asked(),
            ExamineStage::StillThere { .. } => Request::IsFile(self.marker_path()),
            ExamineStage::Claim { claiming, .. } => claiming.asked(),
            ExamineStage::RemoveMarker { .. } => Request::RemoveFile(self.marker_path()),
            ExamineStage::RemoveTree { .. } => Request::RemoveDirAll(self.staging@),
            ExamineStage::Close { .. } => Request::CloseMarker,
        }
    }

    /// The examination at another stage.
    pub open spec fn at(self, stage: ExamineStage) -> ExamineStep {
        Step::Ask(Examining { stage, ..self })
    }

    /// The examination goes on, and all but the stage is as it was.
    pub open spec fn goes_on(self, o: ExamineStep) -> bool {
        o matches Step::Ask(t) && t == (Examining { stage: t.stage, ..self })
    }

    /// The tree is at `staging`, in that state.
    pub open spec fn is_tree(
        self,
        tree: Tree,
        marker: Marker,
        state: State,
        weight: Weight,
        removed: bool,
    ) -> bool {
        &&& tree == (Tree { staging: tree.staging, marker, state, weight, removed })
        &&& tree.staging@ == self.staging@
    }

    /// The examination ends with the tree in that state; nothing is held.
    pub open spec fn ends(
        self,
        marker: Marker,
        state: State,
        weight: Weight,
        o: ExamineStep,
    ) -> bool {
        o matches Step::Done(Ok(Some(tree))) && self.is_tree(tree, marker, state, weight, false)
    }

    /// The examination is about to end with the tree in that state, and lets go
    /// of its marker.
    pub open spec fn closes(
        self,
        marker: Marker,
        state: State,
        weight: Weight,
        removed: bool,
        o: ExamineStep,
    ) -> bool {
        &&& self.goes_on(o)
        &&& o matches Step::Ask(t)
        &&& t.stage matches ExamineStage::Close { came: Ok(Some(tree)) }
        &&& self.is_tree(tree, marker, state, weight, removed)
    }

    /// The examination begins to ask whether the run that made the tree is still
    /// going.
    pub open spec fn starts_claiming(
        self,
        marker: Marker,
        landed: bool,
        weight: Weight,
        o: ExamineStep,
    ) -> bool {
        &&& self.goes_on(o)
        &&& o matches Step::Ask(t)
        &&& t.stage matches ExamineStage::Claim { marker: m, landed: l, weight: w, claiming }
        &&& m == marker
        &&& l == landed
        &&& w == weight
        &&& claiming.path@ == self.marker_path()
        &&& claiming.stage == (if self.platform == Platform::Unix {
            ClaimStage::Open
        } else {
            ClaimStage::IsThere
        })
    }

    /// What becomes of the examination when the marker is read as `r`.
    pub open spec fn has_read(self, r: Result<Marker, Error>, o: ExamineStep) -> bool {
        match r {
            Ok(marker) => o == self.at(ExamineStage::WhereStaged { marker }),
            Err(e) => o == ExamineStep::Done(Err(e)),
        }
    }

    /// What becomes of the examination when the weighing comes to `p`.
    pub open spec fn weighed(self, marker: Marker, p: WeighStep, o: ExamineStep) -> bool {
        match p {
            Step::Ask(weighing) => o == self.at(ExamineStage::Weigh { marker, weighing }),
            Step::Done(Err(error)) => o == self.at(ExamineStage::StillThere { error }),
            Step::Done(Ok(weight)) => self.starts_claiming(marker, false, weight, o),
        }
    }

    /// What becomes of the examination when the asking comes to `p`.
    pub open spec fn claimed(
        self,
        marker: Marker,
        landed: bool,
        weight: Weight,
        p: ClaimStep,
        o: ExamineStep,
    ) -> bool {
        match p {
            Step::Ask(claiming) => o == self.at(
                ExamineStage::Claim { marker, landed, weight, claiming },
            ),
            Step::Done(Err(e)) => o == ExamineStep::Done(Err(e)),
            Step::Done(Ok(Claim::Building)) => self.ends(marker, State::Building, weight, o),
            Step::Done(Ok(Claim::Undecidable)) => self.ends(marker, State::Undecidable, weight, o),
            Step::Done(Ok(Claim::Finished)) => o == ExamineStep::Done(Ok(None)),
            Step::Done(Ok(Claim::Abandoned(held))) => match (landed, self.remove) {
                (true, true) => o == self.at(ExamineStage::RemoveMarker { marker, weight, held }),
                (true, false) => self.closes(marker, State::Landed, weight, false, o),
                (false, true) => o == self.at(ExamineStage::RemoveTree { marker, weight, held }),
                (false, false) => self.closes(marker, State::Abandoned, weight, false, o),
            },
        }
    }

    /// What becomes of the examination when it is answered.
    pub open spec fn next(self, a: Answer, o: ExamineStep) -> bool {
        match (self.stage, a) {
            (ExamineStage::ReadMarker, Answer::Contents(contents)) => if is_missing(contents) {
                o == ExamineStep::Done(Ok(None))
            } else {
                exists|r| is_read(self.marker_path(), contents, r) && #[trigger] self.has_read(r, o)
            },
            (ExamineStage::WhereStaged { marker }, Answer::Canonical(staged)) => o == self.at(
                ExamineStage::WhereDest { marker, staged: found_in(staged) },
            ),
            (ExamineStage::WhereDest { marker, staged }, Answer::Canonical(dest)) => {
                if is_same_place(staged, found_in(dest)) {
                    self.starts_claiming(
                        marker,
                        true,
                        Weight { files: 0, dirs: 0, total: 0, shared: None },
                        o,
                    )
                } else {
                    &&& self.goes_on(o)
                    &&& o matches Step::Ask(t)
                    &&& t.stage matches ExamineStage::Weigh { marker: m, weighing }
                    &&& m == marker
                    &&& weighing.staging@ == self.staging@
                    &&& weighing.platform == self.platform
                    &&& weighing.is_blank()
                }
            },
            (ExamineStage::Weigh { marker, weighing }, _) => exists|p|
                #[trigger] weighing.next(a, p) && self.weighed(marker, p, o),
            (ExamineStage::StillThere { error }, Answer::Flag(there)) => o == ExamineStep::Done(
                if there {
                    Err(error)
                } else {
                    Ok(None)
                },
            ),
            (ExamineStage::Claim { marker, landed, weight, claiming }, _) => exists|p|
                #[trigger] claiming.next(a, p) && self.claimed(marker, landed, weight, p, o),
            (ExamineStage::RemoveMarker { marker, weight, .. }, Answer::Done(came)) => self.closes(
                marker,
                State::Landed,
                weight,
                came is Ok,
                o,
            ),
            (ExamineStage::RemoveTree { marker, weight, .. }, Answer::Done(Ok(_))) => self.closes(
                marker,
                State::Abandoned,
                weight,
                true,
                o,
            ),
            (ExamineStage::RemoveTree { .. }, Answer::Done(Err(f))) => {
                &&& self.goes_on(o)
                &&& o matches Step::Ask(t)
                &&& t.stage matches ExamineStage::Close { came: Err(e) }
                &&& is_io(e, "removing", self.staging@, f)
            },
            (ExamineStage::Close { came }, Answer::Done(_)) => o == ExamineStep::Done(came),
            _ => o == ExamineStep::Ask(self),
        }
    }

    /// What holds at every stage.
    pub open spec fn wf(self) -> bool {
        match self.stage {
            ExamineStage::Weigh { weighing, .. } => weighing.wf(),
            ExamineStage::Claim { claiming, .. } => claiming.path@ == self.marker_path()
                && claiming.wf(),
            ExamineStage::RemoveMarker { .. } => self.remove,
            ExamineStage::RemoveTree { .. } => self.remove,
            ExamineStage::Close { came: Ok(Some(tree)) } => {
                &&& tree.staging@ == self.staging@
                &&& tree.removed ==> self.remove && (tree.state == State::Abandoned || tree.state
                    == State::Landed)
            },
            _ => true,
        }
    }

    /// What the answer counts fits its counter.
    pub open spec fn room(self, a: Answer) -> bool {
        self.stage matches ExamineStage::Weigh { weighing, .. } ==> weighing.room(a)
    }

    /// Whether what the answer counts fits its counter.
    pub fn has_room(&self, a: &Answer) -> (r: bool)
        ensures
            r == self.room(*a),
    {
        match &self.stage {
            ExamineStage::Weigh { weighing, .. } => weighing.has_room(a),
            _ => true,
        }
    }

    /// What is to be done next.
    pub fn request(&self) -> (r: Ask)
        ensures
            r@ == self.asked(),
    {
        match &self.stage {
            ExamineStage::ReadMarker => Request::ReadFile(self.staging.join(MARKER)),
            ExamineStage::WhereStaged { .. } => Request::Canonicalize(self.staging.clone()),
            ExamineStage::WhereDest { marker, .. } => Request::Canonicalize(marker.dest.clone()),
            ExamineStage::Weigh { weighing, .. } => weighing.request(),
            ExamineStage::StillThere { .. } => Request::IsFile(self.staging.join(MARKER)),
            ExamineStage::Claim { claiming, .. } => claiming.request(),
            ExamineStage::RemoveMarker { .. } => Request::RemoveFile(self.staging.join(MARKER)),
            ExamineStage::RemoveTree { .. } => Request::RemoveDirAll(self.staging.clone()),
            ExamineStage::Close { .. } => Request::CloseMarker,
        }
    }

    /// Takes in what came of it.
    pub fn step(self, a: Answer) -> (o: ExamineStep)
        requires
            self.wf(),
            self.room(a),
        ensures
            self.next(a, o),
            o matches Step::Ask(t) ==> t.wf(),
    {
        let Examining { staging, remove, platform, stage } = self;
        let stage = match (stage, a) {
            (ExamineStage::ReadMarker, Answer::Contents(contents)) => {
                if let Err(f) = &contents {
                    if f.missing {
                        return Step::Done(Ok(None));
                    }
                }
                let r = read(&staging.join(MARKER), contents);
                let ghost came = r;
                match r {
                    Ok(marker) => {
                        let stage = ExamineStage::WhereStaged { marker };
                        assert(self.has_read(came, self.at(stage)));
                        stage
                    },
                    Err(e) => {
                        assert(self.has_read(came, ExamineStep::Done(Err(e))));
                        return Step::Done(Err(e));
                    },
                }
            },
            (ExamineStage::WhereStaged { marker }, Answer::Canonical(staged)) => {
                ExamineStage::WhereDest { marker, staged: staged.ok() }
            },
            (ExamineStage::WhereDest { marker, staged }, Answer::Canonical(dest)) => {
                if is_same_directory(&staged, &dest.ok()) {
                    let weight = Weight::default();
                    let claiming = claim(&staging.join(MARKER), platform);
                    ExamineStage::Claim { marker, landed: true, weight, claiming }
                } else {
                    ExamineStage::Weigh { marker, weighing: weigh(&staging, platform) }
                }
            },
            (ExamineStage::Weigh { marker, weighing }, a) => match weighing.step(a) {
                Step::Ask(weighing) => ExamineStage::Weigh { marker, weighing },
                Step::Done(Err(error)) => ExamineStage::StillThere { error },
                Step::Done(Ok(weight)) => {
                    let claiming = claim(&staging.join(MARKER), platform);
                    ExamineStage::Claim { marker, landed: false, weight, claiming }
                },
            },
            (ExamineStage::StillThere { error }, Answer::Flag(there)) => {
                return Step::Done(
                    if there {
                        Err(error)
                    } else {
                        Ok(None)
                    },
                );
            },
            (ExamineStage::Claim { marker, landed, weight, claiming }, a) => {
                match claiming.step(a) {
                    Step::Ask(claiming) => ExamineStage::Claim { marker, landed, weight, claiming },
                    Step::Done(Err(e)) => {
                        return Step::Done(Err(e));
                    },
                    Step::Done(Ok(claim)) => match claim {
                        Claim::Building => {
                            let state = State::Building;
                            let tree = Tree { staging, marker, state, weight, removed: false };
                            return Step::Done(Ok(Some(tree)));
                        },
                        Claim::Undecidable => {
                            let state = State::Undecidable;
                            let tree = Tree { staging, marker, state, weight, removed: false };
                            return Step::Done(Ok(Some(tree)));
                        },
                        Claim::Finished => {
                            return Step::Done(Ok(None));
                        },
                        Claim::Abandoned(held) => {
                            if landed {
                                if remove {
                                    ExamineStage::RemoveMarker { marker, weight, held }
                                } else {
                                    close(&staging, marker, State::Landed, weight, false)
                                }
                            } else {
                                if remove {
                                    ExamineStage::RemoveTree { marker, weight, held }
                                } else {
                                    close(&staging, marker, State::Abandoned, weight, false)
                                }
                            }
                        },
                    },
                }
            },
            (ExamineStage::RemoveMarker { marker, weight, .. }, Answer::Done(came)) => close(
                &staging,
                marker,
                State::Landed,
                weight,
                came.is_ok(),
            ),
            (ExamineStage::RemoveTree { marker, weight, .. }, Answer::Done(Ok(_))) => close(
                &staging,
                marker,
                State::Abandoned,
                weight,
                true,
            ),
            (ExamineStage::RemoveTree { .. }, Answer::Done(Err(f))) => ExamineStage::Close {
                came: Err(Error::io("removing", staging.clone(), f)),
            },
            (ExamineStage::Close { came }, Answer::Done(_)) => {
                return Step::Done(came);
            },
            (same, _) => same,
        };
        Step::Ask(Examining { staging, remove, platform, stage })
    }
}

fn close(
    staging: &FsPath,
    marker: Marker,
    state: State,
    weight: Weight,
    removed: bool,
) -> (r: ExamineStage)
    ensures
        r matches ExamineStage::Close { came: Ok(Some(tree)) } && tree == (Tree {
            staging: tree.staging,
            marker,
            state,
            weight,
            removed,
        }) && tree.staging@ == staging@,
{
    ExamineStage::Close {
        came: Ok(Some(Tree { staging: staging.clone(), marker, state, weight, removed })),
    }
}

/// Whether a seeding may be going on beside what is at `path`.
pub open spec fn is_busy_beside(trees: Seq<Tree>, path: Seq<Seq<u8>>) -> bool {
    exists|i: int| 0 <= i < trees.len() && is_busy_neighbour(#[trigger] trees[i], path)
}

/// Whether a tree that may be being built is in the directory that `path` is in.
pub open spec fn is_busy_neighbour(tree: Tree, path: Seq<Seq<u8>>) -> bool {
    &&& tree.state == State::Building || tree.state == State::Undecidable
    &&& parent_parts(tree.staging@) == parent_parts(path)
}

fn same_parent(one: &FsPath, other: &FsPath) -> (r: bool)
    ensures
        r == (parent_parts(one@) == parent_parts(other@)),
{
    match (one.parent(), other.parent()) {
        (Some(one), Some(other)) => one.same(&other),
        (None, None) => true,
        _ => false,
    }
}

fn busy_neighbour(trees: &Vec<Tree>, path: &FsPath) -> (r: bool)
    ensures
        r == is_busy_beside(trees@, path@),
{
    let mut i: usize = 0;
    while i < trees.len()
        invariant
            i <= trees.len(),
            forall|j: int| 0 <= j < i ==> !is_busy_neighbour(#[trigger] trees@[j], path@),
        decreases trees.len() - i,
    {
        let tree = &trees[i];
        if (tree.state == State::Building || tree.state == State::Undecidable) && same_parent(
            &tree.staging,
            path,
        ) {
            assert(is_busy_neighbour(trees@[i as int], path@));
            return true;
        }
        i = i + 1;
    }
    false
}

/// Whether a file is one that a probe leaves.
pub open spec fn is_probe_file(listed: Listed) -> bool {
    (listed.name@ == os(SUBJECT) || listed.name@ == os(CLONE)) && listed.is_file
}

/// Whether a directory was found to hold nothing but the two files a probe
/// writes.
///
/// Checked rather than assumed from the name: the directory is the caller's
/// file system, and a name is not a licence to delete whatever is under it.
pub fn holds_only_probe_files(listing: &Vec<Listed>) -> (r: bool)
    ensures
        r == forall|i: int| 0 <= i < listing@.len() ==> is_probe_file(#[trigger] listing@[i]),
{
    let mut i: usize = 0;
    while i < listing.len()
        invariant
            i <= listing.len(),
            forall|j: int| 0 <= j < i ==> is_probe_file(#[trigger] listing@[j]),
        decreases listing.len() - i,
    {
        let name = listing[i].name.as_slice();
        let named = same_bytes(name, SUBJECT.as_bytes()) || same_bytes(name, CLONE.as_bytes());
        if !named || !listing[i].is_file {
            assert(!is_probe_file(listing@[i as int]));
            return false;
        }
        i = i + 1;
    }
    true
}

/// Removing a probe directory, when what it holds is what a probe leaves.
///
/// A probe is written and cleared within one call, so one still here belongs to
/// a run that is gone, unless a run is going on in the same place at this
/// moment, in which case its probe is the one thing here that is in use.
#[derive(Debug)]
pub struct Clearing {
    pub path: FsPath,
    pub stage: ClearStage,
}

/// How far the removal has come.
#[derive(Debug)]
pub enum ClearStage {
    List,
    Remove,
}

/// What becomes of the removal when it is answered.
pub type ClearStep = Step<Clearing, Probe>;

/// Starts removing the probe directory at `path`, where removal was asked for
/// and nothing may be seeding beside it.
pub fn clear(path: &FsPath, remove: bool, trees: &Vec<Tree>) -> (o: ClearStep)
    ensures
        if remove && !is_busy_beside(trees@, path@) {
            o matches Step::Ask(t) && t.path@ == path@ && t.stage is List
        } else {
            o matches Step::Done(probe) && probe.path@ == path@ && !probe.removed
        },
{
    if remove && !busy_neighbour(trees, path) {
        Step::Ask(Clearing { path: path.clone(), stage: ClearStage::List })
    } else {
        Step::Done(Probe { path: path.clone(), removed: false })
    }
}

impl Clearing {
    /// What is asked next.
    pub open spec fn asked(self) -> Asked {
        match self.stage {
            ClearStage::List => Request::List(self.path@),
            ClearStage::Remove => Request::RemoveDirAll(self.path@),
        }
    }

    /// The removal came to its end.
    pub open spec fn ends(self, removed: bool) -> ClearStep {
        Step::Done(Probe { path: self.path, removed })
    }

    /// What becomes of the removal when it is answered.
    pub open spec fn next(self, a: Answer, o: ClearStep) -> bool {
        match (self.stage, a) {
            (ClearStage::List, Answer::Listing(Ok(listing))) => if forall|i: int|
                0 <= i < listing@.len() ==> is_probe_file(#[trigger] listing@[i]) {
                o == ClearStep::Ask(Clearing { stage: ClearStage::Remove, ..self })
            } else {
                o == self.ends(false)
            },
            (ClearStage::List, Answer::Listing(Err(_))) => o == self.ends(false),
            (ClearStage::Remove, Answer::Done(came)) => o == self.ends(came is Ok),
            _ => o == ClearStep::Ask(self),
        }
    }

    /// What is to be done next.
    pub fn request(&self) -> (r: Ask)
        ensures
            r@ == self.asked(),
    {
        match self.stage {
            ClearStage::List => Request::List(self.path.clone()),
            ClearStage::Remove => Request::RemoveDirAll(self.path.clone()),
        }
    }

    /// Takes in what came of it.
    pub fn step(self, a: Answer) -> (o: ClearStep)
        ensures
            self.next(a, o),
    {
        match (self.stage, a) {
            (ClearStage::List, Answer::Listing(Ok(listing))) => {
                if holds_only_probe_files(&listing) {
                    Step::Ask(Clearing { path: self.path, stage: ClearStage::Remove })
                } else {
                    Step::Done(Probe { path: self.path, removed: false })
                }
            },
            (ClearStage::List, Answer::Listing(Err(_))) => Step::Done(
                Probe { path: self.path, removed: false },
            ),
            (ClearStage::Remove, Answer::Done(came)) => Step::Done(
                Probe { path: self.path, removed: came.is_ok() },
            ),
            (same, _) => Step::Ask(Clearing { path: self.path, stage: same }),
        }
    }
}

/// Searching for staged trees, and removing the abandoned ones when asked.
#[derive(Debug)]
pub struct Pruning {
    pub opts: Options,
    pub platform: Platform,
    pub phase: PrunePhase,
}

/// What a pruning is doing.
///
/// Everything is found before anything is acted on. Whether a probe directory
/// is safe to remove depends on whether a seeding is running beside it, and that
/// is not known until the whole search is done.
#[derive(Debug)]
pub enum PrunePhase {
    Root,
    Search { searching: Searching },
    Examine {
        todo: Vec<FsPath>,
        at: usize,
        probes: Vec<FsPath>,
        trees: Vec<Tree>,
        examining: Examining,
    },
    Clear {
        trees: Vec<Tree>,
        probes: Vec<FsPath>,
        at: usize,
        cleared: Vec<Probe>,
        clearing: Clearing,
    },
}

/// What becomes of the pruning when it is answered.
pub type PruneStep = Step<Pruning, Result<Report, Error>>;

/// Starts searching for staged trees under the root.
pub fn prune(opts: Options, platform: Platform) -> (r: Pruning)
    ensures
        r == (Pruning { opts, platform, phase: PrunePhase::Root }),
        r.wf(),
{
    Pruning { opts, platform, phase: PrunePhase::Root }
}

/// Only what was abandoned or has landed was removed, and only if that was asked
/// for.
pub open spec fn are_rightly_removed(trees: Seq<Tree>, remove: bool) -> bool {
    forall|i: int|
        0 <= i < trees.len() && (#[trigger] trees[i]).removed ==> remove && (trees[i].state
            == State::Abandoned || trees[i].state == State::Landed)
}

/// What became of probes: where each is, and whether it was removed.
pub open spec fn outcomes(probes: Seq<Probe>) -> Seq<(Seq<Seq<u8>>, bool)> {
    Seq::new(probes.len(), |i: int| (probes[i].path@, probes[i].removed))
}

/// The pruning goes on to the probe of index `at`; those that are left alone
/// are passed by, and the pruning ends where there is no other.
pub open spec fn to_probe(
    opts: Options,
    platform: Platform,
    trees: Seq<Tree>,
    probes: Seq<FsPath>,
    at: nat,
    cleared: Seq<(Seq<Seq<u8>>, bool)>,
    o: PruneStep,
) -> bool
    decreases probes.len() - at,
{
    if at >= probes.len() {
        &&& o matches Step::Done(Ok(report))
        &&& report.trees@ == trees
        &&& outcomes(report.probes@) == cleared
    } else if !opts.remove || is_busy_beside(trees, probes[at as int]@) {
        to_probe(
            opts,
            platform,
            trees,
            probes,
            at + 1,
            cleared.push((probes[at as int]@, false)),
            o,
        )
    } else {
        &&& o matches Step::Ask(t)
        &&& t.opts == opts
        &&& t.platform == platform
        &&& t.phase matches PrunePhase::Clear { trees: s, probes: p, at: i, cleared: c, clearing }
        &&& s@ == trees
        &&& p@ == probes
        &&& i == at
        &&& outcomes(c@) == cleared
        &&& clearing.path@ == probes[at as int]@
        &&& clearing.stage is List
    }
}

/// The pruning goes on to the tree of index `at`; to the probes where there
/// is none.
pub open spec fn to_tree(
    opts: Options,
    platform: Platform,
    todo: Seq<FsPath>,
    at: nat,
    probes: Seq<FsPath>,
    trees: Seq<Tree>,
    o: PruneStep,
) -> bool {
    if at >= todo.len() {
        to_probe(opts, platform, trees, probes, 0, Seq::empty(), o)
    } else {
        &&& o matches Step::Ask(t)
        &&& t.opts == opts
        &&& t.platform == platform
        &&& t.phase matches PrunePhase::Examine {
            todo: d,
            at: i,
            probes: p,
            trees: s,
            examining,
        }
        &&& d@ == todo
        &&& i == at
        &&& p@ == probes
        &&& s@ == trees
        &&& examining.staging@ == todo[at as int]@
        &&& examining.remove == opts.remove
        &&& examining.platform == platform
        &&& examining.stage is ReadMarker
    }
}

impl Pruning {
    /// What is asked next.
    pub open spec fn asked(self) -> Asked {
        match self.phase {
            PrunePhase::Root => Request::IsDir(self.opts.root@),
            PrunePhase::Search { searching } => searching.asked(),
            PrunePhase::Examine { examining, .. } => examining.asked(),
            PrunePhase::Clear { clearing, .. } => clearing.asked(),
        }
    }

    /// What holds in every phase.
    pub open spec fn wf(self) -> bool {
        match self.phase {
            PrunePhase::Examine { todo, at, trees, examining, .. } => {
                &&& are_rightly_removed(trees@, self.opts.remove)
                &&& at < todo.len()
                &&& examining.wf()
                &&& examining.remove == self.opts.remove
                &&& examining.platform == self.platform
                &&& examining.staging@ == todo@[at as int]@
            },
            PrunePhase::Clear { trees, probes, at, clearing, .. } => {
                &&& are_rightly_removed(trees@, self.opts.remove)
                &&& at < probes.len()
                &&& clearing.path@ == probes@[at as int]@
                &&& self.opts.remove
                &&& !is_busy_beside(trees@, clearing.path@)
            },
            _ => true,
        }
    }

    /// What the answer counts fits its counter.
    pub open spec fn room(self, a: Answer) -> bool {
        self.phase matches PrunePhase::Examine { examining, .. } ==> examining.room(a)
    }

    /// What becomes of the pruning when the search comes to `p`.
    pub open spec fn searched(self, p: SearchStep, o: PruneStep) -> bool {
        match p {
            Step::Ask(searching) => o == PruneStep::Ask(
                Pruning { phase: PrunePhase::Search { searching }, ..self },
            ),
            Step::Done(Err(e)) => o == PruneStep::Done(Err(e)),
            Step::Done(Ok(found)) => to_tree(
                self.opts,
                self.platform,
                found.staged@,
                0,
                found.probes@,
                Seq::empty(),
                o,
            ),
        }
    }

    /// What becomes of the pruning when the examination comes to `p`.
    pub open spec fn examined(
        self,
        todo: Vec<FsPath>,
        at: usize,
        probes: Vec<FsPath>,
        trees: Vec<Tree>,
        p: ExamineStep,
        o: PruneStep,
    ) -> bool {
        match p {
            Step::Ask(examining) => o == PruneStep::Ask(
                Pruning {
                    phase: PrunePhase::Examine { todo, at, probes, trees, examining },
                    ..self
                },
            ),
            Step::Done(Err(e)) => o == PruneStep::Done(Err(e)),
            Step::Done(Ok(tree)) => to_tree(
                self.opts,
                self.platform,
                todo@,
                at as nat + 1,
                probes@,
                match tree {
                    Some(tree) => trees@.push(tree),
                    None => trees@,
                },
                o,
            ),
        }
    }

    /// What becomes of the pruning when the removal of a probe comes to `p`.
    pub open spec fn cleared(
        self,
        trees: Vec<Tree>,
        probes: Vec<FsPath>,
        at: usize,
        cleared: Vec<Probe>,
        p: ClearStep,
        o: PruneStep,
    ) -> bool {
        match p {
            Step::Ask(clearing) => o == PruneStep::Ask(
                Pruning {
                    phase: PrunePhase::Clear { trees, probes, at, cleared, clearing },
                    ..self
                },
            ),
            Step::Done(probe) => to_probe(
                self.opts,
                self.platform,
                trees@,
                probes@,
                at as nat + 1,
                outcomes(cleared@).push((probe.path@, probe.removed)),
                o,
            ),
        }
    }

    /// What becomes of the pruning when it is answered.
    pub open spec fn next(self, a: Answer, o: PruneStep) -> bool {
        match (self.phase, a) {
            (PrunePhase::Root, Answer::Flag(there)) => if there {
                &&& o matches Step::Ask(t)
                &&& t == (Pruning { phase: t.phase, ..self })
                &&& t.phase matches PrunePhase::Search { searching }
                &&& searching.root@ == self.opts.root@
                &&& searching.found.staged@.len() == 0
                &&& searching.found.probes@.len() == 0
                &&& searching.stage is OpenWalk
            } else {
                o == PruneStep::Done(Err(Error::PruneRootMissing(self.opts.root)))
            },
            (PrunePhase::Search { searching }, _) => exists|p|
                #[trigger] searching.next(a, p) && self.searched(p, o),
            (PrunePhase::Examine { todo, at, probes, trees, examining }, _) => exists|p|
                #[trigger] examining.next(a, p) && self.examined(todo, at, probes, trees, p, o),
            (PrunePhase::Clear { trees, probes, at, cleared, clearing }, _) => exists|p|
                #[trigger] clearing.next(a, p) && self.cleared(trees, probes, at, cleared, p, o),
            _ => o == PruneStep::Ask(self),
        }
    }

    /// Whether what the answer counts fits its counter.
    pub fn has_room(&self, a: &Answer) -> (r: bool)
        ensures
            r == self.room(*a),
    {
        match &self.phase {
            PrunePhase::Examine { examining, .. } => examining.has_room(a),
            _ => true,
        }
    }

    /// What is to be done next.
    pub fn request(&self) -> (r: Ask)
        ensures
            r@ == self.asked(),
            self.phase is Root ==> (r matches Request::IsDir(p) && p.spelling()
                == self.opts.root.spelling()),
    {
        match &self.phase {
            PrunePhase::Root => Request::IsDir(self.opts.root.clone()),
            PrunePhase::Search { searching } => searching.request(),
            PrunePhase::Examine { examining, .. } => examining.request(),
            PrunePhase::Clear { clearing, .. } => clearing.request(),
        }
    }

    fn clear_from(
        opts: Options,
        platform: Platform,
        trees: Vec<Tree>,
        probes: Vec<FsPath>,
        from: usize,
        given: Vec<Probe>,
    ) -> (o: PruneStep)
        requires
            are_rightly_removed(trees@, opts.remove),
        ensures
            to_probe(opts, platform, trees@, probes@, from as nat, outcomes(given@), o),
            o matches Step::Ask(t) ==> t.wf(),
    {
        let mut at: usize = from;
        let ghost start = outcomes(given@);
        let mut cleared = given;
        while at < probes.len()
            invariant
                are_rightly_removed(trees@, opts.remove),
                start == outcomes(given@),
                forall|o: PruneStep|
                    to_probe(opts, platform, trees@, probes@, at as nat, outcomes(cleared@), o)
                        ==> #[trigger] to_probe(opts, platform, trees@, probes@, from as nat, start, o),
            decreases probes.len() - at,
        {
            match clear(&probes[at], opts.remove, &trees) {
                Step::Ask(clearing) => {
                    return Step::Ask(
                        Pruning {
                            opts,
                            platform,
                            phase: PrunePhase::Clear { trees, probes, at, cleared, clearing },
                        },
                    );
                },
                Step::Done(probe) => {
                    let ghost before = cleared@;
                    cleared.push(probe);
                    assert(outcomes(cleared@) =~= outcomes(before).push((probe.path@, false)));
                },
            }
            at = at + 1;
        }
        Step::Done(Ok(Report { trees, probes: cleared }))
    }

    fn examine_from(
        opts: Options,
        platform: Platform,
        todo: Vec<FsPath>,
        at: usize,
        probes: Vec<FsPath>,
        trees: Vec<Tree>,
    ) -> (o: PruneStep)
        requires
            are_rightly_removed(trees@, opts.remove),
        ensures
            to_tree(opts, platform, todo@, at as nat, probes@, trees@, o),
            o matches Step::Ask(t) ==> t.wf(),
    {
        if at < todo.len() {
            let examining = examine(&todo[at], opts.remove, platform);
            Step::Ask(
                Pruning {
                    opts,
                    platform,
                    phase: PrunePhase::Examine { todo, at, probes, trees, examining },
                },
            )
        } else {
            let cleared: Vec<Probe> = Vec::new();
            assert(outcomes(cleared@) =~= Seq::empty());
            Pruning::clear_from(opts, platform, trees, probes, 0, cleared)
        }
    }

    /// Takes in what came of it.
    pub fn step(self, a: Answer) -> (o: PruneStep)
        requires
            self.wf(),
            self.room(a),
        ensures
            self.next(a, o),
            o matches Step::Ask(t) ==> t.wf(),
    {
        let Pruning { opts, platform, phase } = self;
        match (phase, a) {
            (PrunePhase::Root, Answer::Flag(there)) => {
                if there {
                    let searching = search(&opts.root);
                    Step::Ask(Pruning { opts, platform, phase: PrunePhase::Search { searching } })
                } else {
                    Step::Done(Err(Error::PruneRootMissing(opts.root)))
                }
            },
            (PrunePhase::Search { searching }, a) => match searching.step(a) {
                Step::Ask(searching) => Step::Ask(
                    Pruning { opts, platform, phase: PrunePhase::Search { searching } },
                ),
                Step::Done(Err(e)) => Step::Done(Err(e)),
                Step::Done(Ok(found)) => {
                    let Found { staged, probes } = found;
                    Pruning::examine_from(opts, platform, staged, 0, probes, Vec::new())
                },
            },
            (PrunePhase::Examine { todo, at, probes, trees, examining }, a) => match examining.step(
                a,
            ) {
                Step::Ask(examining) => Step::Ask(
                    Pruning {
                        opts,
                        platform,
                        phase: PrunePhase::Examine { todo, at, probes, trees, examining },
                    },
                ),
                Step::Done(Err(e)) => Step::Done(Err(e)),
                Step::Done(Ok(tree)) => {
                    let mut trees = trees;
                    if let Some(tree) = tree {
                        trees.push(tree);
                    }
                    Pruning::examine_from(opts, platform, todo, at + 1, probes, trees)
                },
            },
            (PrunePhase::Clear { trees, probes, at, cleared, clearing }, a) => match clearing.step(
                a,
            ) {
                Step::Ask(clearing) => Step::Ask(
                    Pruning {
                        opts,
                        platform,
                        phase: PrunePhase::Clear { trees, probes, at, cleared, clearing },
                    },
                ),
                Step::Done(probe) => {
                    let mut cleared = cleared;
                    let ghost before = cleared@;
                    cleared.push(probe);
                    assert(outcomes(cleared@) =~= outcomes(before).push(
                        (probe.path@, probe.removed),
                    ));
                    Pruning::clear_from(opts, platform, trees, probes, at + 1, cleared)
                },
            },
            (same, _) => Step::Ask(Pruning { opts, platform, phase: same }),
        }
    }
}

} // verus!
