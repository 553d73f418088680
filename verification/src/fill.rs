//! Building the staged tree.

use crate::error::{is_io, Error, Failure};
use crate::path::{copy_bytes, name_of, os, parent_parts, within, FsPath};
use crate::protocol::{Answer, Ask, Asked, Entry, Kind, Platform, Request, Step, Walked};
use crate::seed::{is_shared, shares, Report, Strategy, DEPS, INCREMENTAL};
use crate::staging::MARKER;
use vstd::prelude::*;

verus! {

/// Building a tree at `staging` out of the one at `src`.
#[derive(Debug)]
pub struct Filling {
    pub src: FsPath,
    pub staging: FsPath,
    pub min_shared_size: u64,
    pub platform: Platform,
    /// What has been done so far.
    pub report: Report,
    pub stage: FillStage,
}

/// What is being done.
#[derive(Debug)]
pub enum FillStage {
    MakeRoot,
    OpenWalk,
    NextEntry,
    /// Telling Cargo's own incremental directory apart from any other that
    /// happens to carry the name.
    IsProfile { deps: FsPath, at: FsPath },
    SkipDir,
    MakeDir { at: FsPath },
    ReadLink { from: FsPath, at: FsPath },
    MakeLink { from: FsPath, target: Vec<u8>, at: FsPath },
    Measure { relative: FsPath },
    Place { from: FsPath, at: FsPath, size: u64, share: bool },
    SetMode { at: FsPath, size: u64, share: bool },
    SetTimes { at: FsPath, size: u64, share: bool },
}

/// What becomes of the building when it is answered.
pub type FillStep = Step<Filling, Result<Report, Error>>;

/// The report of a seeding that has done nothing yet.
pub open spec fn is_blank(report: Report, strategy: Strategy, dest: Seq<Seq<u8>>) -> bool {
    &&& report.strategy == strategy
    &&& report.dest@ == dest
    &&& report.dirs == 0
    &&& report.shared == 0
    &&& report.copied == 0
    &&& report.symlinks == 0
    &&& report.incremental_dropped == 0
    &&& report.shared_bytes == 0
    &&& report.copied_bytes == 0
    &&& report.build_locks_held == 0
}

/// Starts building a tree at `staging` out of the one at `src`.
pub fn fill(
    src: &FsPath,
    staging: &FsPath,
    strategy: Strategy,
    min_shared_size: u64,
    platform: Platform,
) -> (r: Filling)
    ensures
        r.src@ == src@,
        r.staging@ == staging@,
        r.min_shared_size == min_shared_size,
        r.platform == platform,
        is_blank(r.report, strategy, staging@),
        r.stage is MakeRoot,
{
    Filling {
        src: src.clone(),
        staging: staging.clone(),
        min_shared_size,
        platform,
        report: Report {
            strategy,
            dest: staging.clone(),
            dirs: 0,
            shared: 0,
            copied: 0,
            symlinks: 0,
            incremental_dropped: 0,
            shared_bytes: 0,
            copied_bytes: 0,
            build_locks_held: 0,
        },
        stage: FillStage::MakeRoot,
    }
}

/// A file called as a marker is, at the root of the tree that is read. It
/// speaks of that tree, so it is not carried into the one being built.
pub open spec fn is_own_marker(entry: Entry) -> bool {
    entry.kind == Kind::File && entry.relative@ == seq![os(MARKER)]
}

/// A report with one more file.
pub open spec fn with_file(report: Report, size: u64, share: bool) -> Report {
    if share {
        Report {
            shared: (report.shared + 1) as u64,
            shared_bytes: (report.shared_bytes + size) as u64,
            ..report
        }
    } else {
        Report {
            copied: (report.copied + 1) as u64,
            copied_bytes: (report.copied_bytes + size) as u64,
            ..report
        }
    }
}

/// Whether one more file can be counted.
pub open spec fn fits_file(report: Report, size: u64, share: bool) -> bool {
    if share {
        report.shared < u64::MAX && report.shared_bytes + size <= u64::MAX
    } else {
        report.copied < u64::MAX && report.copied_bytes + size <= u64::MAX
    }
}

fn count_file(report: Report, size: u64, share: bool) -> (r: Report)
    requires
        fits_file(report, size, share),
    ensures
        r == with_file(report, size, share),
{
    let mut r = report;
    if share {
        r.shared = r.shared + 1;
        r.shared_bytes = r.shared_bytes + size;
    } else {
        r.copied = r.copied + 1;
        r.copied_bytes = r.copied_bytes + size;
    }
    r
}

fn can_count_file(report: &Report, size: u64, share: bool) -> (r: bool)
    ensures
        r == fits_file(*report, size, share),
{
    if share {
        report.shared < u64::MAX && size <= u64::MAX - report.shared_bytes
    } else {
        report.copied < u64::MAX && size <= u64::MAX - report.copied_bytes
    }
}

/// Where `deps` would be beside the directory at `path`, if that directory could
/// be one that is dropped.
///
/// The incremental directory that Cargo writes sits in a profile directory, and
/// what distinguishes a profile directory is that `deps/` is in it. Matching on
/// the name alone would reach into what build scripts write, and leave a tree
/// whose fingerprints say fresh about files that are not there.
///
/// Dropped only where carrying it would mean real bytes. Cargo regenerates it,
/// and almost none of it is large enough to be linked; where blocks clone it
/// costs nothing, so it comes along.
fn profile_beside(strategy: Strategy, path: &FsPath) -> (r: Option<FsPath>)
    ensures
        r is Some == (strategy == Strategy::LinkAndCopy && name_of(path@) == Some(os(INCREMENTAL))),
        r matches Some(deps) ==> deps@ == parent_parts(path@)->0.push(os(DEPS)),
{
    if strategy == Strategy::LinkAndCopy && path.is_named(INCREMENTAL) {
        match path.parent() {
            Some(profile) => Some(profile.join(DEPS)),
            None => None,
        }
    } else {
        None
    }
}

impl Filling {
    /// Where the entry at `relative` is read from.
    pub open spec fn source_of(self, relative: Seq<Seq<u8>>) -> Seq<Seq<u8>> {
        self.src@ + relative
    }

    /// Where the entry at `relative` goes.
    pub open spec fn place_of(self, relative: Seq<Seq<u8>>) -> Seq<Seq<u8>> {
        self.staging@ + relative
    }

    /// What is asked next.
    pub open spec fn asked(self) -> Asked {
        match self.stage {
            FillStage::MakeRoot => Request::CreateDirAll(self.staging@),
            FillStage::OpenWalk => Request::OpenWalk { root: self.src@, min_depth: 1 },
            FillStage::NextEntry => Request::NextEntry,
            FillStage::IsProfile { deps, .. } => Request::IsDir(deps@),
            FillStage::SkipDir => Request::SkipDir,
            FillStage::MakeDir { at } => Request::CreateDirAll(at@),
            FillStage::ReadLink { from, .. } => Request::ReadLink(from@),
            FillStage::MakeLink { from, target, at } => if self.platform == Platform::Unix {
                Request::Symlink { target: target@, at: at@ }
            } else {
                Request::Copy { from: from@, to: at@ }
            },
            FillStage::Measure { .. } => Request::Measure,
            FillStage::Place { from, at, share, .. } => if !share {
                Request::Copy { from: from@, to: at@ }
            } else if self.report.strategy == Strategy::Clone {
                Request::Reflink { from: from@, to: at@ }
            } else {
                Request::HardLink { from: from@, to: at@ }
            },
            FillStage::SetMode { at, .. } => Request::SetMode(at@),
            FillStage::SetTimes { at, .. } => Request::SetTimes(at@),
        }
    }

    /// Everything counted fits its counter, whatever is answered.
    pub open spec fn room(self) -> bool {
        match self.stage {
            FillStage::IsProfile { .. } => self.report.incremental_dropped < u64::MAX,
            FillStage::MakeDir { .. } => self.report.dirs < u64::MAX,
            FillStage::MakeLink { .. } => self.report.symlinks < u64::MAX,
            FillStage::Place { size, share, .. } => fits_file(self.report, size, share),
            FillStage::SetTimes { size, share, .. } => fits_file(self.report, size, share),
            _ => true,
        }
    }

    /// The building at another stage.
    pub open spec fn at(self, stage: FillStage) -> FillStep {
        Step::Ask(Filling { stage, ..self })
    }

    /// The building goes on to the next entry with that report.
    pub open spec fn counted(self, report: Report) -> FillStep {
        Step::Ask(Filling { report, stage: FillStage::NextEntry, ..self })
    }

    /// The building goes on, and all but the stage is as it was.
    pub open spec fn goes_on(self, o: FillStep) -> bool {
        o matches Step::Ask(t) && t == (Filling { stage: t.stage, ..self })
    }

    /// What becomes of the building when it is handed an entry.
    pub open spec fn takes(self, entry: Entry, o: FillStep) -> bool {
        let from = self.source_of(entry.relative@);
        let at = self.place_of(entry.relative@);
        if is_own_marker(entry) {
            o == FillStep::Ask(self)
        } else {
            &&& self.goes_on(o)
            &&& o matches Step::Ask(t)
            &&& match entry.kind {
                Kind::Dir => if self.report.strategy == Strategy::LinkAndCopy && name_of(from)
                    == Some(os(INCREMENTAL)) {
                    t.stage matches FillStage::IsProfile { deps, at: p } && p@ == at && deps@
                        == parent_parts(from)->0.push(os(DEPS))
                } else {
                    t.stage matches FillStage::MakeDir { at: p } && p@ == at
                },
                Kind::Symlink => t.stage matches FillStage::ReadLink { from: f, at: p } && f@
                    == from && p@ == at,
                _ => t.stage == (FillStage::Measure { relative: entry.relative }),
            }
        }
    }

    /// The building is stopped by a failure.
    pub open spec fn stopped(
        self,
        o: FillStep,
        op: &str,
        path: Seq<Seq<u8>>,
        f: Failure,
    ) -> bool {
        o matches Step::Done(Err(e)) && is_io(e, op, path, f)
    }

    /// What becomes of the building when it is answered.
    pub open spec fn next(self, a: Answer, o: FillStep) -> bool {
        match (self.stage, a) {
            (FillStage::MakeRoot, Answer::Done(Ok(_))) => o == self.at(FillStage::OpenWalk),
            (FillStage::MakeRoot, Answer::Done(Err(f))) => self.stopped(
                o,
                "creating",
                self.staging@,
                f,
            ),
            (FillStage::OpenWalk, Answer::Done(_)) => o == self.at(FillStage::NextEntry),
            (FillStage::NextEntry, Answer::Walked(Walked::Entry(entry))) => self.takes(entry, o),
            (FillStage::NextEntry, Answer::Walked(Walked::Failed(source))) => o == FillStep::Done(
                Err(Error::Walk { path: self.src, source }),
            ),
            (FillStage::NextEntry, Answer::Walked(Walked::End)) => o == FillStep::Done(
                Ok(self.report),
            ),
            (FillStage::IsProfile { at, .. }, Answer::Flag(profile)) => if profile {
                o == FillStep::Ask(
                    Filling {
                        report: Report {
                            incremental_dropped: (self.report.incremental_dropped + 1) as u64,
                            ..self.report
                        },
                        stage: FillStage::SkipDir,
                        ..self
                    },
                )
            } else {
                o == self.at(FillStage::MakeDir { at })
            },
            (FillStage::SkipDir, Answer::Done(_)) => o == self.at(FillStage::NextEntry),
            (FillStage::MakeDir { .. }, Answer::Done(Ok(_))) => o == self.counted(
                Report { dirs: (self.report.dirs + 1) as u64, ..self.report },
            ),
            (FillStage::MakeDir { at }, Answer::Done(Err(f))) => self.stopped(
                o,
                "creating",
                at@,
                f,
            ),
            (FillStage::ReadLink { from, at }, Answer::Target(Ok(target))) => o == self.at(
                FillStage::MakeLink { from, target, at },
            ),
            (FillStage::ReadLink { from, .. }, Answer::Target(Err(f))) => self.stopped(
                o,
                "reading the symlink",
                from@,
                f,
            ),
            (FillStage::MakeLink { .. }, Answer::Done(Ok(_))) => o == self.counted(
                Report { symlinks: (self.report.symlinks + 1) as u64, ..self.report },
            ),
            (FillStage::MakeLink { at, .. }, Answer::Done(Err(f))) => self.stopped(
                o,
                if self.platform == Platform::Unix {
                    "creating the symlink"
                } else {
                    "copying what the symlink pointed at, to"
                },
                at@,
                f,
            ),
            (FillStage::Measure { relative }, Answer::Measured(Ok(measured))) => {
                &&& self.goes_on(o)
                &&& o matches Step::Ask(t)
                &&& t.stage matches FillStage::Place { from, at, size, share }
                &&& from@ == self.source_of(relative@)
                &&& at@ == self.place_of(relative@)
                &&& size == measured.len
                &&& share == is_shared(
                    self.report.strategy,
                    relative@,
                    size,
                    self.min_shared_size,
                )
            },
            (FillStage::Measure { relative }, Answer::Measured(Err(source))) => {
                &&& o matches Step::Done(Err(Error::Walk { path, source: s }))
                &&& path@ == self.source_of(relative@)
                &&& s == source
            },
            (FillStage::Place { at, size, share, .. }, Answer::Done(Ok(_))) => if share
                && self.report.strategy == Strategy::LinkAndCopy {
                o == self.counted(with_file(self.report, size, share))
            } else {
                o == self.at(FillStage::SetMode { at, size, share })
            },
            (FillStage::Place { at, share, .. }, Answer::Done(Err(f))) => self.stopped(
                o,
                if !share {
                    "copying to"
                } else if self.report.strategy == Strategy::Clone {
                    "cloning to"
                } else {
                    "linking to"
                },
                at@,
                f,
            ),
            (FillStage::SetMode { at, size, share }, Answer::Done(Ok(_))) => o == self.at(
                FillStage::SetTimes { at, size, share },
            ),
            (FillStage::SetMode { at, .. }, Answer::Done(Err(f))) => self.stopped(
                o,
                "setting the mode on",
                at@,
                f,
            ),
            (FillStage::SetTimes { size, share, .. }, Answer::Done(Ok(_))) => o == self.counted(
                with_file(self.report, size, share),
            ),
            (FillStage::SetTimes { at, .. }, Answer::Done(Err(f))) => self.stopped(
                o,
                "setting the timestamps on",
                at@,
                f,
            ),
            _ => o == FillStep::Ask(self),
        }
    }

    /// Whether everything counted fits its counter, whatever is answered.
    pub fn has_room(&self) -> (r: bool)
        ensures
            r == self.room(),
    {
        match &self.stage {
            FillStage::IsProfile { .. } => self.report.incremental_dropped < u64::MAX,
            FillStage::MakeDir { .. } => self.report.dirs < u64::MAX,
            FillStage::MakeLink { .. } => self.report.symlinks < u64::MAX,
            FillStage::Place { size, share, .. } => can_count_file(&self.report, *size, *share),
            FillStage::SetTimes { size, share, .. } => can_count_file(&self.report, *size, *share),
            _ => true,
        }
    }

    /// What is to be done next.
    pub fn request(&self) -> (r: Ask)
        ensures
            r@ == self.asked(),
    {
        match &self.stage {
            FillStage::MakeRoot => Request::CreateDirAll(self.staging.clone()),
            FillStage::OpenWalk => Request::OpenWalk { root: self.src.clone(), min_depth: 1 },
            FillStage::NextEntry => Request::NextEntry,
            FillStage::IsProfile { deps, .. } => Request::IsDir(deps.clone()),
            FillStage::SkipDir => Request::SkipDir,
            FillStage::MakeDir { at } => Request::CreateDirAll(at.clone()),
            FillStage::ReadLink { from, .. } => Request::ReadLink(from.clone()),
            FillStage::MakeLink { from, target, at } => if self.platform == Platform::Unix {
                Request::Symlink {
                    target: copy_bytes(target.as_slice()),
                    at: at.clone(),
                }
            } else {
                Request::Copy { from: from.clone(), to: at.clone() }
            },
            FillStage::Measure { .. } => Request::Measure,
            FillStage::Place { from, at, share, .. } => if !*share {
                Request::Copy { from: from.clone(), to: at.clone() }
            } else if self.report.strategy == Strategy::Clone {
                Request::Reflink { from: from.clone(), to: at.clone() }
            } else {
                Request::HardLink { from: from.clone(), to: at.clone() }
            },
            FillStage::SetMode { at, .. } => Request::SetMode(at.clone()),
            FillStage::SetTimes { at, .. } => Request::SetTimes(at.clone()),
        }
    }

    fn take(self, entry: Entry) -> (o: FillStep)
        requires
            self.stage is NextEntry,
        ensures
            self.takes(entry, o),
    {
        let Entry { relative, kind } = entry;
        if kind == Kind::File && relative.is_only(MARKER) {
            return Step::Ask(self);
        }
        let stage = match kind {
            Kind::Dir => {
                let at = self.staging.descend(&relative);
                match profile_beside(self.report.strategy, &self.src.descend(&relative)) {
                    Some(deps) => FillStage::IsProfile { deps, at },
                    None => FillStage::MakeDir { at },
                }
            },
            Kind::Symlink => FillStage::ReadLink {
                from: self.src.descend(&relative),
                at: self.staging.descend(&relative),
            },
            _ => FillStage::Measure { relative },
        };
        Step::Ask(Filling { stage, ..self })
    }

    /// Takes in what came of it.
    pub fn step(self, a: Answer) -> (o: FillStep)
        requires
            self.room(),
        ensures
            self.next(a, o),
    {
        if let Answer::Walked(Walked::Entry(entry)) = a {
            return if let FillStage::NextEntry = self.stage {
                self.take(entry)
            } else {
                Step::Ask(self)
            };
        }
        let Filling { src, staging, min_shared_size, platform, report, stage } = self;
        let mut report = report;
        let stage = match (stage, a) {
            (FillStage::MakeRoot, Answer::Done(Ok(_))) => FillStage::OpenWalk,
            (FillStage::MakeRoot, Answer::Done(Err(f))) => {
                return Step::Done(Err(Error::io("creating", staging, f)));
            },
            (FillStage::OpenWalk, Answer::Done(_)) => FillStage::NextEntry,
            (FillStage::NextEntry, Answer::Walked(Walked::Failed(source))) => {
                return Step::Done(Err(Error::Walk { path: src, source }));
            },
            (FillStage::NextEntry, Answer::Walked(Walked::End)) => {
                return Step::Done(Ok(report));
            },
            (FillStage::IsProfile { at, .. }, Answer::Flag(profile)) => {
                if profile {
                    report.incremental_dropped = report.incremental_dropped + 1;
                    FillStage::SkipDir
                } else {
                    FillStage::MakeDir { at }
                }
            },
            (FillStage::SkipDir, Answer::Done(_)) => FillStage::NextEntry,
            (FillStage::MakeDir { .. }, Answer::Done(Ok(_))) => {
                report.dirs = report.dirs + 1;
                FillStage::NextEntry
            },
            (FillStage::MakeDir { at }, Answer::Done(Err(f))) => {
                return Step::Done(Err(Error::io("creating", at, f)));
            },
            (FillStage::ReadLink { from, at }, Answer::Target(Ok(target))) => FillStage::MakeLink {
                from,
                target,
                at,
            },
            (FillStage::ReadLink { from, .. }, Answer::Target(Err(f))) => {
                return Step::Done(Err(Error::io("reading the symlink", from, f)));
            },
            (FillStage::MakeLink { .. }, Answer::Done(Ok(_))) => {
                report.symlinks = report.symlinks + 1;
                FillStage::NextEntry
            },
            (FillStage::MakeLink { at, .. }, Answer::Done(Err(f))) => {
                let op = if platform == Platform::Unix {
                    "creating the symlink"
                } else {
                    "copying what the symlink pointed at, to"
                };
                return Step::Done(Err(Error::io(op, at, f)));
            },
            (FillStage::Measure { relative }, Answer::Measured(Ok(measured))) => FillStage::Place {
                from: src.descend(&relative),
                at: staging.descend(&relative),
                size: measured.len,
                share: shares(report.strategy, &relative, measured.len, min_shared_size),
            },
            (FillStage::Measure { relative }, Answer::Measured(Err(source))) => {
                return Step::Done(Err(Error::Walk { path: src.descend(&relative), source }));
            },
            (FillStage::Place { at, size, share, .. }, Answer::Done(Ok(_))) => {
                // A hard link is the same inode, so it arrives with the times
                // and the mode already on it.
                if share && report.strategy == Strategy::LinkAndCopy {
                    report = count_file(report, size, share);
                    FillStage::NextEntry
                } else {
                    FillStage::SetMode { at, size, share }
                }
            },
            (FillStage::Place { at, share, .. }, Answer::Done(Err(f))) => {
                let op = if !share {
                    "copying to"
                } else if report.strategy == Strategy::Clone {
                    "cloning to"
                } else {
                    "linking to"
                };
                return Step::Done(Err(Error::io(op, at, f)));
            },
            (FillStage::SetMode { at, size, share }, Answer::Done(Ok(_))) => FillStage::SetTimes {
                at,
                size,
                share,
            },
            (FillStage::SetMode { at, .. }, Answer::Done(Err(f))) => {
                return Step::Done(Err(Error::io("setting the mode on", at, f)));
            },
            (FillStage::SetTimes { size, share, .. }, Answer::Done(Ok(_))) => {
                report = count_file(report, size, share);
                FillStage::NextEntry
            },
            (FillStage::SetTimes { at, .. }, Answer::Done(Err(f))) => {
                return Step::Done(Err(Error::io("setting the timestamps on", at, f)));
            },
            (same, _) => same,
        };
        Step::Ask(Filling { src, staging, min_shared_size, platform, report, stage })
    }
}

impl Filling {
    /// What is being done is done for an entry of the tree that is read, at the
    /// same place in the tree that is built.
    pub open spec fn wf(self) -> bool {
        match self.stage {
            FillStage::IsProfile { deps, at } => {
                &&& self.report.strategy == Strategy::LinkAndCopy
                &&& exists|relative: Seq<Seq<u8>>|
                    {
                        &&& at@ == #[trigger] self.place_of(relative)
                        &&& name_of(self.source_of(relative)) == Some(os(INCREMENTAL))
                        &&& deps@ == parent_parts(self.source_of(relative))->0.push(os(DEPS))
                    }
            },
            FillStage::SkipDir => self.report.strategy == Strategy::LinkAndCopy,
            FillStage::MakeDir { at } => within(at@, self.staging@),
            FillStage::ReadLink { from, at } => exists|relative: Seq<Seq<u8>>|
                at@ == #[trigger] self.place_of(relative) && from@ == self.source_of(relative),
            FillStage::MakeLink { from, at, .. } => exists|relative: Seq<Seq<u8>>|
                at@ == #[trigger] self.place_of(relative) && from@ == self.source_of(relative),
            FillStage::Place { from, at, size, share } => exists|relative: Seq<Seq<u8>>|
                {
                    &&& at@ == #[trigger] self.place_of(relative)
                    &&& from@ == self.source_of(relative)
                    &&& share == is_shared(
                        self.report.strategy,
                        relative,
                        size,
                        self.min_shared_size,
                    )
                },
            FillStage::SetMode { at, .. } => within(at@, self.staging@),
            FillStage::SetTimes { at, .. } => within(at@, self.staging@),
            _ => true,
        }
    }
}

/// The step from one state to the next keeps what the states have in common.
pub proof fn lemma_fill_step(s: Filling, a: Answer, o: FillStep)
    requires
        s.wf(),
        s.next(a, o),
    ensures
        o matches Step::Ask(t) ==> {
            &&& t.wf()
            &&& t.src == s.src
            &&& t.staging == s.staging
            &&& t.min_shared_size == s.min_shared_size
            &&& t.platform == s.platform
            &&& t.report.strategy == s.report.strategy
            &&& t.report.dest == s.report.dest
            &&& t.report.build_locks_held == s.report.build_locks_held
        },
{
    if let Step::Ask(t) = o {
        assert forall|relative: Seq<Seq<u8>>| within(#[trigger] s.place_of(relative), s.staging@) by {
            assert(s.place_of(relative).take(s.staging@.len() as int) =~= s.staging@);
        }
        match (s.stage, a) {
            (FillStage::NextEntry, Answer::Walked(Walked::Entry(entry))) => {
                assert(t.place_of(entry.relative@) == s.place_of(entry.relative@));
            },
            (FillStage::Measure { relative }, Answer::Measured(Ok(_))) => {
                assert(t.place_of(relative@) == s.place_of(relative@));
            },
            (FillStage::ReadLink { from, at }, Answer::Target(Ok(_))) => {
                let relative = choose|relative: Seq<Seq<u8>>|
                    at@ == #[trigger] s.place_of(relative) && from@ == s.source_of(relative);
                assert(t.place_of(relative) == s.place_of(relative));
            },
            _ => {},
        }
    }
}

/// Whatever a building that is well-formed makes or changes is in the tree being
/// built.
pub proof fn lemma_within_staging(t: Filling)
    requires
        t.wf(),
    ensures
        t.asked().written() matches Some(path) ==> within(path, t.staging@),
        !t.asked().removes(),
{
    assert forall|relative: Seq<Seq<u8>>| within(#[trigger] t.place_of(relative), t.staging@) by {
        assert(t.place_of(relative).take(t.staging@.len() as int) =~= t.staging@);
    }
    assert(t.staging@.take(t.staging@.len() as int) =~= t.staging@);
}

} // verus!
