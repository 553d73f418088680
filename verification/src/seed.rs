//! Building one target directory from another.

use crate::error::{is_io, Error, Failure};
use crate::fill::{fill, is_blank, lemma_fill_step, FillStep, Filling};
use crate::lock::{acquire, lemma_locking_step, Acquiring, BuildLocks, LockStep};
use crate::nesting::{
    holder, law_resolution_keeps_the_path, parent_of, refuse_nesting, resolve, Resolution,
};
use crate::path::{extension_of, name_of, os, parent_parts, renamed_parts, within, FsPath};
use crate::probe::{supports_reflink, ProbeStep, Probing, PROBE_DIR};
use crate::protocol::{Answer, Ask, Asked, Platform, Request, Step};
use crate::staging::{
    mark, tells, Held, MarkStep, Marking, ReleaseStage, ReleaseStep, Releasing, MARKER,
};
use vstd::prelude::*;
use vstd::utf8::is_ascii_chars_encode_utf8;

verus! {

/// Files this size and above under a `deps/` directory keep a shared inode
/// rather than a copy of their own.
///
/// What makes sharing safe there is not the size but what Cargo does with the
/// file: a compiled artifact under `deps/` is written once under a hashed name
/// and never modified, so two trees pointing at one inode never disagree. The
/// size is what makes it worth doing.
pub const DEFAULT_MIN_SHARED_SIZE: u64 = 1048576;

/// What a staged tree is called: the name of the tree it is to be, and this.
pub const PARTIAL: &'static str = ".partial";

/// The directory that Cargo writes compiled artifacts into.
pub const DEPS: &'static str = "deps";

/// The directory that Cargo keeps incremental state in.
pub const INCREMENTAL: &'static str = "incremental";

#[derive(Debug, Clone, Copy, PartialEq, Eq, Structural)]
pub enum Strategy {
    /// The file system clones blocks, so every file is shared and none of the
    /// tree costs disk until something writes to it.
    Clone,
    /// The file system does not clone, so the large write-once artifacts are
    /// shared by hard link and everything else is given a copy of its own.
    LinkAndCopy,
}

/// What is to be seeded.
#[derive(Debug, Clone)]
pub struct Options {
    /// The target directory to seed from.
    pub src: FsPath,
    /// The target directory to create.
    pub dest: FsPath,
    /// Where to build the tree before it is renamed into place. Where it is not
    /// given, a sibling of `dest`.
    pub staging: Option<FsPath>,
    /// See [`DEFAULT_MIN_SHARED_SIZE`].
    pub min_shared_size: u64,
}

impl Options {
    pub fn new(src: FsPath, dest: FsPath) -> (r: Options)
        ensures
            r == (Options {
                src,
                dest,
                staging: None,
                min_shared_size: DEFAULT_MIN_SHARED_SIZE,
            }),
    {
        Options { src, dest, staging: None, min_shared_size: DEFAULT_MIN_SHARED_SIZE }
    }

    /// The path that the tree is built at.
    pub open spec fn staged_at(self) -> Seq<Seq<u8>> {
        match self.staging {
            Some(staging) => staging@,
            None => default_staging_parts(self.dest@),
        }
    }
}

/// What a seeding did.
#[derive(Debug, Clone)]
pub struct Report {
    pub strategy: Strategy,
    pub dest: FsPath,
    pub dirs: u64,
    pub shared: u64,
    pub copied: u64,
    pub symlinks: u64,
    pub incremental_dropped: u64,
    pub shared_bytes: u64,
    pub copied_bytes: u64,
    /// How many of Cargo's build locks were held while the source was read.
    /// Zero is a fact about this run and not a guarantee about it.
    pub build_locks_held: usize,
}

/// The name that a tree bound for `dest` is staged under: that of `dest`, or of
/// a target directory where it has none, and an ending.
pub open spec fn default_staging_parts(dest: Seq<Seq<u8>>) -> Seq<Seq<u8>> {
    renamed_parts(
        dest,
        match name_of(dest) {
            Some(name) => name,
            None => os("target"),
        } + os(PARTIAL),
    )
}

fn default_staging(dest: &FsPath) -> (r: FsPath)
    ensures
        r@ == default_staging_parts(dest@),
{
    let mut staged: Vec<u8> = Vec::new();
    match dest.file_name() {
        Some(name) => staged.extend_from_slice(name.as_slice()),
        None => staged.extend_from_slice("target".as_bytes()),
    }
    staged.extend_from_slice(PARTIAL.as_bytes());
    assert(staged@ =~= match name_of(dest@) {
        Some(name) => name,
        None => os("target"),
    } + os(PARTIAL));
    dest.with_file_name(staged.as_slice())
}

/// Where a seeding builds its tree.
pub fn staging_path(opts: &Options) -> (r: FsPath)
    ensures
        r@ == opts.staged_at(),
        opts.staging matches Some(staging) ==> r.spelling() == staging.spelling(),
{
    match &opts.staging {
        Some(staging) => staging.clone(),
        None => default_staging(&opts.dest),
    }
}

/// A tree that has a name is staged beside it, under another name.
pub proof fn law_staged_beside_the_destination(dest: Seq<Seq<u8>>)
    requires
        name_of(dest) is Some,
    ensures
        default_staging_parts(dest) != dest,
        parent_parts(default_staging_parts(dest)) == parent_parts(dest),
{
    let name = name_of(dest)->0;
    let staged = default_staging_parts(dest);
    reveal_strlit(".partial");
    is_ascii_chars_encode_utf8(PARTIAL@);
    assert(os(PARTIAL).len() == 8);
    assert(staged.last() == name + os(PARTIAL));
    assert(staged.last().len() == name.len() + 8);
    assert(staged.drop_last() =~= dest.drop_last());
}

/// Whether a file is in a directory that Cargo writes artifacts into. What is
/// asked is where Cargo writes the file, so the file's own name does not count.
pub open spec fn is_under_deps(relative: Seq<Seq<u8>>) -> bool {
    parent_parts(relative) matches Some(parent) && parent.contains(os(DEPS))
}

fn under_deps(relative: &FsPath) -> (r: bool)
    ensures
        r == is_under_deps(relative@),
{
    match relative.parent() {
        Some(parent) => parent.has_part(DEPS),
        None => false,
    }
}

/// Whether a file lists what an artifact was built from.
pub open spec fn lists_sources(relative: Seq<Seq<u8>>) -> bool {
    name_of(relative) matches Some(name) && extension_of(name) == Some(os("d"))
}

/// Dep-info, which is never shared by hard link however large it grows.
///
/// Cargo rewrites these on every build, and what they contain is a list of
/// absolute source paths. Two checkouts sitting at two paths need two of them
/// saying two different things, so one inode between them is wrong on both
/// counts.
fn is_dep_info(relative: &FsPath) -> (r: bool)
    ensures
        r == lists_sources(relative@),
{
    relative.has_extension("d")
}

/// Whether a file of that size is shared rather than copied.
pub open spec fn is_shared(
    strategy: Strategy,
    relative: Seq<Seq<u8>>,
    size: u64,
    min_shared_size: u64,
) -> bool {
    match strategy {
        Strategy::Clone => true,
        Strategy::LinkAndCopy => is_under_deps(relative) && !lists_sources(relative) && size
            >= min_shared_size,
    }
}

/// Whether a file of that size is shared rather than copied.
pub fn shares(strategy: Strategy, relative: &FsPath, size: u64, min_shared_size: u64) -> (r: bool)
    ensures
        r == is_shared(strategy, relative@, size, min_shared_size),
{
    match strategy {
        Strategy::Clone => true,
        Strategy::LinkAndCopy => under_deps(relative) && !is_dep_info(relative) && size
            >= min_shared_size,
    }
}

/// Where the paths of a seeding lead, the source resolved and neither of the
/// others inside it.
#[derive(Debug)]
pub struct Clearance {
    pub source: FsPath,
    pub dest: FsPath,
    pub staging: FsPath,
}

impl Clearance {
    /// Nothing that is written lands in the tree that is read.
    pub open spec fn wf(self) -> bool {
        &&& !within(self.dest@, self.source@)
        &&& !within(self.staging@, self.source@)
    }
}

/// The directories that a seeding writes into.
#[derive(Debug)]
pub struct Site {
    pub clear: Clearance,
    pub dest_parent: FsPath,
    pub staging_parent: FsPath,
}

/// Building one target directory from another.
///
/// The tree is built under a staging name and renamed into place only once it
/// is whole. Cargo reads freshness from a fingerprint beside each artifact, so
/// a tree that is half there is worse than no tree at all: the fingerprints
/// that did land say fresh about artifacts that did not. Under the staging name
/// an unfinished tree is not a target directory at all, and is inert rather
/// than wrong.
///
/// A failure leaves the staged tree where it is. It is marked for what it is,
/// and deleting on the way out of an error is how the one run that could have
/// been inspected stops being inspectable.
#[derive(Debug)]
pub struct Seeding {
    pub opts: Options,
    pub staging: FsPath,
    pub platform: Platform,
    pub phase: Phase,
}

/// What a seeding is doing.
#[derive(Debug)]
pub enum Phase {
    Source,
    Destination,
    Staging,
    /// Finding out where everything leads, before anything is created. A
    /// refusal that has already made a directory inside the tree it is refusing
    /// to write into is not the promise this makes.
    SourceName,
    ResolveDest { source: FsPath, search: Resolution },
    ResolveStaging { source: FsPath, dest: FsPath, search: Resolution },
    MakeDestParent { clear: Clearance, dest_parent: FsPath },
    MakeStagingParent { site: Site },
    /// The staged tree is renamed into place at the end, and a rename does not
    /// cross a file system.
    StagingDevice { site: Site },
    DestDevice { site: Site, left: Option<u64> },
    Probe { site: Site, probe: Probing },
    /// Asked only where files are to be linked. A hard link cannot cross a
    /// device, but a clone can.
    SourceDevice { site: Site },
    LinkDevice { site: Site, left: Option<u64> },
    /// Held until the reading is done.
    Locks { site: Site, strategy: Strategy, taking: Acquiring },
    Stamp { site: Site, strategy: Strategy, locks: BuildLocks },
    Mark { site: Site, strategy: Strategy, locks: BuildLocks, marking: Marking },
    Fill { site: Site, locks: BuildLocks, held: Held, filling: Filling },
    Unlock { site: Site, locks: BuildLocks, held: Held, report: Report },
    Rename { site: Site, held: Held, report: Report },
    Unmark { site: Site, releasing: Releasing, report: Report },
    /// Letting go of the marker of a tree that is left unfinished, and of the
    /// build locks where they are still held.
    GiveUp { site: Site, unlock: bool, error: Error },
    LetGo { site: Site, error: Error },
}

/// What becomes of a seeding when it is answered.
pub type SeedStep = Step<Seeding, Result<Report, Error>>;

/// Starts building the destination from the source, sharing whatever the file
/// system under the destination lets it share.
pub fn seed(opts: Options, platform: Platform) -> (r: Seeding)
    ensures
        r.opts == opts,
        r.staging@ == opts.staged_at(),
        opts.staging matches Some(staging) ==> r.staging.spelling() == staging.spelling(),
        r.platform == platform,
        r.phase is Source,
        r.wf(),
{
    let staging = staging_path(&opts);
    Seeding { opts, staging, platform, phase: Phase::Source }
}

/// Whether an error refuses a seeding before anything is written.
pub open spec fn is_refusal(e: Error) -> bool {
    e is SourceMissing || e is DestinationExists || e is StagingExists
        || e is DestinationInsideSource
}

/// Whether two paths are known to be on different devices.
pub open spec fn devices_differ(left: Option<u64>, right: Option<u64>) -> bool {
    left is Some && right is Some && left != right
}

fn differ(left: Option<u64>, right: Option<u64>) -> (r: bool)
    ensures
        r == devices_differ(left, right),
{
    match (left, right) {
        (Some(left), Some(right)) => left != right,
        _ => false,
    }
}

/// A search for where `path` leads that has not asked yet.
pub open spec fn searches(search: Resolution, path: Seq<Seq<u8>>) -> bool {
    search.path@ == path && search.existing@ == path && search.unresolved@.len() == 0
}

impl Seeding {
    /// The seeding in another phase.
    pub open spec fn at(self, phase: Phase) -> SeedStep {
        Step::Ask(Seeding { phase, ..self })
    }

    /// The seeding goes on, and all but the phase is as it was.
    pub open spec fn goes_on(self, o: SeedStep) -> bool {
        o matches Step::Ask(t) && t == (Seeding { phase: t.phase, ..self })
    }

    /// The seeding is stopped by an error.
    pub open spec fn fails(self, o: SeedStep, e: Error) -> bool {
        o == SeedStep::Done(Err(e))
    }

    /// The seeding is stopped by a failure.
    pub open spec fn stopped(
        self,
        o: SeedStep,
        op: &str,
        path: Seq<Seq<u8>>,
        f: Failure,
    ) -> bool {
        o matches Step::Done(Err(e)) && is_io(e, op, path, f)
    }

    /// What is asked next.
    pub open spec fn asked(self) -> Asked {
        match self.phase {
            Phase::Source => Request::IsDir(self.opts.src@),
            Phase::Destination => Request::Exists(self.opts.dest@),
            Phase::Staging => Request::Exists(self.staging@),
            Phase::SourceName => Request::Canonicalize(self.opts.src@),
            Phase::ResolveDest { search, .. } => search.asked(),
            Phase::ResolveStaging { search, .. } => search.asked(),
            Phase::MakeDestParent { dest_parent, .. } => Request::CreateDirAll(dest_parent@),
            Phase::MakeStagingParent { site } => Request::CreateDirAll(site.staging_parent@),
            Phase::StagingDevice { site } => Request::Device(site.staging_parent@),
            Phase::DestDevice { site, .. } => Request::Device(site.dest_parent@),
            Phase::Probe { probe, .. } => probe.asked(),
            Phase::SourceDevice { .. } => Request::Device(self.opts.src@),
            Phase::LinkDevice { site, .. } => Request::Device(site.staging_parent@),
            Phase::Locks { taking, .. } => taking.asked(),
            Phase::Stamp { .. } => Request::Stamp,
            Phase::Mark { marking, .. } => marking.asked(),
            Phase::Fill { filling, .. } => filling.asked(),
            Phase::Unlock { .. } => Request::ReleaseLocks,
            Phase::Rename { .. } => Request::Rename { from: self.staging@, to: self.opts.dest@ },
            Phase::Unmark { releasing, .. } => releasing.asked(),
            Phase::GiveUp { .. } => Request::CloseMarker,
            Phase::LetGo { .. } => Request::ReleaseLocks,
        }
    }

    /// The seeding begins to take the build locks.
    pub open spec fn starts_locking(self, site: Site, strategy: Strategy, o: SeedStep) -> bool {
        &&& self.goes_on(o)
        &&& o matches Step::Ask(t)
        &&& t.phase matches Phase::Locks { site: s, strategy: y, taking }
        &&& s == site
        &&& y == strategy
        &&& taking matches Acquiring::ListSource { src }
        &&& src@ == self.opts.src@
    }

    /// What follows once it is known where everything leads.
    pub open spec fn starts_making(self, clear: Clearance, o: SeedStep) -> bool {
        match holder(self.opts.dest@) {
            None => self.fails(o, Error::DestinationHasNoParent(self.opts.dest)),
            Some(parent) => {
                &&& self.goes_on(o)
                &&& o matches Step::Ask(t)
                &&& t.phase matches Phase::MakeDestParent { clear: c, dest_parent }
                &&& c == clear
                &&& dest_parent@ == parent
            },
        }
    }

    /// What becomes of the seeding when the search for the destination comes to
    /// `p`.
    pub open spec fn dest_search(
        self,
        source: FsPath,
        p: Step<Resolution, Result<FsPath, Error>>,
        o: SeedStep,
    ) -> bool {
        match p {
            Step::Ask(search) => o == self.at(Phase::ResolveDest { source, search }),
            Step::Done(Err(e)) => self.fails(o, e),
            Step::Done(Ok(dest)) => if within(dest@, source@) {
                self.fails(o, Error::DestinationInsideSource { src: source, dest })
            } else {
                &&& self.goes_on(o)
                &&& o matches Step::Ask(t)
                &&& t.phase matches Phase::ResolveStaging { source: s, dest: d, search }
                &&& s == source
                &&& d == dest
                &&& searches(search, self.staging@)
            },
        }
    }

    /// What becomes of the seeding when the search for the staged tree comes to
    /// `p`.
    pub open spec fn staging_search(
        self,
        source: FsPath,
        dest: FsPath,
        p: Step<Resolution, Result<FsPath, Error>>,
        o: SeedStep,
    ) -> bool {
        match p {
            Step::Ask(search) => o == self.at(Phase::ResolveStaging { source, dest, search }),
            Step::Done(Err(e)) => self.fails(o, e),
            Step::Done(Ok(staging)) => if within(staging@, source@) {
                self.fails(o, Error::DestinationInsideSource { src: source, dest: staging })
            } else {
                self.starts_making(Clearance { source, dest, staging }, o)
            },
        }
    }

    /// What becomes of the seeding when the probe comes to `p`.
    pub open spec fn probed(self, site: Site, p: ProbeStep, o: SeedStep) -> bool {
        match p {
            Step::Ask(probe) => o == self.at(Phase::Probe { site, probe }),
            Step::Done(Err(e)) => self.fails(o, e),
            Step::Done(Ok(true)) => self.starts_locking(site, Strategy::Clone, o),
            Step::Done(Ok(false)) => o == self.at(Phase::SourceDevice { site }),
        }
    }

    /// What becomes of the seeding when the taking of locks comes to `p`.
    pub open spec fn locked(
        self,
        site: Site,
        strategy: Strategy,
        p: LockStep,
        o: SeedStep,
    ) -> bool {
        match p {
            Step::Ask(taking) => o == self.at(Phase::Locks { site, strategy, taking }),
            Step::Done(Err(e)) => self.fails(o, e),
            Step::Done(Ok(locks)) => o == self.at(Phase::Stamp { site, strategy, locks }),
        }
    }

    /// What becomes of the seeding when the marking comes to `p`.
    pub open spec fn marked(
        self,
        site: Site,
        strategy: Strategy,
        locks: BuildLocks,
        p: MarkStep,
        o: SeedStep,
    ) -> bool {
        match p {
            Step::Ask(marking) => o == self.at(Phase::Mark { site, strategy, locks, marking }),
            Step::Done(Err(error)) => o == self.at(Phase::LetGo { site, error }),
            Step::Done(Ok(held)) => {
                &&& self.goes_on(o)
                &&& o matches Step::Ask(t)
                &&& t.phase matches Phase::Fill { site: s, locks: l, held: h, filling }
                &&& s == site
                &&& l == locks
                &&& h == held
                &&& filling.src@ == self.opts.src@
                &&& filling.staging@ == self.staging@
                &&& filling.min_shared_size == self.opts.min_shared_size
                &&& filling.platform == self.platform
                &&& is_blank(filling.report, strategy, self.staging@)
                &&& filling.stage is MakeRoot
            },
        }
    }

    /// What becomes of the seeding when the building comes to `p`.
    pub open spec fn filled(
        self,
        site: Site,
        locks: BuildLocks,
        held: Held,
        p: FillStep,
        o: SeedStep,
    ) -> bool {
        match p {
            Step::Ask(filling) => o == self.at(Phase::Fill { site, locks, held, filling }),
            Step::Done(Err(error)) => o == self.at(Phase::GiveUp { site, unlock: true, error }),
            Step::Done(Ok(report)) => o == self.at(Phase::Unlock { site, locks, held, report }),
        }
    }

    /// What becomes of the seeding when the removal of the marker comes to `p`.
    pub open spec fn unmarked(
        self,
        site: Site,
        report: Report,
        p: ReleaseStep,
        o: SeedStep,
    ) -> bool {
        match p {
            Step::Ask(releasing) => o == self.at(Phase::Unmark { site, releasing, report }),
            Step::Done(Err(e)) => self.fails(o, e),
            Step::Done(Ok(_)) => o == SeedStep::Done(Ok(report)),
        }
    }

    /// What becomes of the seeding when it is answered.
    pub open spec fn next(self, a: Answer, o: SeedStep) -> bool {
        match (self.phase, a) {
            (Phase::Source, Answer::Flag(there)) => if there {
                o == self.at(Phase::Destination)
            } else {
                self.fails(o, Error::SourceMissing(self.opts.src))
            },
            (Phase::Destination, Answer::Flag(there)) => if there {
                self.fails(o, Error::DestinationExists(self.opts.dest))
            } else {
                o == self.at(Phase::Staging)
            },
            (Phase::Staging, Answer::Flag(there)) => if there {
                self.fails(o, Error::StagingExists(self.staging))
            } else {
                o == self.at(Phase::SourceName)
            },
            (Phase::SourceName, Answer::Canonical(Ok(source))) => {
                &&& self.goes_on(o)
                &&& o matches Step::Ask(t)
                &&& t.phase matches Phase::ResolveDest { source: s, search }
                &&& s == source
                &&& searches(search, self.opts.dest@)
            },
            (Phase::SourceName, Answer::Canonical(Err(f))) => self.stopped(
                o,
                "resolving",
                self.opts.src@,
                f,
            ),
            (Phase::ResolveDest { source, search }, _) => exists|p|
                #[trigger] search.next(a, p) && self.dest_search(source, p, o),
            (Phase::ResolveStaging { source, dest, search }, _) => exists|p|
                #[trigger] search.next(a, p) && self.staging_search(source, dest, p, o),
            (Phase::MakeDestParent { clear, dest_parent }, Answer::Done(Ok(_))) => match holder(
                self.staging@,
            ) {
                None => self.fails(o, Error::DestinationHasNoParent(self.staging)),
                Some(parent) => {
                    &&& self.goes_on(o)
                    &&& o matches Step::Ask(t)
                    &&& t.phase matches Phase::MakeStagingParent { site }
                    &&& site.clear == clear
                    &&& site.dest_parent == dest_parent
                    &&& site.staging_parent@ == parent
                },
            },
            (Phase::MakeDestParent { dest_parent, .. }, Answer::Done(Err(f))) => self.stopped(
                o,
                "creating",
                dest_parent@,
                f,
            ),
            (Phase::MakeStagingParent { site }, Answer::Done(Ok(_))) => o == self.at(
                Phase::StagingDevice { site },
            ),
            (Phase::MakeStagingParent { site }, Answer::Done(Err(f))) => self.stopped(
                o,
                "creating",
                site.staging_parent@,
                f,
            ),
            (Phase::StagingDevice { site }, Answer::Device(Ok(left))) => o == self.at(
                Phase::DestDevice { site, left },
            ),
            (Phase::StagingDevice { site }, Answer::Device(Err(f))) => self.stopped(
                o,
                "reading",
                site.staging_parent@,
                f,
            ),
            (Phase::DestDevice { site, left }, Answer::Device(Ok(right))) => if devices_differ(
                left,
                right,
            ) {
                self.fails(
                    o,
                    Error::CrossDevice { src: site.staging_parent, dest: site.dest_parent },
                )
            } else {
                &&& self.goes_on(o)
                &&& o matches Step::Ask(t)
                &&& t.phase matches Phase::Probe { site: s, probe }
                &&& s == site
                &&& probe.src@ == self.opts.src@
                &&& probe.dir@ == site.staging_parent@.push(os(PROBE_DIR))
                &&& probe.stage is MakeDir
            },
            (Phase::DestDevice { site, .. }, Answer::Device(Err(f))) => self.stopped(
                o,
                "reading",
                site.dest_parent@,
                f,
            ),
            (Phase::Probe { site, probe }, _) => exists|p|
                #[trigger] probe.next(a, p) && self.probed(site, p, o),
            (Phase::SourceDevice { site }, Answer::Device(Ok(left))) => o == self.at(
                Phase::LinkDevice { site, left },
            ),
            (Phase::SourceDevice { .. }, Answer::Device(Err(f))) => self.stopped(
                o,
                "reading",
                self.opts.src@,
                f,
            ),
            (Phase::LinkDevice { site, left }, Answer::Device(Ok(right))) => if devices_differ(
                left,
                right,
            ) {
                self.fails(
                    o,
                    Error::CrossDevice { src: self.opts.src, dest: site.staging_parent },
                )
            } else {
                self.starts_locking(site, Strategy::LinkAndCopy, o)
            },
            (Phase::LinkDevice { site, .. }, Answer::Device(Err(f))) => self.stopped(
                o,
                "reading",
                site.staging_parent@,
                f,
            ),
            (Phase::Locks { site, strategy, taking }, _) => exists|p|
                #[trigger] taking.next(a, p) && self.locked(site, strategy, p, o),
            (Phase::Stamp { site, strategy, locks }, Answer::Stamp { pid, now }) => {
                &&& self.goes_on(o)
                &&& o matches Step::Ask(t)
                &&& t.phase matches Phase::Mark { site: s, strategy: y, locks: l, marking }
                &&& s == site
                &&& y == strategy
                &&& l == locks
                &&& marking.staging@ == self.staging@
                &&& marking.path@ == self.staging@.push(os(MARKER))
                &&& tells(
                    marking.text@,
                    self.opts.src.spelling(),
                    self.opts.dest.spelling(),
                    pid,
                    now,
                )
                &&& marking.stage is MakeDir
            },
            (Phase::Mark { site, strategy, locks, marking }, _) => exists|p|
                #[trigger] marking.next(a, p) && self.marked(site, strategy, locks, p, o),
            (Phase::Fill { site, locks, held, filling }, _) => exists|p|
                #[trigger] filling.next(a, p) && self.filled(site, locks, held, p, o),
            (Phase::Unlock { site, locks, held, report }, Answer::Done(_)) => o == self.at(
                Phase::Rename {
                    site,
                    held,
                    report: Report { build_locks_held: locks.held.len(), ..report },
                },
            ),
            (Phase::Rename { site, report, .. }, Answer::Done(Ok(_))) => {
                &&& self.goes_on(o)
                &&& o matches Step::Ask(t)
                &&& t.phase matches Phase::Unmark { site: s, releasing, report: r }
                &&& s == site
                &&& releasing.path@ == self.opts.dest@.push(os(MARKER))
                &&& releasing.stage is Remove
                &&& r == (Report { dest: r.dest, ..report })
                &&& r.dest@ == self.opts.dest@
            },
            (Phase::Rename { site, .. }, Answer::Done(Err(f))) => {
                &&& self.goes_on(o)
                &&& o matches Step::Ask(t)
                &&& t.phase matches Phase::GiveUp { site: s, unlock, error }
                &&& s == site
                &&& !unlock
                &&& is_io(error, "renaming the staged tree to", self.opts.dest@, f)
            },
            (Phase::GiveUp { site, unlock, error }, Answer::Done(_)) => if unlock {
                o == self.at(Phase::LetGo { site, error })
            } else {
                self.fails(o, error)
            },
            (Phase::LetGo { error, .. }, Answer::Done(_)) => self.fails(o, error),
            (Phase::Unmark { site, releasing, report }, _) => exists|p|
                #[trigger] releasing.next(a, p) && self.unmarked(site, report, p, o),
            _ => o == SeedStep::Ask(self),
        }
    }

    /// Everything counted fits its counter, whatever is answered.
    pub open spec fn room(self) -> bool {
        self.phase matches Phase::Fill { filling, .. } ==> filling.room()
    }

    /// Where everything leads, once that is known.
    pub open spec fn cleared(self) -> Option<Clearance> {
        match self.phase {
            Phase::MakeDestParent { clear, .. } => Some(clear),
            Phase::MakeStagingParent { site } => Some(site.clear),
            Phase::StagingDevice { site } => Some(site.clear),
            Phase::DestDevice { site, .. } => Some(site.clear),
            Phase::Probe { site, .. } => Some(site.clear),
            Phase::SourceDevice { site } => Some(site.clear),
            Phase::LinkDevice { site, .. } => Some(site.clear),
            Phase::Locks { site, .. } => Some(site.clear),
            Phase::Stamp { site, .. } => Some(site.clear),
            Phase::Mark { site, .. } => Some(site.clear),
            Phase::Fill { site, .. } => Some(site.clear),
            Phase::Unlock { site, .. } => Some(site.clear),
            Phase::Rename { site, .. } => Some(site.clear),
            Phase::Unmark { site, .. } => Some(site.clear),
            Phase::GiveUp { site, .. } => Some(site.clear),
            Phase::LetGo { site, .. } => Some(site.clear),
            _ => None,
        }
    }

    /// What holds in every phase.
    pub open spec fn wf(self) -> bool {
        &&& self.staging@ == self.opts.staged_at()
        &&& self.cleared() matches Some(clear) ==> clear.wf()
        &&& match self.phase {
            Phase::ResolveDest { search, .. } => search.path@ == self.opts.dest@ && search.keeps(),
            Phase::ResolveStaging { source, dest, search } => {
                &&& !within(dest@, source@)
                &&& search.path@ == self.staging@
                &&& search.keeps()
            },
            Phase::MakeDestParent { dest_parent, .. } => holder(self.opts.dest@) == Some(
                dest_parent@,
            ),
            Phase::MakeStagingParent { site } => holder(self.staging@) == Some(
                site.staging_parent@,
            ),
            Phase::StagingDevice { site } => holder(self.staging@) == Some(site.staging_parent@),
            Phase::DestDevice { site, .. } => holder(self.staging@) == Some(site.staging_parent@),
            Phase::Probe { site, probe } => {
                &&& holder(self.staging@) == Some(site.staging_parent@)
                &&& probe.src@ == self.opts.src@
                &&& probe.dir@ == site.staging_parent@.push(os(PROBE_DIR))
                &&& probe.wf()
            },
            Phase::Locks { taking, .. } => taking.wf(),
            Phase::Mark { marking, .. } => {
                &&& marking.staging@ == self.staging@
                &&& marking.path@ == self.staging@.push(os(MARKER))
                &&& marking.wf()
                &&& exists|pid: u32, now: u64|
                    #[trigger] tells(
                        marking.text@,
                        self.opts.src.spelling(),
                        self.opts.dest.spelling(),
                        pid,
                        now,
                    )
            },
            Phase::Fill { filling, .. } => {
                &&& filling.wf()
                &&& filling.src@ == self.opts.src@
                &&& filling.staging@ == self.staging@
                &&& filling.min_shared_size == self.opts.min_shared_size
                &&& filling.platform == self.platform
            },
            Phase::Unmark { releasing, report, .. } => {
                &&& releasing.path@ == self.opts.dest@.push(os(MARKER))
                &&& report.dest@ == self.opts.dest@
                &&& releasing.stage matches ReleaseStage::Close { came: Err(e) } ==> e is Io
            },
            Phase::GiveUp { error, .. } => !is_refusal(error),
            Phase::LetGo { error, .. } => !is_refusal(error),
            _ => true,
        }
    }

    /// Whether everything counted fits its counter, whatever is answered.
    pub fn has_room(&self) -> (r: bool)
        ensures
            r == self.room(),
    {
        match &self.phase {
            Phase::Fill { filling, .. } => filling.has_room(),
            _ => true,
        }
    }

    /// The paths of the options are asked about as they were given: one that
    /// ends in a separator names no file.
    pub open spec fn spells(self, r: Ask) -> bool {
        let src = self.opts.src.spelling();
        let dest = self.opts.dest.spelling();
        let staging = self.staging.spelling();
        match (self.phase, r) {
            (Phase::Source, Request::IsDir(p)) => p.spelling() == src,
            (Phase::Destination, Request::Exists(p)) => p.spelling() == dest,
            (Phase::Staging, Request::Exists(p)) => p.spelling() == staging,
            (Phase::SourceName, Request::Canonicalize(p)) => p.spelling() == src,
            (Phase::SourceDevice { .. }, Request::Device(p)) => p.spelling() == src,
            (Phase::Rename { .. }, Request::Rename { from, to }) => from.spelling() == staging
                && to.spelling() == dest,
            _ => true,
        }
    }

    /// What is to be done next.
    pub fn request(&self) -> (r: Ask)
        requires
            self.wf(),
        ensures
            r@ == self.asked(),
            self.spells(r),
    {
        match &self.phase {
            Phase::Source => Request::IsDir(self.opts.src.clone()),
            Phase::Destination => Request::Exists(self.opts.dest.clone()),
            Phase::Staging => Request::Exists(self.staging.clone()),
            Phase::SourceName => Request::Canonicalize(self.opts.src.clone()),
            Phase::ResolveDest { search, .. } => search.request(),
            Phase::ResolveStaging { search, .. } => search.request(),
            Phase::MakeDestParent { dest_parent, .. } => Request::CreateDirAll(dest_parent.clone()),
            Phase::MakeStagingParent { site } => Request::CreateDirAll(site.staging_parent.clone()),
            Phase::StagingDevice { site } => Request::Device(site.staging_parent.clone()),
            Phase::DestDevice { site, .. } => Request::Device(site.dest_parent.clone()),
            Phase::Probe { probe, .. } => probe.request(),
            Phase::SourceDevice { .. } => Request::Device(self.opts.src.clone()),
            Phase::LinkDevice { site, .. } => Request::Device(site.staging_parent.clone()),
            Phase::Locks { taking, .. } => taking.request(),
            Phase::Stamp { .. } => Request::Stamp,
            Phase::Mark { marking, .. } => marking.request(),
            Phase::Fill { filling, .. } => filling.request(),
            Phase::Unlock { .. } => Request::ReleaseLocks,
            Phase::Rename { .. } => Request::Rename {
                from: self.staging.clone(),
                to: self.opts.dest.clone(),
            },
            Phase::Unmark { releasing, .. } => releasing.request(),
            Phase::GiveUp { .. } => Request::CloseMarker,
            Phase::LetGo { .. } => Request::ReleaseLocks,
        }
    }

    /// Takes in what came of it.
    pub fn step(self, a: Answer) -> (o: SeedStep)
        requires
            self.wf(),
            self.room(),
        ensures
            self.next(a, o),
            o matches Step::Ask(t) ==> t.wf(),
    {
        let o = self.react(a);
        proof {
            lemma_seed_step(self, a, o);
        }
        o
    }

    #[verifier::rlimit(60)]
    #[verifier::spinoff_prover]
    fn react(self, a: Answer) -> (o: SeedStep)
        requires
            self.wf(),
            self.room(),
        ensures
            self.next(a, o),
    {
        let Seeding { opts, staging, platform, phase } = self;
        let phase = match (phase, a) {
            (Phase::Source, Answer::Flag(there)) => {
                if !there {
                    return Step::Done(Err(Error::SourceMissing(opts.src)));
                }
                Phase::Destination
            },
            (Phase::Destination, Answer::Flag(there)) => {
                if there {
                    return Step::Done(Err(Error::DestinationExists(opts.dest)));
                }
                Phase::Staging
            },
            (Phase::Staging, Answer::Flag(there)) => {
                if there {
                    return Step::Done(Err(Error::StagingExists(staging)));
                }
                Phase::SourceName
            },
            (Phase::SourceName, Answer::Canonical(Ok(source))) => Phase::ResolveDest {
                source,
                search: resolve(&opts.dest),
            },
            (Phase::SourceName, Answer::Canonical(Err(f))) => {
                return Step::Done(Err(Error::io("resolving", opts.src, f)));
            },
            (Phase::ResolveDest { source, search }, a) => match search.step(a) {
                Step::Ask(search) => Phase::ResolveDest { source, search },
                Step::Done(Err(e)) => {
                    return Step::Done(Err(e));
                },
                Step::Done(Ok(found)) => match refuse_nesting(source, found) {
                    Ok((source, dest)) => Phase::ResolveStaging {
                        source,
                        dest,
                        search: resolve(&staging),
                    },
                    Err(e) => {
                        return Step::Done(Err(e));
                    },
                },
            },
            (Phase::ResolveStaging { source, dest, search }, a) => match search.step(a) {
                Step::Ask(search) => Phase::ResolveStaging { source, dest, search },
                Step::Done(Err(e)) => {
                    return Step::Done(Err(e));
                },
                Step::Done(Ok(found)) => match refuse_nesting(source, found) {
                    Ok((source, found)) => {
                        let clear = Clearance { source, dest, staging: found };
                        match parent_of(&opts.dest) {
                            Ok(dest_parent) => Phase::MakeDestParent { clear, dest_parent },
                            Err(_) => {
                                return Step::Done(Err(Error::DestinationHasNoParent(opts.dest)));
                            },
                        }
                    },
                    Err(e) => {
                        return Step::Done(Err(e));
                    },
                },
            },
            (Phase::MakeDestParent { clear, dest_parent }, Answer::Done(Ok(_))) => {
                match parent_of(&staging) {
                    Ok(staging_parent) => Phase::MakeStagingParent {
                        site: Site { clear, dest_parent, staging_parent },
                    },
                    Err(_) => {
                        return Step::Done(Err(Error::DestinationHasNoParent(staging)));
                    },
                }
            },
            (Phase::MakeDestParent { dest_parent, .. }, Answer::Done(Err(f))) => {
                return Step::Done(Err(Error::io("creating", dest_parent, f)));
            },
            (Phase::MakeStagingParent { site }, Answer::Done(Ok(_))) => Phase::StagingDevice {
                site,
            },
            (Phase::MakeStagingParent { site }, Answer::Done(Err(f))) => {
                return Step::Done(Err(Error::io("creating", site.staging_parent, f)));
            },
            (Phase::StagingDevice { site }, Answer::Device(Ok(left))) => Phase::DestDevice {
                site,
                left,
            },
            (Phase::StagingDevice { site }, Answer::Device(Err(f))) => {
                return Step::Done(Err(Error::io("reading", site.staging_parent, f)));
            },
            (Phase::DestDevice { site, left }, Answer::Device(Ok(right))) => {
                if differ(left, right) {
                    return Step::Done(
                        Err(
                            Error::CrossDevice { src: site.staging_parent, dest: site.dest_parent },
                        ),
                    );
                }
                let probe = supports_reflink(&opts.src, &site.staging_parent);
                Phase::Probe { site, probe }
            },
            (Phase::DestDevice { site, .. }, Answer::Device(Err(f))) => {
                return Step::Done(Err(Error::io("reading", site.dest_parent, f)));
            },
            (Phase::Probe { site, probe }, a) => match probe.step(a) {
                Step::Ask(probe) => Phase::Probe { site, probe },
                Step::Done(Err(e)) => {
                    return Step::Done(Err(e));
                },
                Step::Done(Ok(clones)) => {
                    if clones {
                        Phase::Locks { site, strategy: Strategy::Clone, taking: acquire(&opts.src) }
                    } else {
                        Phase::SourceDevice { site }
                    }
                },
            },
            (Phase::SourceDevice { site }, Answer::Device(Ok(left))) => Phase::LinkDevice {
                site,
                left,
            },
            (Phase::SourceDevice { .. }, Answer::Device(Err(f))) => {
                return Step::Done(Err(Error::io("reading", opts.src, f)));
            },
            (Phase::LinkDevice { site, left }, Answer::Device(Ok(right))) => {
                if differ(left, right) {
                    return Step::Done(
                        Err(Error::CrossDevice { src: opts.src, dest: site.staging_parent }),
                    );
                }
                Phase::Locks { site, strategy: Strategy::LinkAndCopy, taking: acquire(&opts.src) }
            },
            (Phase::LinkDevice { site, .. }, Answer::Device(Err(f))) => {
                return Step::Done(Err(Error::io("reading", site.staging_parent, f)));
            },
            (Phase::Locks { site, strategy, taking }, a) => match taking.step(a) {
                Step::Ask(taking) => Phase::Locks { site, strategy, taking },
                Step::Done(Err(e)) => {
                    return Step::Done(Err(e));
                },
                Step::Done(Ok(locks)) => Phase::Stamp { site, strategy, locks },
            },
            (Phase::Stamp { site, strategy, locks }, Answer::Stamp { pid, now }) => {
                let marking = mark(&staging, &opts.src, &opts.dest, pid, now);
                Phase::Mark { site, strategy, locks, marking }
            },
            (Phase::Mark { site, strategy, locks, marking }, a) => match marking.step(a) {
                Step::Ask(marking) => Phase::Mark { site, strategy, locks, marking },
                Step::Done(Err(error)) => Phase::LetGo { site, error },
                Step::Done(Ok(held)) => {
                    let filling = fill(
                        &opts.src,
                        &staging,
                        strategy,
                        opts.min_shared_size,
                        platform,
                    );
                    Phase::Fill { site, locks, held, filling }
                },
            },
            (Phase::Fill { site, locks, held, filling }, a) => match filling.step(a) {
                Step::Ask(filling) => Phase::Fill { site, locks, held, filling },
                Step::Done(Err(error)) => Phase::GiveUp { site, unlock: true, error },
                Step::Done(Ok(report)) => Phase::Unlock { site, locks, held, report },
            },
            (Phase::Unlock { site, locks, held, report }, Answer::Done(_)) => {
                let mut report = report;
                report.build_locks_held = locks.held().len();
                Phase::Rename { site, held, report }
            },
            (Phase::Rename { site, held, report }, Answer::Done(Ok(_))) => {
                let mut report = report;
                report.dest = opts.dest.clone();
                Phase::Unmark { site, releasing: held.release(&opts.dest), report }
            },
            (Phase::Rename { site, .. }, Answer::Done(Err(f))) => {
                let error = Error::io("renaming the staged tree to", opts.dest.clone(), f);
                Phase::GiveUp { site, unlock: false, error }
            },
            (Phase::GiveUp { site, unlock, error }, Answer::Done(_)) => {
                if !unlock {
                    return Step::Done(Err(error));
                }
                Phase::LetGo { site, error }
            },
            (Phase::LetGo { error, .. }, Answer::Done(_)) => {
                return Step::Done(Err(error));
            },
            (Phase::Unmark { site, releasing, report }, a) => match releasing.step(a) {
                Step::Ask(releasing) => Phase::Unmark { site, releasing, report },
                Step::Done(Err(e)) => {
                    return Step::Done(Err(e));
                },
                Step::Done(Ok(_)) => {
                    return Step::Done(Ok(report));
                },
            },
            (same, _) => same,
        };
        Step::Ask(Seeding { opts, staging, platform, phase })
    }
}

/// Every answer leaves the seeding well-formed, with the options it had.
#[verifier::spinoff_prover]
pub proof fn lemma_seed_step(s: Seeding, a: Answer, o: SeedStep)
    requires
        s.wf(),
        s.next(a, o),
    ensures
        o matches Step::Ask(t) ==> {
            &&& t.wf()
            &&& t.opts == s.opts
            &&& t.staging == s.staging
            &&& t.platform == s.platform
        },
{
    if let Step::Ask(t) = o {
        match s.phase {
            Phase::SourceName => {
                if let Phase::ResolveDest { search, .. } = t.phase {
                    assert(search.existing@ + search.rest() =~= search.existing@);
                }
            },
            Phase::ResolveDest { source, search } => {
                let p = choose|p| #[trigger] search.next(a, p) && s.dest_search(source, p, o);
                law_resolution_keeps_the_path(search, a, p);
                if let Phase::ResolveStaging { search, .. } = t.phase {
                    assert(search.existing@ + search.rest() =~= search.existing@);
                }
            },
            Phase::ResolveStaging { source, dest, search } => {
                let p = choose|p|
                    #[trigger] search.next(a, p) && s.staging_search(source, dest, p, o);
                law_resolution_keeps_the_path(search, a, p);
            },
            Phase::Locks { site, strategy, taking } => {
                let p = choose|p| #[trigger] taking.next(a, p) && s.locked(site, strategy, p, o);
                lemma_locking_step(taking, a, p);
            },
            Phase::Stamp { .. } => {
                if let Answer::Stamp { pid, now } = a {
                    if let Phase::Mark { marking, .. } = t.phase {
                        assert(tells(
                            marking.text@,
                            t.opts.src.spelling(),
                            t.opts.dest.spelling(),
                            pid,
                            now,
                        ));
                    }
                }
            },
            Phase::Mark { site, strategy, locks, marking } => {
                let p = choose|p|
                    #[trigger] marking.next(a, p) && s.marked(site, strategy, locks, p, o);
                let (pid, now) = choose|pid: u32, now: u64|
                    #[trigger] tells(
                        marking.text@,
                        s.opts.src.spelling(),
                        s.opts.dest.spelling(),
                        pid,
                        now,
                    );
                if let Step::Ask(more) = p {
                    assert(tells(
                        more.text@,
                        t.opts.src.spelling(),
                        t.opts.dest.spelling(),
                        pid,
                        now,
                    ));
                }
            },
            Phase::Fill { site, locks, held, filling } => {
                let p = choose|p|
                    #[trigger] filling.next(a, p) && s.filled(site, locks, held, p, o);
                lemma_fill_step(filling, a, p);
            },
            Phase::Unmark { site, releasing, report } => {
                let p = choose|p| #[trigger] releasing.next(a, p) && s.unmarked(site, report, p, o);
            },
            _ => {},
        }
    }
}

} // verus!
