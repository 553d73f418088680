//! What a run asks of the operating system, and what it is told.
//!
//! Nothing in this library touches a file. A run is a value that says what it
//! wants done next and is handed what came of it, until it is done; whoever
//! holds the run does as it is asked and decides nothing.

use crate::error::Failure;
use crate::path::FsPath;
use serde_json::Error as JsonError;
use vstd::prelude::*;
use walkdir::Error as WalkError;

verus! {

/// Something to be done, over paths of type `P` and byte strings of type `B`.
///
/// There is one walk at a time, one set of build locks, and one staging marker
/// that is open.
pub enum Request<P, B> {
    /// Whether a directory is there, symlinks followed. Answered by a flag.
    IsDir(P),
    /// Whether a regular file is there, symlinks followed. Answered by a flag.
    IsFile(P),
    /// Whether anything is there. Answered by a flag.
    Exists(P),
    /// The path without symlinks, absolute.
    Canonicalize(P),
    /// The device that the path is on, where the platform hands one out.
    Device(P),
    /// What a directory holds.
    List(P),
    /// Start walking the tree at `root`, from that depth on.
    OpenWalk { root: P, min_depth: usize },
    /// The next entry of the walk.
    NextEntry,
    /// Do not walk into the directory that was handed out last.
    SkipDir,
    /// The size of the entry that was handed out last, and which file it is.
    Measure,
    /// Where a symlink points.
    ReadLink(P),
    /// Make a directory and those above it.
    CreateDirAll(P),
    /// Remove a file.
    RemoveFile(P),
    /// Remove an empty directory.
    RemoveDir(P),
    /// Remove a directory and all that it holds.
    RemoveDirAll(P),
    /// Give a directory another path.
    Rename { from: P, to: P },
    /// Make a file that shares the blocks of another.
    Reflink { from: P, to: P },
    /// Give a file a second name.
    HardLink { from: P, to: P },
    /// Copy a file.
    Copy { from: P, to: P },
    /// Make a symlink.
    Symlink { target: B, at: P },
    /// Write a file of that many zero bytes to the disk.
    WriteZeros { path: P, len: u64 },
    /// Give a file the mode of the entry that was measured last.
    SetMode(P),
    /// Give a file the times of the entry that was measured last.
    SetTimes(P),
    /// Take a share of a build lock, without waiting.
    LockShared(P),
    /// Let go of the build locks.
    ReleaseLocks,
    /// Which process this is, and what time it is.
    Stamp,
    /// Write a file over whatever is there, and keep it open once it is written.
    WriteMarker { path: P, text: B },
    /// Open a file and keep it open.
    OpenMarker(P),
    /// Lock the open file for oneself, without waiting.
    LockMarker(P),
    /// Which file the open one is.
    MarkerIdentity(P),
    /// Which file is at a path.
    Identity(P),
    /// Close the open file, which lets go of its lock.
    CloseMarker,
    /// What a file holds.
    ReadFile(P),
}

/// A request that can be carried out.
pub type Ask = Request<FsPath, Vec<u8>>;

/// A request as contracts speak of it.
pub type Asked = Request<Seq<Seq<u8>>, Seq<u8>>;

impl Request<FsPath, Vec<u8>> {
    /// The request with each path as its components.
    pub open spec fn view(&self) -> Asked {
        match *self {
            Request::IsDir(p) => Request::IsDir(p@),
            Request::IsFile(p) => Request::IsFile(p@),
            Request::Exists(p) => Request::Exists(p@),
            Request::Canonicalize(p) => Request::Canonicalize(p@),
            Request::Device(p) => Request::Device(p@),
            Request::List(p) => Request::List(p@),
            Request::OpenWalk { root, min_depth } => Request::OpenWalk { root: root@, min_depth },
            Request::NextEntry => Request::NextEntry,
            Request::SkipDir => Request::SkipDir,
            Request::Measure => Request::Measure,
            Request::ReadLink(p) => Request::ReadLink(p@),
            Request::CreateDirAll(p) => Request::CreateDirAll(p@),
            Request::RemoveFile(p) => Request::RemoveFile(p@),
            Request::RemoveDir(p) => Request::RemoveDir(p@),
            Request::RemoveDirAll(p) => Request::RemoveDirAll(p@),
            Request::Rename { from, to } => Request::Rename { from: from@, to: to@ },
            Request::Reflink { from, to } => Request::Reflink { from: from@, to: to@ },
            Request::HardLink { from, to } => Request::HardLink { from: from@, to: to@ },
            Request::Copy { from, to } => Request::Copy { from: from@, to: to@ },
            Request::Symlink { target, at } => Request::Symlink { target: target@, at: at@ },
            Request::WriteZeros { path, len } => Request::WriteZeros { path: path@, len },
            Request::SetMode(p) => Request::SetMode(p@),
            Request::SetTimes(p) => Request::SetTimes(p@),
            Request::LockShared(p) => Request::LockShared(p@),
            Request::ReleaseLocks => Request::ReleaseLocks,
            Request::Stamp => Request::Stamp,
            Request::WriteMarker { path, text } => Request::WriteMarker { path: path@, text: text@ },
            Request::OpenMarker(p) => Request::OpenMarker(p@),
            Request::LockMarker(p) => Request::LockMarker(p@),
            Request::MarkerIdentity(p) => Request::MarkerIdentity(p@),
            Request::Identity(p) => Request::Identity(p@),
            Request::CloseMarker => Request::CloseMarker,
            Request::ReadFile(p) => Request::ReadFile(p@),
        }
    }
}

impl<P, B> Request<P, B> {
    /// The path that carrying out the request makes, changes or removes.
    pub open spec fn written(self) -> Option<P> {
        match self {
            Request::CreateDirAll(p) => Some(p),
            Request::RemoveFile(p) => Some(p),
            Request::RemoveDir(p) => Some(p),
            Request::RemoveDirAll(p) => Some(p),
            Request::Rename { from, to } => Some(to),
            Request::Reflink { from, to } => Some(to),
            Request::HardLink { from, to } => Some(to),
            Request::Copy { from, to } => Some(to),
            Request::Symlink { target, at } => Some(at),
            Request::WriteZeros { path, len } => Some(path),
            Request::SetMode(p) => Some(p),
            Request::SetTimes(p) => Some(p),
            Request::WriteMarker { path, text } => Some(path),
            _ => None,
        }
    }

    /// Whether an answer is of the kind that the request is answered by.
    pub open spec fn fits(self, a: Answer) -> bool {
        match self {
            Request::IsDir(_) | Request::IsFile(_) | Request::Exists(_) => a is Flag,
            Request::Canonicalize(_) => a is Canonical,
            Request::Device(_) => a is Device,
            Request::List(_) => a is Listing,
            Request::NextEntry => a is Walked,
            Request::Measure => a is Measured,
            Request::ReadLink(_) => a is Target,
            Request::LockShared(_) => a is Lock,
            Request::LockMarker(_) => a matches Answer::Lock(lock) && !(lock is Unopened),
            Request::Stamp => a is Stamp,
            Request::WriteMarker { .. } => a is Written,
            Request::MarkerIdentity(_) | Request::Identity(_) => a is Identity,
            Request::ReadFile(_) => a is Contents,
            _ => a is Done,
        }
    }

    /// Whether carrying out the request removes anything.
    pub open spec fn removes(self) -> bool {
        self is RemoveFile || self is RemoveDir || self is RemoveDirAll
    }
}

/// What an entry of a walk is, symlinks not followed.
#[derive(Debug, Clone, Copy, PartialEq, Eq, Structural)]
pub enum Kind {
    Dir,
    File,
    Symlink,
    Other,
}

/// An entry of a walk. Its depth is the number of components that lead to it.
#[derive(Debug)]
pub struct Entry {
    /// The path from the root of the walk to the entry.
    pub relative: FsPath,
    pub kind: Kind,
}

/// One step of a walk.
#[derive(Debug)]
pub enum Walked {
    Entry(Entry),
    Failed(WalkError),
    End,
}

/// What a directory holds under one name.
#[derive(Debug)]
pub struct Listed {
    pub name: Vec<u8>,
    /// Whether it is a directory, symlinks followed.
    pub leads_to_dir: bool,
    /// Whether it is a regular file, symlinks not followed.
    pub is_file: bool,
}

/// The size of a file, which file it is and how many names it has.
#[derive(Debug, Clone, Copy, PartialEq, Eq, Structural)]
pub struct Measured {
    pub len: u64,
    /// Which file it is; where the platform does not say, any.
    pub id: FileId,
    /// The number of hard links; where the platform does not say, one.
    pub links: u64,
}

/// What came of asking for a lock.
#[derive(Debug)]
pub enum Lock {
    Taken,
    /// Something else holds it.
    Busy,
    /// The file could not be opened.
    Unopened(Failure),
    Failed(Failure),
    /// The platform has no such lock.
    Unsupported,
}

/// Which file a path or an open file is.
#[derive(Debug, Clone, Copy, PartialEq, Eq, Structural)]
pub struct FileId {
    pub device: u64,
    pub inode: u64,
}

/// What came of writing a marker.
#[derive(Debug)]
pub enum Written {
    Done,
    Unopened(Failure),
    Failed(JsonError),
}

/// What came of a request.
#[derive(Debug)]
pub enum Answer {
    Flag(bool),
    Canonical(Result<FsPath, Failure>),
    Device(Result<Option<u64>, Failure>),
    Listing(Result<Vec<Listed>, Failure>),
    Walked(Walked),
    Measured(Result<Measured, WalkError>),
    Target(Result<Vec<u8>, Failure>),
    Done(Result<(), Failure>),
    Lock(Lock),
    Stamp { pid: u32, now: u64 },
    Written(Written),
    Identity(Result<FileId, Failure>),
    Contents(Result<Vec<u8>, Failure>),
}

/// What was asked, and what came of it, the earliest first.
pub type Events = Seq<(Asked, Answer)>;

/// Whether a share of a build lock is held after all that.
pub open spec fn shares_held(events: Events) -> bool
    decreases events.len(),
{
    if events.len() == 0 {
        false
    } else {
        match events.last().0 {
            Request::LockShared(_) => events.last().1 == Answer::Lock(Lock::Taken) || shares_held(
                events.drop_last(),
            ),
            Request::ReleaseLocks => false,
            _ => shares_held(events.drop_last()),
        }
    }
}

/// Whether a marker is open after all that. Its lock is held at most as long.
pub open spec fn marker_open(events: Events) -> bool
    decreases events.len(),
{
    if events.len() == 0 {
        false
    } else {
        match events.last().0 {
            Request::WriteMarker { .. } => events.last().1 == Answer::Written(Written::Done)
                || marker_open(events.drop_last()),
            Request::OpenMarker(_) => events.last().1 matches Answer::Done(Ok(_)) || marker_open(
                events.drop_last(),
            ),
            Request::CloseMarker => false,
            _ => marker_open(events.drop_last()),
        }
    }
}

/// What becomes of a run that was answered: it goes on, or it is done.
#[derive(Debug)]
pub enum Step<S, T> {
    Ask(S),
    Done(T),
}

/// Which of the operating system's facilities there are.
#[derive(Debug, Clone, Copy, PartialEq, Eq, Structural)]
pub enum Platform {
    /// Files are locked, told apart and counted by name, and symlinks are made
    /// by anyone.
    Unix,
    /// None of that is taken for granted.
    Other,
}

/// A request is spoken of as what it is: the same thing, of the same paths.
pub proof fn law_a_request_is_what_it_is_spoken_of_as(ask: Ask)
    ensures
        match (ask, ask@) {
            (Request::IsDir(p), Request::IsDir(q)) => q == p@,
            (Request::IsFile(p), Request::IsFile(q)) => q == p@,
            (Request::Exists(p), Request::Exists(q)) => q == p@,
            (Request::Canonicalize(p), Request::Canonicalize(q)) => q == p@,
            (Request::Device(p), Request::Device(q)) => q == p@,
            (Request::List(p), Request::List(q)) => q == p@,
            (Request::ReadLink(p), Request::ReadLink(q)) => q == p@,
            (Request::CreateDirAll(p), Request::CreateDirAll(q)) => q == p@,
            (Request::RemoveFile(p), Request::RemoveFile(q)) => q == p@,
            (Request::RemoveDir(p), Request::RemoveDir(q)) => q == p@,
            (Request::RemoveDirAll(p), Request::RemoveDirAll(q)) => q == p@,
            (Request::SetMode(p), Request::SetMode(q)) => q == p@,
            (Request::SetTimes(p), Request::SetTimes(q)) => q == p@,
            (Request::LockShared(p), Request::LockShared(q)) => q == p@,
            (Request::OpenMarker(p), Request::OpenMarker(q)) => q == p@,
            (Request::LockMarker(p), Request::LockMarker(q)) => q == p@,
            (Request::MarkerIdentity(p), Request::MarkerIdentity(q)) => q == p@,
            (Request::Identity(p), Request::Identity(q)) => q == p@,
            (Request::ReadFile(p), Request::ReadFile(q)) => q == p@,
            (Request::NextEntry, Request::NextEntry) => true,
            (Request::SkipDir, Request::SkipDir) => true,
            (Request::Measure, Request::Measure) => true,
            (Request::ReleaseLocks, Request::ReleaseLocks) => true,
            (Request::Stamp, Request::Stamp) => true,
            (Request::CloseMarker, Request::CloseMarker) => true,
            (Request::Rename { from, to }, Request::Rename { from: f, to: t }) => f == from@ && t == to@,
            (Request::Reflink { from, to }, Request::Reflink { from: f, to: t }) => f == from@ && t == to@,
            (Request::HardLink { from, to }, Request::HardLink { from: f, to: t }) => f == from@ && t == to@,
            (Request::Copy { from, to }, Request::Copy { from: f, to: t }) => f == from@ && t == to@,
            (Request::OpenWalk { root, min_depth }, Request::OpenWalk { root: r, min_depth: d }) => r
                == root@ && d == min_depth,
            (Request::Symlink { target, at }, Request::Symlink { target: b, at: p }) => b == target@
                && p == at@,
            (Request::WriteZeros { path, len }, Request::WriteZeros { path: p, len: n }) => p == path@
                && n == len,
            (Request::WriteMarker { path, text }, Request::WriteMarker { path: p, text: b }) => p
                == path@ && b == text@,
            _ => false,
        },
{
}

/// What makes, changes or removes something does so at the path it names, at the
/// second of two. Everything else leaves the file system as it is.
pub proof fn law_what_a_request_changes(r: Asked)
    ensures
        match r {
            Request::CreateDirAll(p) => r.written() == Some(p),
            Request::RemoveFile(p) => r.written() == Some(p) && r.removes(),
            Request::RemoveDir(p) => r.written() == Some(p) && r.removes(),
            Request::RemoveDirAll(p) => r.written() == Some(p) && r.removes(),
            Request::Rename { to, .. } => r.written() == Some(to),
            Request::Reflink { to, .. } => r.written() == Some(to),
            Request::HardLink { to, .. } => r.written() == Some(to),
            Request::Copy { to, .. } => r.written() == Some(to),
            Request::Symlink { at, .. } => r.written() == Some(at),
            Request::WriteZeros { path, .. } => r.written() == Some(path),
            Request::WriteMarker { path, .. } => r.written() == Some(path),
            Request::SetMode(p) => r.written() == Some(p),
            Request::SetTimes(p) => r.written() == Some(p),
            _ => r.written() is None,
        },
        r.removes() <==> r is RemoveFile || r is RemoveDir || r is RemoveDirAll,
{
}

} // verus!
