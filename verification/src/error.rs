//! What can go wrong, and how it is put into words.

use crate::outside::{lossy_text, utf8_lossy};
use crate::path::{path_text, FsPath};
use serde_json::Error as JsonError;
use vstd::prelude::*;
use vstd::string::*;
use vstd::utf8::*;
use walkdir::Error as WalkError;

verus! {

/// Why a seeding or a search was refused, or stopped.
#[derive(Debug)]
#[allow(inconsistent_fields)]
pub enum Error {
    /// There is no target directory to seed from.
    SourceMissing(FsPath),
    /// The target directory to create is already there.
    DestinationExists(FsPath),
    /// A previous run left a partial tree behind.
    StagingExists(FsPath),
    /// Two runs were pointed at one staging path.
    StagingBusy(FsPath),
    /// Reading a target directory that a build is writing to yields a tree
    /// whose fingerprints and artifacts were captured at different moments, and
    /// Cargo reads that tree as fresh. Refused while the build holds its lock.
    SourceBusy { path: FsPath },
    /// The path has no parent directory to be created in.
    DestinationHasNoParent(FsPath),
    /// Walking the source while writing into it feeds the walk its own output,
    /// and what that fills is the disk. Refused rather than detected partway.
    DestinationInsideSource { src: FsPath, dest: FsPath },
    /// Neither a block clone nor a hard link crosses a file system boundary,
    /// and the copy that would remain is the one this exists to avoid.
    CrossDevice { src: FsPath, dest: FsPath },
    /// The operating system declined.
    Io { op: &'static str, path: FsPath, source: std::io::Error },
    /// A directory tree could not be walked.
    Walk { path: FsPath, source: WalkError },
    /// The staging marker could not be written.
    MarkerWrite { path: FsPath, source: JsonError },
    /// A file has the name of a staging marker and is none.
    MarkerUnreadable { path: FsPath, source: JsonError },
    /// A staging marker does not say what it is on.
    MarkerIncomplete(FsPath),
    /// There is no directory to search.
    PruneRootMissing(FsPath),
    /// `cargo metadata` could not be run.
    MetadataSpawn(std::io::Error),
    /// `cargo metadata` said that it failed.
    MetadataFailed(String),
    /// What `cargo metadata` printed is no JSON.
    MetadataParse(JsonError),
    /// What `cargo metadata` printed names no target directory.
    MetadataNoTargetDir,
}

/// A refusal of the operating system, and whether it was for want of the file.
#[derive(Debug)]
pub struct Failure {
    pub missing: bool,
    pub source: std::io::Error,
}

/// A path of that spelling as it is shown to a reader.
pub open spec fn shown(spelling: Seq<u8>) -> Seq<char> {
    utf8_lossy(spelling)
}

/// Shows a path to a reader: as it is spelled, where the spelling is text.
pub fn show(path: &FsPath) -> (r: String)
    ensures
        r@ == shown(path.spelling()),
        valid_utf8(path.spelling()) ==> shown(path.spelling()) == decode_utf8(path.spelling()),
{
    lossy_text(path.to_bytes().as_slice())
}

/// The error of an operation that the operating system declined.
pub open spec fn is_io(e: Error, op: &str, path: Seq<Seq<u8>>, f: Failure) -> bool {
    e matches Error::Io { op: said, path: at, source } && said@ == op@ && at@ == path && source
        == f.source
}

impl Error {
    /// Keeps the path and the verb with the failure.
    pub fn io(op: &'static str, path: FsPath, failure: Failure) -> (r: Error)
        ensures
            is_io(r, op, path@, failure),
    {
        Error::Io { op, path, source: failure.source }
    }

    /// The spelling of the path that the error is about, where it is about one.
    pub open spec fn subject(self) -> Seq<u8> {
        match self {
            Error::SourceMissing(path) => path.spelling(),
            Error::DestinationExists(path) => path.spelling(),
            Error::StagingExists(path) => path.spelling(),
            Error::StagingBusy(path) => path.spelling(),
            Error::SourceBusy { path } => path.spelling(),
            Error::DestinationHasNoParent(path) => path.spelling(),
            Error::DestinationInsideSource { dest, .. } => dest.spelling(),
            Error::CrossDevice { src, .. } => src.spelling(),
            Error::Io { path, .. } => path.spelling(),
            Error::Walk { path, .. } => path.spelling(),
            Error::MarkerWrite { path, .. } => path.spelling(),
            Error::MarkerUnreadable { path, .. } => path.spelling(),
            Error::MarkerIncomplete(path) => path.spelling(),
            Error::PruneRootMissing(path) => path.spelling(),
            _ => path_text(Seq::empty()),
        }
    }

    /// The spelling of the path that the other one is held against, where there is
    /// one.
    pub open spec fn object(self) -> Seq<u8> {
        match self {
            Error::DestinationInsideSource { src, .. } => src.spelling(),
            Error::CrossDevice { dest, .. } => dest.spelling(),
            _ => path_text(Seq::empty()),
        }
    }

    /// The error in words, with its paths shown as given; what it was caused by
    /// is left to the cause.
    pub open spec fn wording(self, path: Seq<char>, other: Seq<char>) -> Seq<char> {
        match self {
            Error::SourceMissing(_) => "no target directory at "@ + path,
            Error::DestinationExists(_) => path + " already exists"@,
            Error::StagingExists(_) => "a previous run left a partial tree at "@ + path
                + "; remove it and run again"@,
            Error::StagingBusy(_) => "another seeding holds "@ + path
                + "; give each run a staging directory of its own"@,
            Error::SourceBusy { .. } => "a build is running here: "@ + path
                + " is locked; seed between builds"@,
            Error::DestinationHasNoParent(_) => path + " has no parent directory to be created in"@,
            Error::DestinationInsideSource { .. } => path + " is inside "@ + other
                + ", which is the directory being read"@,
            Error::CrossDevice { .. } => path + " and "@ + other
                + " are on different filesystems, so there is nothing to share between them"@,
            Error::Io { op, .. } => op@ + " "@ + path,
            Error::Walk { .. } => "walking "@ + path,
            Error::MarkerWrite { .. } => "writing the staging marker "@ + path,
            Error::MarkerUnreadable { .. } => path + " is not a staging marker that can be read"@,
            Error::MarkerIncomplete(_) => path
                + " does not say what was being seeded, or where it was going"@,
            Error::PruneRootMissing(_) => "no directory to search at "@ + path,
            Error::MetadataSpawn(_) => "running `cargo metadata`"@,
            Error::MetadataFailed(said) => "`cargo metadata` failed: "@ + said@,
            Error::MetadataParse(_) => "reading the output of `cargo metadata`"@,
            Error::MetadataNoTargetDir => "`cargo metadata` reported no target directory"@,
        }
    }

    /// Puts the error into words.
    pub fn message(&self) -> (r: String)
        ensures
            r@ == self.wording(shown(self.subject()), shown(self.object())),
    {
        let empty = FsPath::empty();
        assert(empty@ =~= Seq::<Seq<u8>>::empty());
        let (subject, object) = match self {
            Error::SourceMissing(path) => (path, &empty),
            Error::DestinationExists(path) => (path, &empty),
            Error::StagingExists(path) => (path, &empty),
            Error::StagingBusy(path) => (path, &empty),
            Error::SourceBusy { path } => (path, &empty),
            Error::DestinationHasNoParent(path) => (path, &empty),
            Error::DestinationInsideSource { src, dest } => (dest, src),
            Error::CrossDevice { src, dest } => (src, dest),
            Error::Io { path, .. } => (path, &empty),
            Error::Walk { path, .. } => (path, &empty),
            Error::MarkerWrite { path, .. } => (path, &empty),
            Error::MarkerUnreadable { path, .. } => (path, &empty),
            Error::MarkerIncomplete(path) => (path, &empty),
            Error::PruneRootMissing(path) => (path, &empty),
            _ => (&empty, &empty),
        };
        self.worded(show(subject).as_str(), show(object).as_str())
    }

    /// Puts the error into words, with its paths shown as given.
    pub fn worded(&self, path: &str, other: &str) -> (r: String)
        ensures
            r@ == self.wording(path@, other@),
    {
        proof {
            reveal_strlit("");
        }
        match self {
            Error::SourceMissing(_) => sentence("no target directory at ", path, ""),
            Error::DestinationExists(_) => sentence("", path, " already exists"),
            Error::StagingExists(_) => sentence(
                "a previous run left a partial tree at ",
                path,
                "; remove it and run again",
            ),
            Error::StagingBusy(_) => sentence(
                "another seeding holds ",
                path,
                "; give each run a staging directory of its own",
            ),
            Error::SourceBusy { .. } => sentence(
                "a build is running here: ",
                path,
                " is locked; seed between builds",
            ),
            Error::DestinationHasNoParent(_) => sentence(
                "",
                path,
                " has no parent directory to be created in",
            ),
            Error::DestinationInsideSource { .. } => {
                let mut text = String::from_str(path);
                text.append(" is inside ");
                text.append(other);
                text.append(", which is the directory being read");
                text
            },
            Error::CrossDevice { .. } => {
                let mut text = String::from_str(path);
                text.append(" and ");
                text.append(other);
                text.append(
                    " are on different filesystems, so there is nothing to share between them",
                );
                text
            },
            Error::Io { op, .. } => {
                let mut text = String::from_str(op);
                text.append(" ");
                text.append(path);
                text
            },
            Error::Walk { .. } => sentence("walking ", path, ""),
            Error::MarkerWrite { .. } => sentence("writing the staging marker ", path, ""),
            Error::MarkerUnreadable { .. } => sentence(
                "",
                path,
                " is not a staging marker that can be read",
            ),
            Error::MarkerIncomplete(_) => sentence(
                "",
                path,
                " does not say what was being seeded, or where it was going",
            ),
            Error::PruneRootMissing(_) => sentence("no directory to search at ", path, ""),
            Error::MetadataSpawn(_) => String::from_str("running `cargo metadata`"),
            Error::MetadataFailed(said) => {
                let mut text = String::from_str("`cargo metadata` failed: ");
                text.append(said.as_str());
                text
            },
            Error::MetadataParse(_) => String::from_str("reading the output of `cargo metadata`"),
            Error::MetadataNoTargetDir => String::from_str(
                "`cargo metadata` reported no target directory",
            ),
        }
    }
}

fn sentence(before: &str, path: &str, after: &str) -> (r: String)
    ensures
        r@ == before@ + path@ + after@,
        before@.len() == 0 ==> r@ == path@ + after@,
        after@.len() == 0 ==> r@ == before@ + path@,
{
    let mut text = String::from_str(before);
    text.append(path);
    text.append(after);
    assert(before@.len() == 0 ==> text@ =~= path@ + after@);
    assert(after@.len() == 0 ==> text@ =~= before@ + path@);
    text
}

} // verus!
