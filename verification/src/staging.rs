//! The note a staged tree carries while it is being built.
//!
//! What makes an interrupted seeding harmless is that the staged tree is not
//! named `target`: Cargo never reads it. What makes it invisible afterwards is
//! the same fact. So the tree says what it is from the inside: the marker is
//! written before the first file, travels with the rename, and is removed once
//! the tree has landed.
//!
//! It also says whether the run that made it is still going, and says it the
//! way Cargo does: by holding a lock rather than by writing down a fact that
//! then goes stale.

use crate::error::{is_io, show, shown, Error, Failure};
use crate::outside::{
    empty_object, json_of, json_parse, json_pretty, member, number_of, number_value, parse, put,
    text_of, text_value, to_pretty, Json,
};
use crate::path::{copy_bytes, os, path_parts, FsPath};
use crate::protocol::{
    marker_open, Answer, Ask, Asked, Events, FileId, Lock, Platform, Request, Step, Written,
};
use vstd::prelude::*;
use vstd::string::*;
use vstd::utf8::*;

verus! {

/// The marker's name, at the root of the staged tree.
///
/// Inside rather than beside it: a marker beside the tree is a second thing to
/// leave behind.
pub const MARKER: &'static str = ".cargo-shared-target-staging";

/// The version of this crate, which a marker records.
pub const TOOL_VERSION: &'static str = "0.1.0";

/// The version of the form that a marker is written in.
pub const MARKER_FORMAT: u64 = 1;

/// What a staged tree says about the run that was building it.
#[derive(Debug, Clone)]
pub struct Marker {
    /// The target directory it was being seeded from.
    pub src: FsPath,
    /// Where it was going to be renamed to.
    pub dest: FsPath,
    /// The process that was writing it. Reported rather than tested: see
    /// [`claim`], which asks the kernel instead.
    pub pid: u32,
    /// When, in seconds since the epoch.
    pub started_at: u64,
    /// The version of this crate that wrote it.
    pub version: String,
}

/// A marker as contracts speak of it.
pub struct MarkerView {
    pub src: Seq<Seq<u8>>,
    pub dest: Seq<Seq<u8>>,
    pub pid: u32,
    pub started_at: u64,
    pub version: Seq<char>,
}

impl Marker {
    /// What the marker says.
    pub open spec fn view(&self) -> MarkerView {
        MarkerView {
            src: self.src@,
            dest: self.dest@,
            pid: self.pid,
            started_at: self.started_at,
            version: self.version@,
        }
    }
}

/// The document that a marker is written as.
pub open spec fn marker_json(
    src: Seq<u8>,
    dest: Seq<u8>,
    pid: u32,
    started_at: u64,
) -> Json {
    Json::Object(
        Map::empty().insert("version"@, Json::Number(MARKER_FORMAT)).insert(
            "tool_version"@,
            Json::Text(TOOL_VERSION@),
        ).insert("src"@, Json::Text(shown(src))).insert("dest"@, Json::Text(shown(dest))).insert(
            "pid"@,
            Json::Number(pid as u64),
        ).insert("started_at"@, Json::Number(started_at)),
    )
}

/// The text of a member; nothing where there is none, or it is no text.
pub open spec fn text_member(document: Json, key: Seq<char>) -> Option<Seq<char>> {
    match document {
        Json::Object(members) if members.contains_key(key) => match members[key] {
            Json::Text(text) => Some(text),
            _ => None,
        },
        _ => None,
    }
}

/// The number that a member is; nothing where there is none, or it is no
/// number.
pub open spec fn number_member(document: Json, key: Seq<char>) -> Option<u64> {
    match document {
        Json::Object(members) if members.contains_key(key) => match members[key] {
            Json::Number(n) => Some(n),
            _ => None,
        },
        _ => None,
    }
}

/// The members of a document that make a marker, as far as it has them.
#[derive(Debug)]
pub struct MarkerFields {
    pub src: Option<String>,
    pub dest: Option<String>,
    pub pid: Option<u64>,
    pub started_at: Option<u64>,
    pub tool_version: Option<String>,
}

/// The text of a field that need not be there.
pub open spec fn text_field(field: Option<String>) -> Option<Seq<char>> {
    match field {
        Some(text) => Some(text@),
        None => None,
    }
}

/// What the members of a document say as a marker. Without what was being
/// seeded and where it was going they say nothing; a process and a time that
/// are not given are zero.
pub open spec fn fields_told(
    src: Option<Seq<char>>,
    dest: Option<Seq<char>>,
    pid: Option<u64>,
    started_at: Option<u64>,
    version: Option<Seq<char>>,
) -> Option<MarkerView> {
    match (src, dest) {
        (Some(src), Some(dest)) => Some(
            MarkerView {
                src: path_parts(encode_utf8(src)),
                dest: path_parts(encode_utf8(dest)),
                pid: match pid {
                    Some(n) => n as u32,
                    None => 0,
                },
                started_at: match started_at {
                    Some(n) => n,
                    None => 0,
                },
                version: match version {
                    Some(version) => version,
                    None => "unknown"@,
                },
            },
        ),
        _ => None,
    }
}

/// What a document says as a marker.
pub open spec fn marker_told(document: Json) -> Option<MarkerView> {
    fields_told(
        text_member(document, "src"@),
        text_member(document, "dest"@),
        number_member(document, "pid"@),
        number_member(document, "started_at"@),
        text_member(document, "tool_version"@),
    )
}


/// What is written in a marker is what a seeding of `src` to `dest` has to say,
/// and is read back as that where both paths are spelled in text.
pub open spec fn tells(
    text: Seq<u8>,
    src: Seq<u8>,
    dest: Seq<u8>,
    pid: u32,
    now: u64,
) -> bool {
    &&& text == json_pretty(marker_json(src, dest, pid, now))
    &&& json_parse(text) == Some(marker_json(src, dest, pid, now))
    &&& valid_utf8(src) && valid_utf8(dest) ==> marker_told(json_parse(text)->0) == Some(
        MarkerView {
            src: path_parts(src),
            dest: path_parts(dest),
            pid,
            started_at: now,
            version: TOOL_VERSION@,
        },
    )
}

/// The seconds since the epoch; none for a clock that stands before it.
pub fn seconds_since_epoch(since: Option<u64>) -> (r: u64)
    ensures
        r == match since {
            Some(seconds) => seconds,
            None => 0,
        },
{
    match since {
        Some(seconds) => seconds,
        None => 0,
    }
}

fn get_text(document: &serde_json::Value, key: &str) -> (r: Option<String>)
    ensures
        r is Some == text_member(json_of(*document), key@) is Some,
        r matches Some(text) ==> text_member(json_of(*document), key@) == Some(text@),
{
    match member(document, key) {
        Some(value) => match text_of(value) {
            Some(text) => Some(String::from_str(text)),
            None => None,
        },
        None => None,
    }
}

fn get_number(document: &serde_json::Value, key: &str) -> (r: Option<u64>)
    ensures
        r == number_member(json_of(*document), key@),
{
    match member(document, key) {
        Some(value) => number_of(value),
        None => None,
    }
}

/// The text of the member `key` of the document that `text` spells: what is
/// wrong with the text, or the member where there is one and it is text.
pub(crate) fn read_text_member(text: &[u8], key: &str) -> (r: Result<
    Option<String>,
    serde_json::Error,
>)
    ensures
        r is Ok == json_parse(text@) is Some,
        r matches Ok(found) ==> {
            &&& found is Some == text_member(json_parse(text@)->0, key@) is Some
            &&& found matches Some(said) ==> text_member(json_parse(text@)->0, key@) == Some(said@)
        },
{
    match parse(text) {
        Ok(document) => Ok(get_text(&document, key)),
        Err(e) => Err(e),
    }
}

/// What is made of what came of reading the marker at `path`.
pub open spec fn is_read(
    path: Seq<Seq<u8>>,
    contents: Result<Vec<u8>, Failure>,
    r: Result<Marker, Error>,
) -> bool {
    match contents {
        Err(f) => r matches Err(e) && is_io(e, "reading the staging marker", path, f),
        Ok(text) => match json_parse(text@) {
            None => r matches Err(Error::MarkerUnreadable { path: p, .. }) && p@ == path,
            Some(document) => match marker_told(document) {
                None => r matches Err(Error::MarkerIncomplete(p)) && p@ == path,
                Some(told) => r matches Ok(marker) && marker@ == told,
            },
        },
    }
}

/// Reads what the marker at `path` says, from what came of reading the file.
///
/// A marker that cannot be parsed is an error rather than a reason to treat the
/// tree as ordinary: something wrote a file by that name.
pub fn read(path: &FsPath, contents: Result<Vec<u8>, Failure>) -> (r: Result<Marker, Error>)
    ensures
        is_read(path@, contents, r),
{
    let text = match contents {
        Ok(text) => text,
        Err(f) => {
            return Err(Error::io("reading the staging marker", path.clone(), f));
        },
    };
    let document = match parse(text.as_slice()) {
        Ok(document) => document,
        Err(source) => {
            return Err(Error::MarkerUnreadable { path: path.clone(), source });
        },
    };
    from_fields(
        path,
        MarkerFields {
            src: get_text(&document, "src"),
            dest: get_text(&document, "dest"),
            pid: get_number(&document, "pid"),
            started_at: get_number(&document, "started_at"),
            tool_version: get_text(&document, "tool_version"),
        },
    )
}

/// The marker at `path` that has these fields.
pub fn from_fields(path: &FsPath, fields: MarkerFields) -> (r: Result<Marker, Error>)
    ensures
        match fields_told(
            text_field(fields.src),
            text_field(fields.dest),
            fields.pid,
            fields.started_at,
            text_field(fields.tool_version),
        ) {
            None => r matches Err(Error::MarkerIncomplete(p)) && p@ == path@,
            Some(told) => r matches Ok(marker) && marker@ == told,
        },
{
    match (fields.src, fields.dest) {
        (Some(src), Some(dest)) => Ok(
            Marker {
                src: FsPath::parse(src.as_str().as_bytes()),
                dest: FsPath::parse(dest.as_str().as_bytes()),
                pid: match fields.pid {
                    Some(n) => n as u32,
                    None => 0,
                },
                started_at: match fields.started_at {
                    Some(n) => n,
                    None => 0,
                },
                version: match fields.tool_version {
                    Some(version) => version,
                    None => String::from_str("unknown"),
                },
            },
        ),
        _ => Err(Error::MarkerIncomplete(path.clone())),
    }
}

fn body(src: &FsPath, dest: &FsPath, pid: u32, now: u64) -> (r: Vec<u8>)
    ensures
        tells(r@, src.spelling(), dest.spelling(), pid, now),
{
    let mut document = empty_object();
    put(&mut document, "version", number_value(MARKER_FORMAT));
    put(&mut document, "tool_version", text_value(TOOL_VERSION));
    put(&mut document, "src", text_value(show(src).as_str()));
    put(&mut document, "dest", text_value(show(dest).as_str()));
    put(&mut document, "pid", number_value(pid as u64));
    put(&mut document, "started_at", number_value(now));
    proof {
        lemma_keys_differ();
        let told = marker_told(marker_json(src.spelling(), dest.spelling(), pid, now))->0;
        if valid_utf8(src.spelling()) && valid_utf8(dest.spelling()) {
            decode_utf8_encode_utf8(src.spelling());
            decode_utf8_encode_utf8(dest.spelling());
            assert((pid as u64) as u32 == pid);
            assert(told.src == path_parts(src.spelling()));
            assert(told.dest == path_parts(dest.spelling()));
        }
    }
    to_pretty(&document).unwrap()
}

proof fn lemma_keys_differ()
    ensures
        "version"@.len() == 7,
        "tool_version"@.len() == 12,
        "src"@.len() == 3,
        "dest"@.len() == 4,
        "pid"@.len() == 3,
        "started_at"@.len() == 10,
        "src"@ != "pid"@,
{
    reveal_strlit("version");
    reveal_strlit("tool_version");
    reveal_strlit("src");
    reveal_strlit("dest");
    reveal_strlit("pid");
    reveal_strlit("started_at");
    assert("src"@[0] != "pid"@[0]);
}

/// What a seeding writes into its marker is what is read out of it, where both
/// paths are spelled in text.
pub proof fn law_what_is_written_is_read_back(
    text: Vec<u8>,
    src: Seq<u8>,
    dest: Seq<u8>,
    pid: u32,
    now: u64,
    path: Seq<Seq<u8>>,
    r: Result<Marker, Error>,
)
    requires
        valid_utf8(src),
        valid_utf8(dest),
        tells(text@, src, dest, pid, now),
        is_read(path, Ok(text), r),
    ensures
        r matches Ok(marker) && marker@ == (MarkerView {
            src: path_parts(src),
            dest: path_parts(dest),
            pid,
            started_at: now,
            version: TOOL_VERSION@,
        }),
{
}

/// A marker that is on a tree, and locked.
#[derive(Debug)]
pub struct Held {
    pub path: FsPath,
}

impl Held {
    /// The marker file this is holding.
    pub fn path(&self) -> (r: &FsPath)
        ensures
            *r == self.path,
    {
        &self.path
    }

    /// Starts removing the marker from `tree`, which is what turns a staged
    /// tree into a finished one.
    ///
    /// Taken from wherever the tree has ended up rather than from where it was
    /// written, because the marker travels with the rename. Removing it first
    /// and renaming afterwards would leave, where the rename fails, a tree with
    /// nothing in it to say what it is.
    pub fn release(self, tree: &FsPath) -> (r: Releasing)
        ensures
            r.path@ == tree@.push(os(MARKER)),
            r.stage is Remove,
    {
        Releasing { path: tree.join(MARKER), stage: ReleaseStage::Remove }
    }
}

/// Removing a marker, and letting go of it.
#[derive(Debug)]
pub struct Releasing {
    pub path: FsPath,
    pub stage: ReleaseStage,
}

/// How far the removal has come.
#[derive(Debug)]
pub enum ReleaseStage {
    Remove,
    /// Letting go of the lock, whatever became of the file.
    Close { came: Result<(), Error> },
}

/// What becomes of removing a marker when it is answered.
pub type ReleaseStep = Step<Releasing, Result<(), Error>>;

impl Releasing {
    /// What is asked next.
    pub open spec fn asked(self) -> Asked {
        match self.stage {
            ReleaseStage::Remove => Request::RemoveFile(self.path@),
            ReleaseStage::Close { .. } => Request::CloseMarker,
        }
    }

    /// The file is as it is, and the lock is to be let go of.
    pub open spec fn closes(self, came: Result<(), Error>) -> ReleaseStep {
        Step::Ask(Releasing { stage: ReleaseStage::Close { came }, ..self })
    }

    /// What becomes of the removal when it is answered. A marker already gone
    /// is not a failure: a search that sees it sitting in the directory that it
    /// names as its own destination clears it as well.
    pub open spec fn next(self, a: Answer, o: ReleaseStep) -> bool {
        match (self.stage, a) {
            (ReleaseStage::Remove, Answer::Done(Ok(_))) => o == self.closes(Ok(())),
            (ReleaseStage::Remove, Answer::Done(Err(f))) => if f.missing {
                o == self.closes(Ok(()))
            } else {
                &&& o matches Step::Ask(t)
                &&& t.path@ == self.path@
                &&& t.stage matches ReleaseStage::Close { came: Err(e) }
                &&& is_io(e, "removing the staging marker", self.path@, f)
            },
            (ReleaseStage::Close { came }, Answer::Done(_)) => o == ReleaseStep::Done(came),
            _ => o == ReleaseStep::Ask(self),
        }
    }

    /// What is to be done next.
    pub fn request(&self) -> (r: Ask)
        ensures
            r@ == self.asked(),
    {
        match self.stage {
            ReleaseStage::Remove => Request::RemoveFile(self.path.clone()),
            ReleaseStage::Close { .. } => Request::CloseMarker,
        }
    }

    /// Takes in what came of it.
    pub fn step(self, a: Answer) -> (o: ReleaseStep)
        ensures
            self.next(a, o),
    {
        let Releasing { path, stage } = self;
        match (stage, a) {
            (ReleaseStage::Remove, Answer::Done(Ok(_))) => Step::Ask(
                Releasing { path, stage: ReleaseStage::Close { came: Ok(()) } },
            ),
            (ReleaseStage::Remove, Answer::Done(Err(f))) => {
                let came = if f.missing {
                    Ok(())
                } else {
                    Err(Error::io("removing the staging marker", path.clone(), f))
                };
                Step::Ask(Releasing { path, stage: ReleaseStage::Close { came } })
            },
            (ReleaseStage::Close { came }, Answer::Done(_)) => Step::Done(came),
            (same, _) => Step::Ask(Releasing { path, stage: same }),
        }
    }
}

impl Releasing {
    /// The removal can be told that, and becomes `o`.
    pub open spec fn moves(self, event: (Asked, Answer), o: ReleaseStep) -> bool {
        event.0 == self.asked() && event.0.fits(event.1) && self.next(event.1, o)
    }
}

/// A marker is let go of by asking for two things: that the file is removed, and
/// that it is closed, whatever became of the first. The removal ends well if and
/// only if the file is gone.
pub proof fn law_a_release_lets_go(
    s: Releasing,
    first: Answer,
    o: ReleaseStep,
    second: Answer,
    p: ReleaseStep,
)
    requires
        s.stage is Remove,
        s.moves((Request::RemoveFile(s.path@), first), o),
        o matches Step::Ask(t) ==> t.moves((Request::CloseMarker, second), p),
    ensures
        o matches Step::Ask(t) && t.asked() is CloseMarker,
        p matches Step::Done(came) && (came is Ok == (first matches Answer::Done(removed) && (
        removed matches Err(f) ==> f.missing))),
{
}

/// Writing the marker into a staging directory and taking the lock on it.
#[derive(Debug)]
pub struct Marking {
    pub staging: FsPath,
    pub path: FsPath,
    pub text: Vec<u8>,
    pub stage: MarkStage,
}

/// How far the marking has come.
#[derive(Debug)]
pub enum MarkStage {
    MakeDir,
    Write,
    TakeLock,
    /// Letting go of a marker whose lock could not be taken.
    Close { error: Error },
}

/// What becomes of the marking when it is answered.
pub type MarkStep = Step<Marking, Result<Held, Error>>;

/// Starts writing the marker into `staging` and taking the lock on it, for the
/// process `pid` at the time `now`.
///
/// Public because the staging is the caller's to arrange: a caller filling a
/// tree its own way owes the same note to whoever comes looking afterwards.
///
/// What is written is read back as what it says, where both paths are spelled
/// in text.
pub fn mark(staging: &FsPath, src: &FsPath, dest: &FsPath, pid: u32, now: u64) -> (r: Marking)
    ensures
        r.staging@ == staging@,
        r.path@ == staging@.push(os(MARKER)),
        tells(r.text@, src.spelling(), dest.spelling(), pid, now),
        r.stage is MakeDir,
{
    Marking {
        staging: staging.clone(),
        path: staging.join(MARKER),
        text: body(src, dest, pid, now),
        stage: MarkStage::MakeDir,
    }
}

impl Marking {
    /// What is asked next.
    pub open spec fn asked(self) -> Asked {
        match self.stage {
            MarkStage::MakeDir => Request::CreateDirAll(self.staging@),
            MarkStage::Write => Request::WriteMarker { path: self.path@, text: self.text@ },
            MarkStage::TakeLock => Request::LockMarker(self.path@),
            MarkStage::Close { .. } => Request::CloseMarker,
        }
    }

    /// An error that the marking has met is about the lock.
    pub open spec fn wf(self) -> bool {
        self.stage matches MarkStage::Close { error } ==> error is StagingBusy || error is Io
    }

    /// The lock could not be taken, so the marker is let go of.
    pub open spec fn closes(self, o: MarkStep) -> bool {
        &&& o matches Step::Ask(t)
        &&& t.staging == self.staging
        &&& t.path@ == self.path@
        &&& t.text == self.text
        &&& t.stage is Close
    }

    /// What becomes of the marking when it is answered.
    pub open spec fn next(self, a: Answer, o: MarkStep) -> bool {
        match (self.stage, a) {
            (MarkStage::MakeDir, Answer::Done(Ok(_))) => o == MarkStep::Ask(
                Marking { stage: MarkStage::Write, ..self },
            ),
            (MarkStage::MakeDir, Answer::Done(Err(f))) => o matches Step::Done(Err(e)) && is_io(
                e,
                "creating",
                self.staging@,
                f,
            ),
            (MarkStage::Write, Answer::Written(Written::Done)) => o == MarkStep::Ask(
                Marking { stage: MarkStage::TakeLock, ..self },
            ),
            (MarkStage::Write, Answer::Written(Written::Unopened(f))) => o matches Step::Done(
                Err(e),
            ) && is_io(e, "writing the staging marker", self.path@, f),
            (MarkStage::Write, Answer::Written(Written::Failed(source))) => o == MarkStep::Done(
                Err(Error::MarkerWrite { path: self.path, source }),
            ),
            (MarkStage::TakeLock, Answer::Lock(Lock::Taken)) => o == MarkStep::Done(
                Ok(Held { path: self.path }),
            ),
            (MarkStage::TakeLock, Answer::Lock(Lock::Unsupported)) => o == MarkStep::Done(
                Ok(Held { path: self.path }),
            ),
            (MarkStage::TakeLock, Answer::Lock(Lock::Busy)) => {
                &&& self.closes(o)
                &&& o->Ask_0.stage matches MarkStage::Close { error: Error::StagingBusy(path) }
                &&& path@ == self.path@
            },
            (MarkStage::TakeLock, Answer::Lock(Lock::Failed(f))) => {
                &&& self.closes(o)
                &&& o->Ask_0.stage matches MarkStage::Close { error }
                &&& is_io(error, "locking", self.path@, f)
            },
            (MarkStage::Close { error }, Answer::Done(_)) => o == MarkStep::Done(Err(error)),
            _ => o == MarkStep::Ask(self),
        }
    }

    /// What is to be done next.
    pub fn request(&self) -> (r: Ask)
        ensures
            r@ == self.asked(),
    {
        match self.stage {
            MarkStage::MakeDir => Request::CreateDirAll(self.staging.clone()),
            MarkStage::Write => Request::WriteMarker {
                path: self.path.clone(),
                text: copy_bytes(self.text.as_slice()),
            },
            MarkStage::TakeLock => Request::LockMarker(self.path.clone()),
            MarkStage::Close { .. } => Request::CloseMarker,
        }
    }

    /// Takes in what came of it.
    pub fn step(self, a: Answer) -> (o: MarkStep)
        ensures
            self.next(a, o),
    {
        let Marking { staging, path, text, stage } = self;
        match (stage, a) {
            (MarkStage::MakeDir, Answer::Done(Ok(_))) => Step::Ask(
                Marking { staging, path, text, stage: MarkStage::Write },
            ),
            (MarkStage::MakeDir, Answer::Done(Err(f))) => Step::Done(
                Err(Error::io("creating", staging, f)),
            ),
            (MarkStage::Write, Answer::Written(Written::Done)) => Step::Ask(
                Marking { staging, path, text, stage: MarkStage::TakeLock },
            ),
            (MarkStage::Write, Answer::Written(Written::Unopened(f))) => Step::Done(
                Err(Error::io("writing the staging marker", path, f)),
            ),
            (MarkStage::Write, Answer::Written(Written::Failed(source))) => Step::Done(
                Err(Error::MarkerWrite { path, source }),
            ),
            (MarkStage::TakeLock, Answer::Lock(Lock::Taken)) => Step::Done(Ok(Held { path })),
            (MarkStage::TakeLock, Answer::Lock(Lock::Unsupported)) => Step::Done(Ok(Held { path })),
            (MarkStage::TakeLock, Answer::Lock(Lock::Busy)) => {
                let error = Error::StagingBusy(path.clone());
                Step::Ask(Marking { staging, path, text, stage: MarkStage::Close { error } })
            },
            (MarkStage::TakeLock, Answer::Lock(Lock::Failed(f))) => {
                let error = Error::io("locking", path.clone(), f);
                Step::Ask(Marking { staging, path, text, stage: MarkStage::Close { error } })
            },
            (MarkStage::Close { error }, Answer::Done(_)) => Step::Done(Err(error)),
            (same, _) => Step::Ask(Marking { staging, path, text, stage: same }),
        }
    }
}

/// What holding the lock on a marker found.
#[derive(Debug)]
pub enum Claim {
    /// A seeding is running: something else holds the lock.
    Building,
    /// Nothing holds the lock. Whatever was writing this tree is gone, and the
    /// lock stays held, so that a seeding cannot start here while the tree is
    /// being removed.
    Abandoned(Held),
    /// The marker was gone by the time the lock was taken: the run finished and
    /// renamed its tree into place in between.
    Finished,
    /// Whether a run is still going could not be established on this platform.
    Undecidable,
}

/// Asking whether the run that made a tree is still going.
#[derive(Debug)]
pub struct Claiming {
    pub path: FsPath,
    pub stage: ClaimStage,
}

/// How far the asking has come.
#[derive(Debug)]
pub enum ClaimStage {
    Open,
    TakeLock,
    /// Taking the lock says nothing about what it is a lock on: a file without
    /// a name is locked as well.
    WhichIsHeld,
    WhichIsThere { held: FileId },
    /// Letting go of a marker that is not to be kept.
    Close { came: Result<Claim, Error> },
    /// Without locks, only whether the marker is there.
    IsThere,
}

/// What becomes of the asking when it is answered.
pub type ClaimStep = Step<Claiming, Result<Claim, Error>>;

/// Starts asking whether the run that made the tree with the marker at `path`
/// is still going, by trying to take the lock it would be holding.
///
/// The lock is kept when the answer is that nothing holds it, because the gap
/// between asking and acting is the whole problem.
pub fn claim(path: &FsPath, platform: Platform) -> (r: Claiming)
    ensures
        r.path@ == path@,
        r.stage == (if platform == Platform::Unix {
            ClaimStage::Open
        } else {
            ClaimStage::IsThere
        }),
{
    Claiming {
        path: path.clone(),
        stage: if platform == Platform::Unix {
            ClaimStage::Open
        } else {
            ClaimStage::IsThere
        },
    }
}

impl Claiming {
    /// What is asked next.
    pub open spec fn asked(self) -> Asked {
        match self.stage {
            ClaimStage::Open => Request::OpenMarker(self.path@),
            ClaimStage::TakeLock => Request::LockMarker(self.path@),
            ClaimStage::WhichIsHeld => Request::MarkerIdentity(self.path@),
            ClaimStage::WhichIsThere { .. } => Request::Identity(self.path@),
            ClaimStage::Close { .. } => Request::CloseMarker,
            ClaimStage::IsThere => Request::IsFile(self.path@),
        }
    }

    /// The asking at another stage.
    pub open spec fn at(self, stage: ClaimStage) -> ClaimStep {
        Step::Ask(Claiming { stage, ..self })
    }

    /// A marker that is let go of is not one that is held on to.
    pub open spec fn wf(self) -> bool {
        self.stage matches ClaimStage::Close { came: Ok(claim) } ==> claim is Building
            || claim is Finished
    }

    /// The asking came to that conclusion, and lets go of the marker.
    pub open spec fn closes(self, claim: Claim) -> ClaimStep {
        self.at(ClaimStage::Close { came: Ok(claim) })
    }

    /// The asking was stopped by a failure, and lets go of the marker.
    pub open spec fn closes_on(self, op: &str, f: Failure, o: ClaimStep) -> bool {
        &&& o matches Step::Ask(t)
        &&& t.path@ == self.path@
        &&& t.stage matches ClaimStage::Close { came: Err(e) }
        &&& is_io(e, op, self.path@, f)
    }

    /// The asking came to that conclusion.
    pub open spec fn found(self, claim: Claim) -> ClaimStep {
        Step::Done(Ok(claim))
    }

    /// What becomes of the asking when it is answered.
    pub open spec fn next(self, a: Answer, o: ClaimStep) -> bool {
        match (self.stage, a) {
            (ClaimStage::Open, Answer::Done(Ok(_))) => o == self.at(ClaimStage::TakeLock),
            (ClaimStage::Open, Answer::Done(Err(f))) => if f.missing {
                o == self.found(Claim::Finished)
            } else {
                o matches Step::Done(Err(e)) && is_io(e, "opening the staging marker", self.path@, f)
            },
            (ClaimStage::TakeLock, Answer::Lock(Lock::Taken)) => o == self.at(
                ClaimStage::WhichIsHeld,
            ),
            (ClaimStage::TakeLock, Answer::Lock(Lock::Busy)) => o == self.closes(Claim::Building),
            (ClaimStage::TakeLock, Answer::Lock(Lock::Failed(f))) => self.closes_on(
                "locking",
                f,
                o,
            ),
            (ClaimStage::WhichIsHeld, Answer::Identity(Ok(held))) => o == self.at(
                ClaimStage::WhichIsThere { held },
            ),
            (ClaimStage::WhichIsHeld, Answer::Identity(Err(f))) => self.closes_on(
                "reading the staging marker",
                f,
                o,
            ),
            (ClaimStage::WhichIsThere { held }, Answer::Identity(Ok(there))) => if there == held {
                o == self.found(Claim::Abandoned(Held { path: self.path }))
            } else {
                o == self.closes(Claim::Finished)
            },
            (ClaimStage::WhichIsThere { .. }, Answer::Identity(Err(f))) => if f.missing {
                o == self.closes(Claim::Finished)
            } else {
                self.closes_on("reading the staging marker", f, o)
            },
            (ClaimStage::Close { came }, Answer::Done(_)) => o == ClaimStep::Done(came),
            (ClaimStage::IsThere, Answer::Flag(there)) => o == self.found(
                if there {
                    Claim::Undecidable
                } else {
                    Claim::Finished
                },
            ),
            _ => o == ClaimStep::Ask(self),
        }
    }

    /// What is to be done next.
    pub fn request(&self) -> (r: Ask)
        ensures
            r@ == self.asked(),
    {
        let path = self.path.clone();
        match self.stage {
            ClaimStage::Close { .. } => Request::CloseMarker,
            ClaimStage::Open => Request::OpenMarker(path),
            ClaimStage::TakeLock => Request::LockMarker(path),
            ClaimStage::WhichIsHeld => Request::MarkerIdentity(path),
            ClaimStage::WhichIsThere { .. } => Request::Identity(path),
            ClaimStage::IsThere => Request::IsFile(path),
        }
    }

    /// Takes in what came of it.
    pub fn step(self, a: Answer) -> (o: ClaimStep)
        ensures
            self.next(a, o),
    {
        let Claiming { path, stage } = self;
        match (stage, a) {
            (ClaimStage::Open, Answer::Done(Ok(_))) => Step::Ask(
                Claiming { path, stage: ClaimStage::TakeLock },
            ),
            (ClaimStage::Open, Answer::Done(Err(f))) => {
                if f.missing {
                    Step::Done(Ok(Claim::Finished))
                } else {
                    Step::Done(Err(Error::io("opening the staging marker", path, f)))
                }
            },
            (ClaimStage::TakeLock, Answer::Lock(Lock::Taken)) => Step::Ask(
                Claiming { path, stage: ClaimStage::WhichIsHeld },
            ),
            (ClaimStage::TakeLock, Answer::Lock(Lock::Busy)) => Step::Ask(
                Claiming { path, stage: ClaimStage::Close { came: Ok(Claim::Building) } },
            ),
            (ClaimStage::TakeLock, Answer::Lock(Lock::Failed(f))) => {
                let came = Err(Error::io("locking", path.clone(), f));
                Step::Ask(Claiming { path, stage: ClaimStage::Close { came } })
            },
            (ClaimStage::WhichIsHeld, Answer::Identity(Ok(held))) => Step::Ask(
                Claiming { path, stage: ClaimStage::WhichIsThere { held } },
            ),
            (ClaimStage::WhichIsHeld, Answer::Identity(Err(f))) => {
                let came = Err(Error::io("reading the staging marker", path.clone(), f));
                Step::Ask(Claiming { path, stage: ClaimStage::Close { came } })
            },
            (ClaimStage::WhichIsThere { held }, Answer::Identity(Ok(there))) => {
                if there == held {
                    Step::Done(Ok(Claim::Abandoned(Held { path })))
                } else {
                    Step::Ask(
                        Claiming { path, stage: ClaimStage::Close { came: Ok(Claim::Finished) } },
                    )
                }
            },
            (ClaimStage::WhichIsThere { .. }, Answer::Identity(Err(f))) => {
                let came = if f.missing {
                    Ok(Claim::Finished)
                } else {
                    Err(Error::io("reading the staging marker", path.clone(), f))
                };
                Step::Ask(Claiming { path, stage: ClaimStage::Close { came } })
            },
            (ClaimStage::Close { came }, Answer::Done(_)) => Step::Done(came),
            (ClaimStage::IsThere, Answer::Flag(there)) => {
                if there {
                    Step::Done(Ok(Claim::Undecidable))
                } else {
                    Step::Done(Ok(Claim::Finished))
                }
            },
            (same, _) => Step::Ask(Claiming { path, stage: same }),
        }
    }
}

impl Marking {
    /// The marking can be told that, and becomes `o`.
    pub open spec fn moves(self, event: (Asked, Answer), o: MarkStep) -> bool {
        event.0 == self.asked() && event.0.fits(event.1) && self.next(event.1, o)
    }
}

/// What a marking that starts as `s` has become after all that.
pub open spec fn marks(s: Marking, events: Events, o: MarkStep) -> bool
    decreases events.len(),
{
    if events.len() == 0 {
        o == MarkStep::Ask(s)
    } else {
        exists|t: Marking|
            marks(s, events.drop_last(), Step::Ask(t)) && #[trigger] t.moves(events.last(), o)
    }
}

proof fn lemma_marks(s: Marking, events: Events, o: MarkStep)
    requires
        s.stage is MakeDir,
        marks(s, events, o),
    ensures
        marker_open(events) ==> match o {
            Step::Ask(t) => t.stage is TakeLock || t.stage is Close,
            Step::Done(r) => r is Ok,
        },
    decreases events.len(),
{
    if events.len() > 0 {
        let t = choose|t: Marking|
            marks(s, events.drop_last(), Step::Ask(t)) && #[trigger] t.moves(events.last(), o);
        lemma_marks(s, events.drop_last(), Step::Ask(t));
    }
}

/// A marking that fails holds no marker.
pub proof fn law_a_failed_marking_holds_nothing(s: Marking, events: Events, e: Error)
    requires
        s.stage is MakeDir,
        marks(s, events, MarkStep::Done(Err(e))),
    ensures
        !marker_open(events),
{
    lemma_marks(s, events, Step::Done(Err(e)));
}

impl Claiming {
    /// The asking can be told that, and becomes `o`.
    pub open spec fn moves(self, event: (Asked, Answer), o: ClaimStep) -> bool {
        event.0 == self.asked() && event.0.fits(event.1) && self.next(event.1, o)
    }
}

/// What an asking that starts as `s` has become after all that.
pub open spec fn claims(s: Claiming, events: Events, o: ClaimStep) -> bool
    decreases events.len(),
{
    if events.len() == 0 {
        o == ClaimStep::Ask(s)
    } else {
        exists|t: Claiming|
            claims(s, events.drop_last(), Step::Ask(t)) && #[trigger] t.moves(events.last(), o)
    }
}

proof fn lemma_claims(s: Claiming, events: Events, o: ClaimStep)
    requires
        s.stage is Open || s.stage is IsThere,
        claims(s, events, o),
    ensures
        o matches Step::Ask(t) ==> t.wf(),
        marker_open(events) ==> match o {
            Step::Ask(t) => !(t.stage is Open) && !(t.stage is IsThere),
            Step::Done(r) => r matches Ok(claim) && claim is Abandoned,
        },
    decreases events.len(),
{
    if events.len() > 0 {
        let t = choose|t: Claiming|
            claims(s, events.drop_last(), Step::Ask(t)) && #[trigger] t.moves(events.last(), o);
        lemma_claims(s, events.drop_last(), Step::Ask(t));
    }
}

/// Only the marker of an abandoned tree is held on to.
pub proof fn law_only_what_is_abandoned_is_held(
    s: Claiming,
    events: Events,
    r: Result<Claim, Error>,
)
    requires
        s.stage is Open || s.stage is IsThere,
        claims(s, events, ClaimStep::Done(r)),
        !(r matches Ok(claim) && claim is Abandoned),
    ensures
        !marker_open(events),
{
    lemma_claims(s, events, Step::Done(r));
}

} // verus!
