//! What a marker says, and what is made of finding one.

use crate::error::{Error, Failure};
use crate::outside::{json_parse, json_pretty, utf8_lossy, Json};
use crate::path::path_parts;
use crate::protocol::{Answer, FileId, Lock, Request, Step, Written};
use crate::staging::{
    fields_told, marker_json, marker_told, tells, Claim, ClaimStep, Claiming, MarkStep, Marker,
    Marking, ReleaseStep, Releasing,
};
use vstd::prelude::*;
use vstd::utf8::encode_utf8;

verus! {

/// A document says something as a marker if and only if it is an object whose
/// members `src` and `dest` are texts. These are the paths that it speaks of. Its
/// process and its time are the members `pid`, of which the lower thirty-two bits
/// count, and `started_at`, each zero where it is no number; its version is the
/// member `tool_version`, unknown where that is no text.
pub proof fn law_what_a_document_says(
    members: Map<Seq<char>, Json>,
    src: Seq<char>,
    dest: Seq<char>,
    n: u64,
    text: Seq<char>,
)
    ensures
        ({
            let document = Json::Object(members);
            let is_text = |key: Seq<char>|
                members.dom().contains(key) && (members[key] matches Json::Text(_));
            let is_number = |key: Seq<char>|
                members.dom().contains(key) && (members[key] matches Json::Number(_));
            &&& marker_told(document) is Some <==> is_text("src"@) && is_text("dest"@)
            &&& marker_told(document) matches Some(told) ==> {
                &&& members["src"@] == Json::Text(src) ==> told.src == path_parts(encode_utf8(src))
                &&& members["dest"@] == Json::Text(dest) ==> told.dest == path_parts(
                    encode_utf8(dest),
                )
                &&& is_number("pid"@) && members["pid"@] == Json::Number(n) ==> told.pid == n
                    % 0x1_0000_0000
                &&& !is_number("pid"@) ==> told.pid == 0
                &&& is_number("started_at"@) && members["started_at"@] == Json::Number(n)
                    ==> told.started_at == n
                &&& !is_number("started_at"@) ==> told.started_at == 0
                &&& is_text("tool_version"@) && members["tool_version"@] == Json::Text(text)
                    ==> told.version == text
                &&& !is_text("tool_version"@) ==> told.version == "unknown"@
            }
        }),
{
    assert(n as u32 == n % 0x1_0000_0000) by (bit_vector);
}

/// What is no object says nothing as a marker.
pub proof fn law_only_an_object_is_a_marker(document: Json)
    requires
        !(document is Object),
    ensures
        marker_told(document) is None,
{
}

/// Fields make a marker if and only if both paths are given; what else is not
/// given is zero, or unknown.
pub proof fn law_what_fields_say(
    src: Option<Seq<char>>,
    dest: Option<Seq<char>>,
    pid: Option<u64>,
    started_at: Option<u64>,
    version: Option<Seq<char>>,
)
    ensures
        fields_told(src, dest, pid, started_at, version) is Some <==> src is Some && dest is Some,
        fields_told(src, dest, pid, started_at, version) matches Some(told) ==> {
            &&& told.src == path_parts(encode_utf8(src->0))
            &&& told.dest == path_parts(encode_utf8(dest->0))
            &&& told.pid == if pid is Some {
                pid->0 % 0x1_0000_0000
            } else {
                0
            }
            &&& told.started_at == if started_at is Some {
                started_at->0
            } else {
                0
            }
            &&& version is Some ==> told.version == version->0
            &&& version is None ==> told.version == "unknown"@
        },
{
    let n = pid->0;
    assert(n as u32 == n % 0x1_0000_0000) by (bit_vector);
}

/// A marker is written with six members: the form it is written in, the version
/// of what wrote it, the two paths as they are shown, the process and the time.
pub proof fn law_what_is_written_of_a_run(src: Seq<u8>, dest: Seq<u8>, pid: u32, now: u64)
    ensures
        marker_json(src, dest, pid, now) matches Json::Object(members) && {
            &&& members.dom() == set![
                "version"@,
                "tool_version"@,
                "src"@,
                "dest"@,
                "pid"@,
                "started_at"@,
            ]
            &&& members["version"@] == Json::Number(1)
            &&& members["tool_version"@] == Json::Text("0.1.0"@)
            &&& members["src"@] == Json::Text(utf8_lossy(src))
            &&& members["dest"@] == Json::Text(utf8_lossy(dest))
            &&& members["pid"@] == Json::Number(pid as u64)
            &&& members["started_at"@] == Json::Number(now)
        },
{
    reveal_strlit("version");
    reveal_strlit("tool_version");
    reveal_strlit("src");
    reveal_strlit("dest");
    reveal_strlit("pid");
    reveal_strlit("started_at");
    assert("version"@.len() == 7 && "tool_version"@.len() == 12 && "started_at"@.len() == 10);
    assert("src"@.len() == 3 && "dest"@.len() == 4 && "pid"@.len() == 3);
    assert("src"@[0] != "pid"@[0]);
    let members = marker_json(src, dest, pid, now)->Object_0;
    assert(members.dom() =~= set![
        "version"@,
        "tool_version"@,
        "src"@,
        "dest"@,
        "pid"@,
        "started_at"@,
    ]);
}

/// A tree is marked by making its directory, then writing the marker, then
/// locking it; where locks are not to be had the marker is on the tree all the
/// same. A lock that another holds is refused, once the marker is let go of.
pub proof fn law_how_a_tree_is_marked(
    s: Marking,
    t: Marking,
    u: Marking,
    lock: Lock,
    o: MarkStep,
    f: Failure,
    p: MarkStep,
    q: MarkStep,
)
    requires
        s.stage is MakeDir,
        s.next(Answer::Done(Ok(())), Step::Ask(t)),
        t.next(Answer::Written(Written::Done), Step::Ask(u)),
        !(lock is Unopened),
        u.next(Answer::Lock(lock), o),
        s.next(Answer::Done(Err(f)), p),
        t.next(Answer::Written(Written::Unopened(f)), q),
    ensures
        s.asked() matches Request::CreateDirAll(d) && d == s.staging@,
        t.asked() matches Request::WriteMarker { path, text } && path == s.path@ && text == s.text@,
        u.asked() matches Request::LockMarker(path) && path == s.path@,
        match lock {
            Lock::Taken | Lock::Unsupported => o matches Step::Done(Ok(held)) && held.path@
                == s.path@,
            Lock::Busy | Lock::Failed(_) => o matches Step::Ask(v) && v.asked() is CloseMarker,
            Lock::Unopened(_) => true,
        },
        p matches Step::Done(Err(Error::Io { op, path, source })) && op@ == "creating"@ && path@
            == s.staging@ && source == f.source,
        q matches Step::Done(Err(Error::Io { op, path, source })) && op@
            == "writing the staging marker"@ && path@ == s.path@ && source == f.source,
{
}

/// A step of a marking that goes well goes on, and a marker that could not be
/// locked ends it with the reason.
pub proof fn law_why_a_marking_fails(s: Marking, lock: Lock, v: Marking, a: Answer, o: MarkStep)
    requires
        s.asked() is LockMarker,
        lock is Busy || lock is Failed,
        s.next(Answer::Lock(lock), Step::Ask(v)),
        a is Done,
        v.next(a, o),
    ensures
        o matches Step::Done(Err(e)) && match (lock, e) {
            (Lock::Busy, Error::StagingBusy(path)) => path@ == s.path@,
            (Lock::Failed(f), Error::Io { op, path, source }) => op@ == "locking"@ && path@
                == s.path@ && source == f.source,
            _ => false,
        },
{
}

/// Making the directory and writing the marker go on to what is next.
pub proof fn law_a_marking_goes_on(s: Marking, a: Answer, o: MarkStep)
    requires
        s.asked() is CreateDirAll || s.asked() is WriteMarker,
        s.asked().fits(a),
        s.next(a, o),
    ensures
        o is Ask <==> match a {
            Answer::Done(came) => came is Ok,
            Answer::Written(came) => came is Done,
            _ => false,
        },
        a matches Answer::Written(Written::Failed(source)) ==> (o matches Step::Done(
            Err(Error::MarkerWrite { path, source: said }),
        ) && path == s.path && said == source),
{
}

/// A marker is let go of whatever becomes of its file. That the file is gone
/// already is no failure; any other refusal is.
pub proof fn law_how_a_marker_is_removed(
    s: Releasing,
    came: Result<(), Failure>,
    o: ReleaseStep,
    a: Answer,
    p: ReleaseStep,
)
    requires
        s.stage is Remove,
        s.next(Answer::Done(came), o),
        a is Done,
        o matches Step::Ask(t) ==> t.next(a, p),
    ensures
        s.asked() matches Request::RemoveFile(path) && path == s.path@,
        o matches Step::Ask(t) && t.asked() is CloseMarker,
        p matches Step::Done(r) && match came {
            Ok(_) => r is Ok,
            Err(f) => if f.missing {
                r is Ok
            } else {
                r matches Err(Error::Io { op, path, source }) && op@
                    == "removing the staging marker"@ && path@ == s.path@ && source == f.source
            },
        },
{
}

/// A tree is abandoned if and only if its marker can be locked and the file that
/// is locked is the one at the path. It is being built where the lock is held by
/// another. It is finished where the marker is gone, when it is opened or when it
/// is looked for, and where another file is at the path.
pub proof fn law_when_a_tree_is_abandoned(
    s: Claiming,
    t: Claiming,
    u: Claiming,
    held: FileId,
    v: Claiming,
    there: Result<FileId, Failure>,
    o: ClaimStep,
    a: Answer,
    p: ClaimStep,
)
    requires
        s.stage is Open,
        s.next(Answer::Done(Ok(())), Step::Ask(t)),
        t.next(Answer::Lock(Lock::Taken), Step::Ask(u)),
        u.next(Answer::Identity(Ok(held)), Step::Ask(v)),
        v.next(Answer::Identity(there), o),
        a is Done,
        o matches Step::Ask(w) ==> w.next(a, p),
    ensures
        s.asked() matches Request::OpenMarker(path) && path == s.path@,
        t.asked() matches Request::LockMarker(path) && path == s.path@,
        u.asked() matches Request::MarkerIdentity(path) && path == s.path@,
        v.asked() matches Request::Identity(path) && path == s.path@,
        match there {
            Ok(id) => if id == held {
                o matches Step::Done(Ok(Claim::Abandoned(h))) && h.path@ == s.path@
            } else {
                o matches Step::Ask(w) && w.asked() is CloseMarker && (p matches Step::Done(Ok(c))
                    && c is Finished)
            },
            Err(f) => o matches Step::Ask(w) && w.asked() is CloseMarker && if f.missing {
                p matches Step::Done(Ok(c)) && c is Finished
            } else {
                p matches Step::Done(Err(Error::Io { op, path, source })) && op@
                    == "reading the staging marker"@ && path@ == s.path@ && source == f.source
            },
        },
{
}

/// How an asking goes on, or ends, before it is known which file is locked.
pub proof fn law_when_a_tree_is_not_abandoned(
    s: Claiming,
    came: Result<(), Failure>,
    o: ClaimStep,
    t: Claiming,
    lock: Lock,
    p: ClaimStep,
    a: Answer,
    q: ClaimStep,
    u: Claiming,
    id: Result<FileId, Failure>,
    r: ClaimStep,
    x: ClaimStep,
)
    requires
        s.asked() is OpenMarker,
        s.next(Answer::Done(came), o),
        t.asked() is LockMarker,
        lock is Taken || lock is Busy || lock is Failed,
        t.next(Answer::Lock(lock), p),
        a is Done,
        p matches Step::Ask(w) ==> !(lock is Taken) ==> w.next(a, q),
        u.asked() is MarkerIdentity,
        u.next(Answer::Identity(id), r),
        r matches Step::Ask(w) ==> id is Err ==> w.next(a, x),
    ensures
        match came {
            Ok(_) => o is Ask,
            Err(f) => if f.missing {
                o matches Step::Done(Ok(c)) && c is Finished
            } else {
                o matches Step::Done(Err(Error::Io { op, path, source })) && op@
                    == "opening the staging marker"@ && path@ == s.path@ && source == f.source
            },
        },
        match lock {
            Lock::Taken => p matches Step::Ask(w) && w.asked() is MarkerIdentity && w.path
                == t.path,
            Lock::Busy => p matches Step::Ask(w) && w.asked() is CloseMarker && (q matches Step::Done(
                Ok(c),
            ) && c is Building),
            Lock::Failed(f) => p matches Step::Ask(w) && w.asked() is CloseMarker && (
            q matches Step::Done(Err(Error::Io { op, path, source })) && op@ == "locking"@ && path@
                == t.path@ && source == f.source),
            _ => true,
        },
        match id {
            Ok(_) => r matches Step::Ask(w) && w.asked() is Identity && w.path == u.path,
            Err(f) => r matches Step::Ask(w) && w.asked() is CloseMarker && (x matches Step::Done(
                Err(Error::Io { op, path, source }),
            ) && op@ == "reading the staging marker"@ && path@ == u.path@ && source == f.source),
        },
{
}

/// Without locks, a tree whose marker is there may be either; one whose marker is
/// gone is finished.
pub proof fn law_without_locks_a_tree_is_undecided(s: Claiming, there: bool, o: ClaimStep)
    requires
        s.stage is IsThere,
        s.next(Answer::Flag(there), o),
    ensures
        s.asked() matches Request::IsFile(path) && path == s.path@,
        o matches Step::Done(Ok(c)) && (c is Undecidable <==> there) && (c is Finished <==> !there),
{
}

/// What is written into a marker is the document of the run, and is read back as
/// that document.
pub proof fn law_a_marker_holds_its_document(
    text: Seq<u8>,
    src: Seq<u8>,
    dest: Seq<u8>,
    pid: u32,
    now: u64,
)
    requires
        tells(text, src, dest, pid, now),
    ensures
        text == json_pretty(marker_json(src, dest, pid, now)),
        json_parse(text) == Some(marker_json(src, dest, pid, now)),
{
}

/// A marker says what its fields hold.
pub proof fn law_a_marker_says_what_it_holds(marker: Marker)
    ensures
        marker@.src == marker.src@,
        marker@.dest == marker.dest@,
        marker@.pid == marker.pid,
        marker@.started_at == marker.started_at,
        marker@.version == marker.version@,
{
}

} // verus!
