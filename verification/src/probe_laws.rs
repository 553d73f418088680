//! How a probe goes about its question.

use crate::error::{Error, Failure};
use crate::probe::{ProbeStep, Probing};
use crate::protocol::{Answer, Kind, Request, Step, Walked};
use vstd::prelude::*;
use vstd::utf8::encode_utf8;

verus! {

/// A probe makes its directory, clears away what an earlier one may have left
/// there, and walks the source from its entries on. A directory that cannot be
/// made ends it.
pub proof fn law_how_a_probe_begins(
    s: Probing,
    t: Probing,
    a: Answer,
    u: Probing,
    b: Answer,
    v: Probing,
    f: Failure,
    o: ProbeStep,
    p: ProbeStep,
    q: ProbeStep,
    r: ProbeStep,
)
    requires
        s.stage is MakeDir,
        s.next(Answer::Done(Ok(())), p),
        p matches Step::Ask(w) ==> w == t,
        a is Done,
        t.next(a, q),
        q matches Step::Ask(w) ==> w == u,
        b is Done,
        u.next(b, r),
        r matches Step::Ask(w) ==> w == v,
        s.next(Answer::Done(Err(f)), o),
    ensures
        p is Ask,
        q is Ask,
        r is Ask,
        s.asked() matches Request::CreateDirAll(d) && d == s.dir@,
        t.asked() matches Request::RemoveFile(d) && d == s.dir@.push(encode_utf8("b"@)),
        u.asked() matches Request::OpenWalk { root, min_depth } && root == s.src@ && min_depth == 1,
        v.asked() is NextEntry,
        v.src == s.src,
        v.dir == s.dir,
        o matches Step::Done(Err(Error::Io { op, path, source })) && op@
            == "creating a probe directory at"@ && path@ == s.dir@ && source == f.source,
{
}

/// The first file that the walk hands out is what a probe clones. Everything else
/// is passed by; where there is no file, the probe writes one of its own, and
/// clones that.
pub proof fn law_what_a_probe_clones(
    t: Probing,
    a: Answer,
    o: ProbeStep,
    u: Probing,
    came: Result<(), Failure>,
    p: ProbeStep,
)
    requires
        t.asked() is NextEntry,
        t.asked().fits(a),
        t.next(a, o),
        u.asked() is WriteZeros,
        u.next(Answer::Done(came), p),
    ensures
        o matches Step::Ask(v) && v.src == t.src && v.dir == t.dir && match a {
            Answer::Walked(Walked::Entry(entry)) => if entry.kind == Kind::File {
                &&& v.asked() matches Request::Reflink { from, to }
                &&& from == t.src@ + entry.relative@
                &&& to == t.dir@.push(encode_utf8("b"@))
            } else {
                v == t
            },
            Answer::Walked(Walked::Failed(_)) => v == t,
            _ => v.asked() matches Request::WriteZeros { path, len } && path == t.dir@.push(
                encode_utf8("a"@),
            ) && len == 8192,
        },
        p matches Step::Ask(v) && v.src == u.src && v.dir == u.dir && match came {
            Ok(_) => {
                &&& v.asked() matches Request::Reflink { from, to }
                &&& from == u.dir@.push(encode_utf8("a"@))
                &&& to == u.dir@.push(encode_utf8("b"@))
            },
            Err(_) => v.asked() matches Request::RemoveFile(path) && path == u.dir@.push(
                encode_utf8("a"@),
            ),
        },
{
}

/// Whatever came of the cloning, a probe removes its file, its clone and its
/// directory, and then says whether the cloning went well.
pub proof fn law_how_a_probe_ends(
    t: Probing,
    came: Result<(), Failure>,
    o: ProbeStep,
    a: Answer,
    p: ProbeStep,
    b: Answer,
    q: ProbeStep,
    c: Answer,
    r: ProbeStep,
)
    requires
        t.asked() is Reflink || t.asked() is WriteZeros && came is Err,
        t.next(Answer::Done(came), o),
        a is Done,
        b is Done,
        c is Done,
        o matches Step::Ask(u) ==> u.next(a, p),
        p matches Step::Ask(u) ==> u.next(b, q),
        q matches Step::Ask(u) ==> u.next(c, r),
    ensures
        o matches Step::Ask(u) && (u.asked() matches Request::RemoveFile(path) && path
            == t.dir@.push(encode_utf8("a"@))),
        p matches Step::Ask(u) && (u.asked() matches Request::RemoveFile(path) && path
            == t.dir@.push(encode_utf8("b"@))),
        q matches Step::Ask(u) && (u.asked() matches Request::RemoveDir(path) && path == t.dir@),
        r matches Step::Done(answer) && if t.asked() is Reflink {
            answer matches Ok(yes) && yes == came is Ok
        } else {
            answer matches Err(Error::Io { op, path, source }) && op@ == "writing the probe file"@
                && path@ == t.dir@.push(encode_utf8("a"@)) && source == came->Err_0.source
        },
{
}

} // verus!
