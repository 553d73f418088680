//! What a search makes of each directory that it meets.

use crate::error::Error;
use crate::protocol::{Answer, Entry, Kind, Request, Step, Walked};
use crate::search::{SearchStep, Searching};
use vstd::prelude::*;
use vstd::utf8::{encode_utf8, is_ascii_chars_encode_utf8};

verus! {

/// A directory called `.git` below the root is passed by. Of every other it is
/// asked whether it has a marker: where it has, it is a staged tree. Below the
/// root, one without a marker that is called as a probe's directory is one, and
/// of every other it is asked whether it has a cache tag. What is a staged tree,
/// a probe's directory or has a cache tag is not gone into; everything else is.
pub proof fn law_what_a_search_makes_of_a_directory(
    t: Searching,
    entry: Entry,
    o: SearchStep,
    marked: bool,
    p: SearchStep,
    tagged: bool,
    q: SearchStep,
)
    requires
        t.asked() is NextEntry,
        entry.kind == Kind::Dir,
        t.next(Answer::Walked(Walked::Entry(entry)), o),
        o matches Step::Ask(u) ==> u.asked() is IsFile ==> u.next(Answer::Flag(marked), p),
        p matches Step::Ask(v) ==> v.asked() is IsFile ==> v.next(Answer::Flag(tagged), q),
    ensures
        ({
            let path = t.root@ + entry.relative@;
            let nested = entry.relative@.len() > 0;
            let name = entry.relative@.last();
            &&& o matches Step::Ask(u)
            &&& u.found == t.found
            &&& if nested && name == encode_utf8(".git"@) {
                u.asked() is SkipDir
            } else {
                &&& u.asked() matches Request::IsFile(marker)
                &&& marker == path.push(encode_utf8(".cargo-shared-target-staging"@))
                &&& p matches Step::Ask(v)
                &&& if marked {
                    &&& v.asked() is SkipDir
                    &&& v.found.staged@.drop_last() == t.found.staged@
                    &&& v.found.staged@.len() == t.found.staged@.len() + 1
                    &&& v.found.staged@.last()@ == path
                    &&& v.found.probes@ == t.found.probes@
                } else if nested && name == encode_utf8(".cargo-shared-target-probe"@) {
                    &&& v.asked() is SkipDir
                    &&& v.found.probes@.drop_last() == t.found.probes@
                    &&& v.found.probes@.len() == t.found.probes@.len() + 1
                    &&& v.found.probes@.last()@ == path
                    &&& v.found.staged@ == t.found.staged@
                } else if nested {
                    &&& v.found == t.found
                    &&& v.asked() matches Request::IsFile(tag)
                    &&& tag == path.push(encode_utf8("CACHEDIR.TAG"@))
                    &&& q matches Step::Ask(w)
                    &&& w.found == t.found
                    &&& if tagged {
                        w.asked() is SkipDir
                    } else {
                        w == t
                    }
                } else {
                    v == t
                }
            }
        }),
{
    let path = t.root@ + entry.relative@;
    reveal_strlit(".git");
    reveal_strlit(".cargo-shared-target-probe");
    is_ascii_chars_encode_utf8(".git"@);
    is_ascii_chars_encode_utf8(".cargo-shared-target-probe"@);
    assert(encode_utf8(".git"@).len() == 4);
    assert(encode_utf8(".cargo-shared-target-probe"@).len() == 26);
    if entry.relative@.len() > 0 {
        assert(path.last() == entry.relative@.last());
    }
    if let Step::Ask(u) = o {
        if u.asked() is IsFile {
            if let Step::Ask(v) = p {
                if v.asked() is SkipDir {
                    if marked {
                        assert(v.found.staged@.drop_last() =~= t.found.staged@);
                    } else {
                        assert(v.found.probes@.drop_last() =~= t.found.probes@);
                    }
                }
            }
        }
    }
}

/// A search walks everything from the root on, goes on past what is no directory
/// and past what it does not go into, and ends with what it has found when the
/// walk does; a walk that fails ends it with the root as the path.
pub proof fn law_how_a_search_goes_on(
    s: Searching,
    o: SearchStep,
    t: Searching,
    a: Answer,
    p: SearchStep,
    skipped: Searching,
    q: SearchStep,
)
    requires
        s.stage is OpenWalk,
        s.next(Answer::Done(Ok(())), o),
        t.asked() is NextEntry,
        t.asked().fits(a),
        t.next(a, p),
        skipped.asked() is SkipDir,
        skipped.next(Answer::Done(Ok(())), q),
    ensures
        s.asked() matches Request::OpenWalk { root, min_depth } && root == s.root@ && min_depth == 0,
        o matches Step::Ask(u) && u.asked() is NextEntry && u.found == s.found && u.root == s.root,
        match a {
            Answer::Walked(Walked::Entry(entry)) => entry.kind != Kind::Dir ==> p
                == SearchStep::Ask(t),
            Answer::Walked(Walked::Failed(source)) => p == SearchStep::Done(
                Err(Error::Walk { path: t.root, source }),
            ),
            Answer::Walked(Walked::End) => p == SearchStep::Done(Ok(t.found)),
            _ => false,
        },
        q matches Step::Ask(u) && u.asked() is NextEntry && u.found == skipped.found && u.root
            == skipped.root,
{
}

} // verus!
