//! Where a path leads that need not be there yet, and whether that is inside
//! another directory.

use crate::error::{Error, Failure};
use crate::path::{
    copy_bytes, here_part, is_name, name_of, parent_parts, root_part, up_part, wf_parts, within,
    FsPath,
};
use crate::protocol::{Answer, Ask, Asked, Request, Step};
use vstd::prelude::*;

verus! {

/// The directory that a path is in. A relative path of one component is in the
/// directory that relative paths start from.
pub open spec fn holder(parts: Seq<Seq<u8>>) -> Option<Seq<Seq<u8>>> {
    match parent_parts(parts) {
        Some(parent) => Some(
            if parent.len() == 0 {
                seq![here_part()]
            } else {
                parent
            },
        ),
        None => None,
    }
}

/// The directory that a path is in; refused where there is none.
pub fn parent_of(path: &FsPath) -> (r: Result<FsPath, Error>)
    ensures
        match r {
            Ok(parent) => holder(path@) == Some(parent@),
            Err(e) => holder(path@) is None && (e matches Error::DestinationHasNoParent(p) && p@
                == path@),
        },
{
    match path.parent() {
        Some(parent) => {
            if parent.len() == 0 {
                Ok(FsPath::here())
            } else {
                Ok(parent)
            }
        },
        None => Err(Error::DestinationHasNoParent(path.clone())),
    }
}

/// Looking for where a path leads that need not exist: as much of it as does is
/// resolved through whatever symlinks it holds, and the rest is kept as it is
/// written.
#[derive(Debug)]
pub struct Resolution {
    /// The path in question.
    pub path: FsPath,
    /// The part of it that is asked about.
    pub existing: FsPath,
    /// The names behind that part, the last one first.
    pub unresolved: Vec<Vec<u8>>,
}

/// Starts looking for where `path` leads.
pub fn resolve(path: &FsPath) -> (r: Resolution)
    ensures
        r.path@ == path@,
        r.existing@ == path@,
        r.unresolved@.len() == 0,
{
    Resolution { path: path.clone(), existing: path.clone(), unresolved: Vec::new() }
}

impl Resolution {
    /// The names that were set aside, in the order of the path.
    pub open spec fn rest(self) -> Seq<Seq<u8>> {
        Seq::new(
            self.unresolved@.len(),
            |i: int| self.unresolved@[self.unresolved@.len() - 1 - i]@,
        )
    }

    /// What is asked next.
    pub open spec fn asked(self) -> Asked {
        Request::Canonicalize(self.existing@)
    }

    /// What becomes of the search when it is answered.
    pub open spec fn next(self, a: Answer, o: Step<Resolution, Result<FsPath, Error>>) -> bool {
        match a {
            Answer::Canonical(Ok(base)) => o matches Step::Done(Ok(found)) && found@ == base@
                + self.rest(),
            Answer::Canonical(Err(_)) => match name_of(self.existing@) {
                None => o matches Step::Done(Err(e)) && (e matches Error::DestinationHasNoParent(p)
                    && p@ == self.path@),
                Some(name) => {
                    &&& o matches Step::Ask(t)
                    &&& t.path == self.path
                    &&& holder(self.existing@) == Some(t.existing@)
                    &&& t.rest() == seq![name] + self.rest()
                },
            },
            _ => o == Step::<Resolution, Result<FsPath, Error>>::Ask(self),
        }
    }

    /// What is to be done next.
    pub fn request(&self) -> (r: Ask)
        ensures
            r@ == self.asked(),
    {
        Request::Canonicalize(self.existing.clone())
    }

    /// Takes in what came of it.
    pub fn step(self, a: Answer) -> (o: Step<Resolution, Result<FsPath, Error>>)
        ensures
            self.next(a, o),
    {
        match a {
            Answer::Canonical(Ok(base)) => {
                let mut found = base;
                let mut i: usize = self.unresolved.len();
                assert(self.rest().take(0) =~= Seq::<Seq<u8>>::empty());
                assert(base@ + self.rest().take(0) =~= base@);
                while i > 0
                    invariant
                        i <= self.unresolved@.len(),
                        found@ == base@ + self.rest().take(self.unresolved@.len() - i),
                    decreases i,
                {
                    i = i - 1;
                    found = found.child(self.unresolved[i].as_slice());
                    assert(self.rest().take(self.unresolved@.len() - i) =~= self.rest().take(
                        self.unresolved@.len() - i - 1,
                    ).push(self.unresolved@[i as int]@));
                    assert(found@ =~= base@ + self.rest().take(self.unresolved@.len() - i));
                }
                assert(self.rest().take(self.unresolved@.len() as int) =~= self.rest());
                Step::Done(Ok(found))
            },
            Answer::Canonical(Err(_)) => {
                let name = match self.existing.file_name() {
                    Some(name) => copy_bytes(name.as_slice()),
                    None => {
                        return Step::Done(Err(Error::DestinationHasNoParent(self.path)));
                    },
                };
                let existing = match parent_of(&self.existing) {
                    Ok(parent) => parent,
                    Err(e) => {
                        assert(false);
                        return Step::Done(Err(e));
                    },
                };
                let ghost before = self.rest();
                let mut unresolved = self.unresolved;
                unresolved.push(name);
                let t = Resolution { path: self.path, existing, unresolved };
                assert(t.rest() =~= seq![name@] + before);
                Step::Ask(t)
            },
            _ => Step::Ask(self),
        }
    }

    /// The path is still what is asked about and what was set aside, put
    /// together.
    pub open spec fn keeps(self) -> bool {
        ||| self.path@ == self.existing@ + self.rest()
        ||| self.existing@ == seq![here_part()] && self.path@ == self.rest()
    }

    /// How often the search can still ask.
    pub open spec fn left(self) -> nat {
        if self.existing@ == seq![here_part()] {
            0
        } else {
            self.existing@.len()
        }
    }
}

/// A search starts with the whole path to ask about, and each answer leaves it
/// with the whole path between what is asked about and what was set aside.
pub proof fn law_resolution_keeps_the_path(
    s: Resolution,
    a: Answer,
    o: Step<Resolution, Result<FsPath, Error>>,
)
    requires
        s.keeps(),
        s.next(a, o),
    ensures
        o matches Step::Ask(t) ==> t.keeps(),
{
    if let Step::Ask(t) = o {
        if a is Canonical {
            let name = name_of(s.existing@)->0;
            assert(s.existing@.last() == name);
            assert(s.existing@ =~= s.existing@.drop_last().push(name));
            assert(s.existing@ != seq![here_part()]) by {
                if s.existing@ == seq![here_part()] {
                    assert(s.existing@.last() == here_part());
                }
            }
            assert(s.path@ == s.existing@ + s.rest());
            assert(s.path@ =~= s.existing@.drop_last() + t.rest());
            if s.existing@.len() == 1 {
                assert(s.existing@.drop_last() + t.rest() =~= t.rest());
            }
        }
    }
}

/// What a search finds is where some directory above the path leads, and below
/// it the rest of the path as it was written.
pub proof fn law_resolution_keeps_the_rest(s: Resolution, base: FsPath, found: FsPath)
    requires
        s.keeps(),
        s.next(
            Answer::Canonical(Ok(base)),
            Step::<Resolution, Result<FsPath, Error>>::Done(Ok(found)),
        ),
    ensures
        exists|k: int|
            #![trigger s.path@.skip(k)]
            {
                &&& 0 <= k <= s.path@.len()
                &&& s.existing@ == s.path@.take(k) || (k == 0 && s.existing@ == seq![here_part()])
                &&& found@ == base@ + s.path@.skip(k)
            },
{
    let k = s.path@.len() - s.rest().len();
    if s.path@ == s.existing@ + s.rest() {
        assert(s.path@.take(k) =~= s.existing@);
        assert(s.path@.skip(k) =~= s.rest());
    } else {
        assert(s.path@.skip(0) =~= s.rest());
    }
}

/// A search that is told that the path is not there asks about less of it, so
/// it comes to an end.
pub proof fn law_resolution_ends(
    s: Resolution,
    a: Answer,
    o: Step<Resolution, Result<FsPath, Error>>,
)
    requires
        s.next(a, o),
        a is Canonical,
    ensures
        o matches Step::Ask(t) ==> t.left() < s.left(),
{
    if let Step::Ask(t) = o {
        assert(s.existing@ != seq![here_part()]) by {
            if s.existing@ == seq![here_part()] {
                assert(s.existing@.last() == here_part());
            }
        }
    }
}

/// How a file system resolves paths: what it resolves to is resolved already,
/// a name in a directory leads where the name in the resolved directory does, a
/// name by itself where it does in the directory that relative paths start from,
/// and nothing is in what is not there.
pub open spec fn is_canonical(canon: spec_fn(Seq<Seq<u8>>) -> Option<Seq<Seq<u8>>>) -> bool {
    &&& forall|p: Seq<Seq<u8>>| #[trigger] canon(p) matches Some(q) ==> q.len() > 0 && canon(q)
        == Some(q)
    &&& forall|name: Seq<u8>|
        is_name(name) ==> #[trigger] canon(seq![name]) == canon(seq![here_part()].push(name))
    &&& forall|p: Seq<Seq<u8>>, name: Seq<u8>|
        (canon(p) matches Some(q) && is_name(name)) ==> #[trigger] canon(p.push(name)) == canon(
            canon(p)->0.push(name),
        )
    &&& forall|p: Seq<Seq<u8>>, name: Seq<u8>|
        canon(p) is None && is_name(name) && p.len() > 0 ==> #[trigger] canon(p.push(name)) is None
}

/// Where a path leads in such a file system: as much of it as is there, resolved,
/// and the rest as it is written. Nowhere where what is not there does not end in
/// names.
pub open spec fn resolved(
    canon: spec_fn(Seq<Seq<u8>>) -> Option<Seq<Seq<u8>>>,
    path: Seq<Seq<u8>>,
) -> Option<Seq<Seq<u8>>>
    decreases path.len(),
{
    match canon(path) {
        Some(found) => Some(found),
        None => match name_of(path) {
            None => None,
            Some(name) => if path.len() == 1 {
                match canon(seq![here_part()]) {
                    Some(here) => Some(here.push(name)),
                    None => None,
                }
            } else {
                match resolved(canon, path.drop_last()) {
                    Some(above) => Some(above.push(name)),
                    None => None,
                }
            },
        },
    }
}

impl Resolution {
    /// The search is told what such a file system says, and becomes `o`.
    pub open spec fn hears(
        self,
        a: Answer,
        canon: spec_fn(Seq<Seq<u8>>) -> Option<Seq<Seq<u8>>>,
        o: Step<Resolution, Result<FsPath, Error>>,
    ) -> bool {
        &&& a matches Answer::Canonical(r)
        &&& match canon(self.existing@) {
            Some(found) => r matches Ok(base) && base@ == found,
            None => r is Err,
        }
        &&& self.next(a, o)
    }
}

/// What a search that starts as `s` has become once it is told all that.
pub open spec fn looks(
    s: Resolution,
    told: Seq<Answer>,
    canon: spec_fn(Seq<Seq<u8>>) -> Option<Seq<Seq<u8>>>,
    o: Step<Resolution, Result<FsPath, Error>>,
) -> bool
    decreases told.len(),
{
    if told.len() == 0 {
        o == Step::<Resolution, Result<FsPath, Error>>::Ask(s)
    } else {
        exists|t: Resolution|
            looks(s, told.drop_last(), canon, Step::Ask(t)) && #[trigger] t.hears(
                told.last(),
                canon,
                o,
            )
    }
}

/// What the part that is asked about comes to, and what was set aside, is what
/// the path comes to.
pub open spec fn is_on_the_way(
    t: Resolution,
    path: Seq<Seq<u8>>,
    canon: spec_fn(Seq<Seq<u8>>) -> Option<Seq<Seq<u8>>>,
) -> bool {
    let rest = t.rest();
    &&& t.path@ == path
    &&& forall|i: int| 0 <= i < rest.len() ==> name_like(#[trigger] rest[i])
    &&& if t.existing@ == seq![here_part()] && rest.len() > 0 {
        resolved(canon, path) == match canon(t.existing@) {
            Some(here) => Some(here + rest),
            None => None,
        }
    } else {
        resolved(canon, path) == match resolved(canon, t.existing@) {
            Some(above) => Some(above + rest),
            None => None,
        }
    }
}

/// A component that a path can end in as a name.
pub open spec fn name_like(part: Seq<u8>) -> bool {
    part != root_part() && part != here_part() && part != up_part()
}

#[verifier::spinoff_prover]
proof fn lemma_on_the_way(
    t: Resolution,
    a: Answer,
    path: Seq<Seq<u8>>,
    canon: spec_fn(Seq<Seq<u8>>) -> Option<Seq<Seq<u8>>>,
    o: Step<Resolution, Result<FsPath, Error>>,
)
    requires
        is_on_the_way(t, path, canon),
        t.hears(a, canon, o),
    ensures
        match o {
            Step::Ask(u) => is_on_the_way(u, path, canon),
            Step::Done(Ok(found)) => resolved(canon, path) == Some(found@),
            Step::Done(Err(e)) => resolved(canon, path) is None && (
            e matches Error::DestinationHasNoParent(p) && p@ == path),
        },
{
    let e = t.existing@;
    let rest = t.rest();
    match canon(e) {
        Some(base) => {
            assert(resolved(canon, e) == Some(base));
        },
        None => {
            match name_of(e) {
                None => {
                    assert(resolved(canon, e) is None);
                },
                Some(name) => {
                    assert(e != seq![here_part()]) by {
                        if e == seq![here_part()] {
                            assert(e.last() == here_part());
                        }
                    }
                    if let Step::Ask(u) = o {
                        let more = seq![name] + rest;
                        assert(u.rest() == more);
                        assert forall|i: int| 0 <= i < more.len() implies name_like(
                            #[trigger] more[i],
                        ) by {
                            if i > 0 {
                                assert(more[i] == rest[i - 1]);
                            }
                        }
                        if e.len() == 1 {
                            assert(e.drop_last() =~= Seq::empty());
                            assert(u.existing@ == seq![here_part()]);
                            if let Some(here) = canon(seq![here_part()]) {
                                assert(here.push(name) + rest =~= here + more);
                            }
                        } else {
                            assert(u.existing@ == e.drop_last());
                            if u.existing@ == seq![here_part()] {
                                assert(u.existing@.last() == here_part());
                                assert(name_of(u.existing@) is None);
                            }
                            if let Some(above) = resolved(canon, u.existing@) {
                                assert(above.push(name) + rest =~= above + more);
                            }
                        }
                    }
                },
            }
        },
    }
}

proof fn lemma_looks(
    s: Resolution,
    told: Seq<Answer>,
    canon: spec_fn(Seq<Seq<u8>>) -> Option<Seq<Seq<u8>>>,
    o: Step<Resolution, Result<FsPath, Error>>,
)
    requires
        s.existing@ == s.path@,
        s.unresolved@.len() == 0,
        looks(s, told, canon, o),
    ensures
        match o {
            Step::Ask(u) => is_on_the_way(u, s.path@, canon),
            Step::Done(Ok(found)) => resolved(canon, s.path@) == Some(found@),
            Step::Done(Err(e)) => resolved(canon, s.path@) is None && (
            e matches Error::DestinationHasNoParent(p) && p@ == s.path@),
        },
    decreases told.len(),
{
    if told.len() == 0 {
        assert(s.rest() =~= Seq::empty());
        if let Some(found) = resolved(canon, s.path@) {
            assert(found + s.rest() =~= found);
        }
    } else {
        let t = choose|t: Resolution|
            looks(s, told.drop_last(), canon, Step::Ask(t)) && #[trigger] t.hears(
                told.last(),
                canon,
                o,
            );
        lemma_looks(s, told.drop_last(), canon, Step::Ask(t));
        lemma_on_the_way(t, told.last(), s.path@, canon, o);
    }
}

/// A search finds where a path leads, and has nowhere to go where it leads
/// nowhere.
pub proof fn law_resolution_finds_where_it_leads(
    s: Resolution,
    told: Seq<Answer>,
    canon: spec_fn(Seq<Seq<u8>>) -> Option<Seq<Seq<u8>>>,
    r: Result<FsPath, Error>,
)
    requires
        s.existing@ == s.path@,
        s.unresolved@.len() == 0,
        looks(s, told, canon, Step::<Resolution, Result<FsPath, Error>>::Done(r)),
    ensures
        match r {
            Ok(found) => resolved(canon, s.path@) == Some(found@),
            Err(e) => resolved(canon, s.path@) is None && (
            e matches Error::DestinationHasNoParent(p) && p@ == s.path@),
        },
{
    lemma_looks(s, told, canon, Step::Done(r));
}

/// Where a path leads is where that leads: what has been resolved is resolved to
/// itself.
pub proof fn law_what_is_resolved_stays_so(
    canon: spec_fn(Seq<Seq<u8>>) -> Option<Seq<Seq<u8>>>,
    path: Seq<Seq<u8>>,
)
    requires
        is_canonical(canon),
        wf_parts(path),
    ensures
        resolved(canon, path) matches Some(found) ==> resolved(canon, found) == Some(found),
{
    lemma_resolved(canon, path);
}

proof fn lemma_resolved(
    canon: spec_fn(Seq<Seq<u8>>) -> Option<Seq<Seq<u8>>>,
    path: Seq<Seq<u8>>,
)
    requires
        is_canonical(canon),
        wf_parts(path),
    ensures
        resolved(canon, path) matches Some(found) ==> {
            &&& found.len() > 0
            &&& resolved(canon, found) == Some(found)
            &&& canon(path) is None ==> canon(found) is None
        },
    decreases path.len(),
{
    if let Some(found) = resolved(canon, path) {
        if canon(path) is None {
            let name = name_of(path)->0;
            assert(is_name(name));
            let above = if path.len() == 1 {
                canon(seq![here_part()])->0
            } else {
                resolved(canon, path.drop_last())->0
            };
            assert(found == above.push(name));
            assert(found.drop_last() =~= above);
            if path.len() == 1 {
                assert(path =~= seq![name]);
                assert(canon(seq![here_part()].push(name)) == canon(above.push(name)));
            } else {
                let parent = path.drop_last();
                assert(path =~= parent.push(name));
                assert forall|i: int| 0 <= i < parent.len() implies is_name(#[trigger] parent[i]) || (
                i == 0 && (parent[i] == root_part() || parent[i] == here_part())) by {
                    assert(parent[i] == path[i]);
                }
                lemma_resolved(canon, parent);
                assert(canon(parent.push(name)) is None);
                assert(canon(above.push(name)) is None);
            }
            assert(resolved(canon, above) == Some(above));
            assert(found.last() == name);
            assert(name_of(found) == Some(name));
        }
    }
}

/// What is not there is looked for in the directory it is in, and its name is
/// kept behind where that leads: a name in a directory, in that directory; a name
/// by itself, in the directory that relative paths start from. What ends in no
/// name leads nowhere.
pub proof fn law_what_is_not_there_is_looked_for_above(
    s: Resolution,
    dir: Seq<Seq<u8>>,
    name: Seq<u8>,
    f: Failure,
    o: Step<Resolution, Result<FsPath, Error>>,
    base: FsPath,
    p: Step<Resolution, Result<FsPath, Error>>,
)
    requires
        s.existing@ == dir.push(name),
        s.next(Answer::Canonical(Err(f)), o),
        o matches Step::Ask(t) ==> t.next(Answer::Canonical(Ok(base)), p),
    ensures
        s.asked() == Asked::Canonicalize(dir.push(name)),
        if name == seq![0x2fu8] || name == seq![0x2eu8] || name == seq![0x2eu8, 0x2eu8] {
            o matches Step::Done(Err(Error::DestinationHasNoParent(path))) && path@ == s.path@
        } else {
            &&& o matches Step::Ask(t)
            &&& t.path == s.path
            &&& t.asked() matches Request::Canonicalize(path)
            &&& path == if dir.len() == 0 {
                seq![seq![0x2eu8]]
            } else {
                dir
            }
            &&& p matches Step::Done(Ok(found))
            &&& found@ == base@.push(name) + s.rest()
        },
{
    assert(dir.push(name).drop_last() =~= dir);
    assert(base@ + (seq![name] + s.rest()) =~= base@.push(name) + s.rest());
}

/// Refuses a place to write that is inside the directory being read, or is that
/// directory; both paths are as the file system resolves them, and are handed
/// back.
pub fn refuse_nesting(source: FsPath, resolved: FsPath) -> (r: Result<(FsPath, FsPath), Error>)
    ensures
        r == if within(resolved@, source@) {
            Err(Error::DestinationInsideSource { src: source, dest: resolved })
        } else {
            Ok((source, resolved))
        },
{
    if resolved.starts_with(&source) {
        Err(Error::DestinationInsideSource { src: source, dest: resolved })
    } else {
        Ok((source, resolved))
    }
}

} // verus!
