//! Taking part in Cargo's build lock, so that a tree is not read while it is
//! being written.
//!
//! Cargo holds a lock for the length of a build. Reading a target directory
//! without it can capture an artifact and then, moments later, the fingerprint
//! written after it: a tree that is torn, and torn silently, because what Cargo
//! reads afterwards says fresh.
//!
//! What is locked is not a stable contract. The path and the mechanism are
//! Cargo's internals, so [`BuildLocks::held`] is reported rather than assumed.

use crate::error::{is_io, Error};
use crate::path::{os, views, FsPath};
use crate::protocol::{shares_held, Answer, Ask, Asked, Events, Listed, Lock, Request, Step};
use vstd::prelude::*;

verus! {

/// Cargo's lock file, one per profile directory.
pub const LOCK_FILE: &'static str = ".cargo-lock";

/// The build locks that are held.
#[derive(Debug)]
pub struct BuildLocks {
    pub held: Vec<FsPath>,
}

impl BuildLocks {
    /// The lock files being held. None means that none were found: a target
    /// directory nothing has built in yet, a Cargo that has moved them, or a
    /// platform without the call. It does not mean that the tree is quiet.
    pub fn held(&self) -> (r: &Vec<FsPath>)
        ensures
            *r == self.held,
    {
        &self.held
    }
}

/// The directories among what the directory at `path` holds.
pub open spec fn dirs_among(path: Seq<Seq<u8>>, listing: Seq<Listed>) -> Seq<Seq<Seq<u8>>>
    decreases listing.len(),
{
    if listing.len() == 0 {
        Seq::empty()
    } else {
        let before = dirs_among(path, listing.drop_last());
        if listing.last().leads_to_dir {
            before.push(path.push(listing.last().name@))
        } else {
            before
        }
    }
}

/// The directories among what the directory at `path` holds.
pub fn directories_in(path: &FsPath, listing: &Vec<Listed>) -> (r: Vec<FsPath>)
    ensures
        views(r@) == dirs_among(path@, listing@),
{
    let mut dirs: Vec<FsPath> = Vec::new();
    let mut i: usize = 0;
    assert(views(dirs@) =~= dirs_among(path@, listing@.take(0)));
    while i < listing.len()
        invariant
            i <= listing.len(),
            views(dirs@) == dirs_among(path@, listing@.take(i as int)),
        decreases listing.len() - i,
    {
        let ghost before = dirs@;
        assert(listing@.take(i + 1).drop_last() =~= listing@.take(i as int));
        if listing[i].leads_to_dir {
            dirs.push(path.child(listing[i].name.as_slice()));
            assert(views(dirs@) =~= views(before).push(path@.push(listing@[i as int].name@)));
        }
        i = i + 1;
    }
    assert(listing@.take(i as int) =~= listing@);
    dirs
}

/// Taking a share of every build lock under a target directory.
///
/// Cargo puts its lock in the profile directory, and one level deeper when the
/// build was given a target triple. Looked for in those two places rather than
/// by walking: a profile directory holds the artifacts.
#[derive(Debug)]
pub enum Acquiring {
    /// Listing the target directory.
    ListSource { src: FsPath },
    /// Asking whether a directory in it holds a lock.
    Direct { found: Vec<FsPath>, todo: Vec<FsPath>, at: usize },
    /// Listing one that does not.
    ListNested { found: Vec<FsPath>, todo: Vec<FsPath>, at: usize },
    /// Asking whether a directory in that one holds a lock.
    Nested {
        found: Vec<FsPath>,
        todo: Vec<FsPath>,
        at: usize,
        inner: Vec<FsPath>,
        inner_at: usize,
    },
    /// Taking the locks that were found.
    Take { found: Vec<FsPath>, at: usize, held: Vec<FsPath> },
    /// Letting go of those that were taken, for want of one.
    Refuse { error: Error },
}

/// What becomes of taking locks when it is answered.
pub type LockStep = Step<Acquiring, Result<BuildLocks, Error>>;

/// Going on with the lock of index `at`; done where there is none.
pub open spec fn taking(
    found: Seq<Seq<Seq<u8>>>,
    at: nat,
    held: Seq<Seq<Seq<u8>>>,
    o: LockStep,
) -> bool {
    if at < found.len() {
        &&& o matches Step::Ask(Acquiring::Take { found: f, at: i, held: h })
        &&& views(f@) == found
        &&& i == at
        &&& views(h@) == held
    } else {
        o matches Step::Done(Ok(locks)) && views(locks.held@) == held
    }
}

/// Going on with the directory of index `at`; with the taking where there is
/// none.
pub open spec fn looking(
    found: Seq<Seq<Seq<u8>>>,
    todo: Seq<Seq<Seq<u8>>>,
    at: nat,
    o: LockStep,
) -> bool {
    if at < todo.len() {
        &&& o matches Step::Ask(Acquiring::Direct { found: f, todo: d, at: i })
        &&& views(f@) == found
        &&& views(d@) == todo
        &&& i == at
    } else {
        taking(found, 0, Seq::empty(), o)
    }
}

/// Going on with the inner directory of index `inner_at`; with the next outer
/// one where there is none.
pub open spec fn looking_inside(
    found: Seq<Seq<Seq<u8>>>,
    todo: Seq<Seq<Seq<u8>>>,
    at: nat,
    inner: Seq<Seq<Seq<u8>>>,
    inner_at: nat,
    o: LockStep,
) -> bool {
    if inner_at < inner.len() {
        &&& o matches Step::Ask(
            Acquiring::Nested { found: f, todo: d, at: i, inner: n, inner_at: j },
        )
        &&& views(f@) == found
        &&& views(d@) == todo
        &&& i == at
        &&& views(n@) == inner
        &&& j == inner_at
    } else {
        looking(found, todo, at + 1, o)
    }
}

/// Starts taking a shared lock on every profile lock under `src`.
///
/// Shared rather than exclusive: several of these may run at once, and what
/// must not overlap is this and a build. Refused rather than waited on: a caller
/// told that a build is running can decide.
pub fn acquire(src: &FsPath) -> (r: Acquiring)
    ensures
        r matches Acquiring::ListSource { src: p } && p@ == src@,
{
    Acquiring::ListSource { src: src.clone() }
}

fn take_from(found: Vec<FsPath>, at: usize, held: Vec<FsPath>) -> (o: LockStep)
    ensures
        taking(views(found@), at as nat, views(held@), o),
        o matches Step::Ask(t) ==> t.wf(),
{
    if at < found.len() {
        Step::Ask(Acquiring::Take { found, at, held })
    } else {
        Step::Done(Ok(BuildLocks { held }))
    }
}

fn look_from(found: Vec<FsPath>, todo: Vec<FsPath>, at: usize) -> (o: LockStep)
    ensures
        looking(views(found@), views(todo@), at as nat, o),
        o matches Step::Ask(t) ==> t.wf(),
{
    if at < todo.len() {
        Step::Ask(Acquiring::Direct { found, todo, at })
    } else {
        let held: Vec<FsPath> = Vec::new();
        assert(views(held@) =~= Seq::empty());
        take_from(found, 0, held)
    }
}

fn look_inside_from(
    found: Vec<FsPath>,
    todo: Vec<FsPath>,
    at: usize,
    inner: Vec<FsPath>,
    inner_at: usize,
) -> (o: LockStep)
    requires
        at < todo.len(),
    ensures
        looking_inside(
            views(found@),
            views(todo@),
            at as nat,
            views(inner@),
            inner_at as nat,
            o,
        ),
        o matches Step::Ask(t) ==> t.wf(),
{
    if inner_at < inner.len() {
        Step::Ask(Acquiring::Nested { found, todo, at, inner, inner_at })
    } else {
        look_from(found, todo, at + 1)
    }
}

impl Acquiring {
    /// The indices point into the lists.
    pub open spec fn wf(self) -> bool {
        match self {
            Acquiring::ListSource { .. } => true,
            Acquiring::Direct { todo, at, .. } => at < todo.len(),
            Acquiring::ListNested { todo, at, .. } => at < todo.len(),
            Acquiring::Nested { todo, at, inner, inner_at, .. } => at < todo.len() && inner_at
                < inner.len(),
            Acquiring::Take { found, at, .. } => at < found.len(),
            Acquiring::Refuse { error } => error is SourceBusy || error is Io,
        }
    }

    /// What is asked next.
    pub open spec fn asked(self) -> Asked {
        match self {
            Acquiring::ListSource { src } => Request::List(src@),
            Acquiring::Direct { todo, at, .. } => Request::IsFile(
                todo@[at as int]@.push(os(LOCK_FILE)),
            ),
            Acquiring::ListNested { todo, at, .. } => Request::List(todo@[at as int]@),
            Acquiring::Nested { inner, inner_at, .. } => Request::IsFile(
                inner@[inner_at as int]@.push(os(LOCK_FILE)),
            ),
            Acquiring::Take { found, at, .. } => Request::LockShared(found@[at as int]@),
            Acquiring::Refuse { .. } => Request::ReleaseLocks,
        }
    }

    /// What becomes of the taking when it is answered.
    pub open spec fn next(self, a: Answer, o: LockStep) -> bool {
        match (self, a) {
            (Acquiring::ListSource { src }, Answer::Listing(Ok(listing))) => looking(
                Seq::empty(),
                dirs_among(src@, listing@),
                0,
                o,
            ),
            (Acquiring::ListSource { src }, Answer::Listing(Err(f))) => o matches Step::Done(Err(e))
                && is_io(e, "reading", src@, f),
            (Acquiring::Direct { found, todo, at }, Answer::Flag(true)) => looking(
                views(found@).push(todo@[at as int]@.push(os(LOCK_FILE))),
                views(todo@),
                at as nat + 1,
                o,
            ),
            (Acquiring::Direct { found, todo, at }, Answer::Flag(false)) => o == LockStep::Ask(
                Acquiring::ListNested { found, todo, at },
            ),
            (Acquiring::ListNested { found, todo, at }, Answer::Listing(Ok(listing))) =>
                looking_inside(
                views(found@),
                views(todo@),
                at as nat,
                dirs_among(todo@[at as int]@, listing@),
                0,
                o,
            ),
            (Acquiring::ListNested { todo, at, .. }, Answer::Listing(Err(f))) =>
                o matches Step::Done(Err(e)) && is_io(e, "reading", todo@[at as int]@, f),
            (Acquiring::Nested { found, todo, at, inner, inner_at }, Answer::Flag(yes)) =>
                looking_inside(
                if yes {
                    views(found@).push(inner@[inner_at as int]@.push(os(LOCK_FILE)))
                } else {
                    views(found@)
                },
                views(todo@),
                at as nat,
                views(inner@),
                inner_at as nat + 1,
                o,
            ),
            (Acquiring::Take { found, at, held }, Answer::Lock(Lock::Taken)) => taking(
                views(found@),
                at as nat + 1,
                views(held@).push(found@[at as int]@),
                o,
            ),
            (Acquiring::Take { found, at, held }, Answer::Lock(Lock::Unsupported)) => taking(
                views(found@),
                at as nat + 1,
                views(held@),
                o,
            ),
            (Acquiring::Take { found, at, .. }, Answer::Lock(Lock::Busy)) => {
                &&& o matches Step::Ask(Acquiring::Refuse { error: Error::SourceBusy { path } })
                &&& path@ == found@[at as int]@
            },
            (Acquiring::Take { found, at, .. }, Answer::Lock(Lock::Unopened(f))) =>
                o matches Step::Ask(Acquiring::Refuse { error }) && is_io(
                error,
                "opening the build lock",
                found@[at as int]@,
                f,
            ),
            (Acquiring::Take { found, at, .. }, Answer::Lock(Lock::Failed(f))) =>
                o matches Step::Ask(Acquiring::Refuse { error }) && is_io(
                error,
                "locking",
                found@[at as int]@,
                f,
            ),
            (Acquiring::Refuse { error }, Answer::Done(_)) => o == LockStep::Done(Err(error)),
            _ => o == LockStep::Ask(self),
        }
    }

    /// What is to be done next.
    pub fn request(&self) -> (r: Ask)
        requires
            self.wf(),
        ensures
            r@ == self.asked(),
    {
        match self {
            Acquiring::ListSource { src } => Request::List(src.clone()),
            Acquiring::Direct { todo, at, .. } => Request::IsFile(todo[*at].join(LOCK_FILE)),
            Acquiring::ListNested { todo, at, .. } => Request::List(todo[*at].clone()),
            Acquiring::Nested { inner, inner_at, .. } => Request::IsFile(
                inner[*inner_at].join(LOCK_FILE),
            ),
            Acquiring::Take { found, at, .. } => Request::LockShared(found[*at].clone()),
            Acquiring::Refuse { .. } => Request::ReleaseLocks,
        }
    }

    /// Takes in what came of it.
    pub fn step(self, a: Answer) -> (o: LockStep)
        requires
            self.wf(),
        ensures
            self.next(a, o),
            o matches Step::Ask(t) ==> t.wf(),
    {
        match (self, a) {
            (Acquiring::ListSource { src }, Answer::Listing(Ok(listing))) => {
                let found: Vec<FsPath> = Vec::new();
                assert(views(found@) =~= Seq::empty());
                look_from(found, directories_in(&src, &listing), 0)
            },
            (Acquiring::ListSource { src }, Answer::Listing(Err(f))) => Step::Done(
                Err(Error::io("reading", src, f)),
            ),
            (Acquiring::Direct { found, todo, at }, Answer::Flag(true)) => {
                let mut found = found;
                let ghost before = found@;
                found.push(todo[at].join(LOCK_FILE));
                assert(views(found@) =~= views(before).push(todo@[at as int]@.push(os(LOCK_FILE))));
                look_from(found, todo, at + 1)
            },
            (Acquiring::Direct { found, todo, at }, Answer::Flag(false)) => Step::Ask(
                Acquiring::ListNested { found, todo, at },
            ),
            (Acquiring::ListNested { found, todo, at }, Answer::Listing(Ok(listing))) => {
                let inner = directories_in(&todo[at], &listing);
                look_inside_from(found, todo, at, inner, 0)
            },
            (Acquiring::ListNested { todo, at, .. }, Answer::Listing(Err(f))) => Step::Done(
                Err(Error::io("reading", todo[at].clone(), f)),
            ),
            (Acquiring::Nested { found, todo, at, inner, inner_at }, Answer::Flag(yes)) => {
                let mut found = found;
                let ghost before = found@;
                if yes {
                    found.push(inner[inner_at].join(LOCK_FILE));
                    assert(views(found@) =~= views(before).push(
                        inner@[inner_at as int]@.push(os(LOCK_FILE)),
                    ));
                }
                look_inside_from(found, todo, at, inner, inner_at + 1)
            },
            (Acquiring::Take { found, at, held }, Answer::Lock(Lock::Taken)) => {
                let mut held = held;
                let ghost before = held@;
                held.push(found[at].clone());
                assert(views(held@) =~= views(before).push(found@[at as int]@));
                take_from(found, at + 1, held)
            },
            (Acquiring::Take { found, at, held }, Answer::Lock(Lock::Unsupported)) => take_from(
                found,
                at + 1,
                held,
            ),
            (Acquiring::Take { found, at, .. }, Answer::Lock(Lock::Busy)) => Step::Ask(
                Acquiring::Refuse { error: Error::SourceBusy { path: found[at].clone() } },
            ),
            (Acquiring::Take { found, at, .. }, Answer::Lock(Lock::Unopened(f))) => Step::Ask(
                Acquiring::Refuse {
                    error: Error::io("opening the build lock", found[at].clone(), f),
                },
            ),
            (Acquiring::Take { found, at, .. }, Answer::Lock(Lock::Failed(f))) => Step::Ask(
                Acquiring::Refuse { error: Error::io("locking", found[at].clone(), f) },
            ),
            (Acquiring::Refuse { error }, Answer::Done(_)) => Step::Done(Err(error)),
            (same, _) => Step::Ask(same),
        }
    }
}

/// Every answer leaves the taking well-formed.
pub proof fn lemma_locking_step(s: Acquiring, a: Answer, o: LockStep)
    requires
        s.wf(),
        s.next(a, o),
    ensures
        o matches Step::Ask(t) ==> t.wf(),
{
    match o {
        Step::Ask(Acquiring::Direct { todo, at, .. }) => {
            assert(views(todo@).len() == todo.len());
        },
        Step::Ask(Acquiring::ListNested { todo, at, .. }) => {
            assert(views(todo@).len() == todo.len());
        },
        Step::Ask(Acquiring::Nested { todo, at, inner, .. }) => {
            assert(views(todo@).len() == todo.len());
            assert(views(inner@).len() == inner.len());
            match s {
                Acquiring::ListNested { todo: before, .. } => {
                    assert(views(before@).len() == before.len());
                },
                Acquiring::Nested { todo: before, .. } => {
                    assert(views(before@).len() == before.len());
                },
                _ => {},
            }
        },
        Step::Ask(Acquiring::Take { found, .. }) => {
            assert(views(found@).len() == found.len());
        },
        _ => {},
    }
}

/// The lock files in the directories from index `at` on.
pub open spec fn nested_locks(
    inner: Seq<Seq<Seq<u8>>>,
    at: nat,
    file: spec_fn(Seq<Seq<u8>>) -> bool,
) -> Seq<Seq<Seq<u8>>>
    decreases inner.len() - at,
{
    if at >= inner.len() {
        Seq::empty()
    } else {
        let path = inner[at as int].push(os(LOCK_FILE));
        (if file(path) {
            seq![path]
        } else {
            Seq::empty()
        }) + nested_locks(inner, at + 1, file)
    }
}

/// The lock files in the directories from index `at` on, or in the directories
/// that those without one hold.
pub open spec fn locks_from(
    todo: Seq<Seq<Seq<u8>>>,
    at: nat,
    dirs: spec_fn(Seq<Seq<u8>>) -> Seq<Seq<Seq<u8>>>,
    file: spec_fn(Seq<Seq<u8>>) -> bool,
) -> Seq<Seq<Seq<u8>>>
    decreases todo.len() - at,
{
    if at >= todo.len() {
        Seq::empty()
    } else {
        let path = todo[at as int].push(os(LOCK_FILE));
        (if file(path) {
            seq![path]
        } else {
            nested_locks(dirs(todo[at as int]), 0, file)
        }) + locks_from(todo, at + 1, dirs, file)
    }
}

impl Acquiring {
    /// The taking is told what such a file system says, and becomes `o`.
    pub open spec fn hears(
        self,
        a: Answer,
        dirs: spec_fn(Seq<Seq<u8>>) -> Seq<Seq<Seq<u8>>>,
        file: spec_fn(Seq<Seq<u8>>) -> bool,
        o: LockStep,
    ) -> bool {
        self.told(a, dirs, file) && self.next(a, o)
    }

    /// The taking is on the way to all lock files under `src`, in a file system
    /// where `dirs` are the directories in a directory and `file` says where a
    /// regular file is.
    pub open spec fn covers(
        self,
        src: Seq<Seq<u8>>,
        dirs: spec_fn(Seq<Seq<u8>>) -> Seq<Seq<Seq<u8>>>,
        file: spec_fn(Seq<Seq<u8>>) -> bool,
    ) -> bool {
        let all = locks_from(dirs(src), 0, dirs, file);
        match self {
            Acquiring::ListSource { src: p } => p@ == src,
            Acquiring::Direct { found, todo, at } => all == views(found@) + locks_from(
                views(todo@),
                at as nat,
                dirs,
                file,
            ),
            Acquiring::ListNested { found, todo, at } => {
                &&& !file(todo@[at as int]@.push(os(LOCK_FILE)))
                &&& all == views(found@) + locks_from(views(todo@), at as nat, dirs, file)
            },
            Acquiring::Nested { found, todo, at, inner, inner_at } => all == views(found@)
                + nested_locks(views(inner@), inner_at as nat, file) + locks_from(
                views(todo@),
                at as nat + 1,
                dirs,
                file,
            ),
            Acquiring::Take { found, at, held } => all == views(found@) && views(held@)
                == views(found@).take(at as int),
            Acquiring::Refuse { .. } => false,
        }
    }

    /// The answer is what such a file system gives, and every lock is free.
    pub open spec fn told(
        self,
        a: Answer,
        dirs: spec_fn(Seq<Seq<u8>>) -> Seq<Seq<Seq<u8>>>,
        file: spec_fn(Seq<Seq<u8>>) -> bool,
    ) -> bool {
        match self.asked() {
            Request::List(path) => a matches Answer::Listing(Ok(listing)) && dirs_among(
                path,
                listing@,
            ) == dirs(path),
            Request::IsFile(path) => a == Answer::Flag(file(path)),
            _ => a == Answer::Lock(Lock::Taken),
        }
    }
}

proof fn lemma_covers_step(
    s: Acquiring,
    a: Answer,
    o: LockStep,
    src: Seq<Seq<u8>>,
    dirs: spec_fn(Seq<Seq<u8>>) -> Seq<Seq<Seq<u8>>>,
    file: spec_fn(Seq<Seq<u8>>) -> bool,
)
    requires
        s.wf(),
        s.covers(src, dirs, file),
        s.told(a, dirs, file),
        s.next(a, o),
    ensures
        match o {
            Step::Ask(t) => t.covers(src, dirs, file),
            Step::Done(Ok(locks)) => views(locks.held@) == locks_from(dirs(src), 0, dirs, file),
            Step::Done(Err(_)) => false,
        },
{
    let all = locks_from(dirs(src), 0, dirs, file);
    match s {
        Acquiring::ListSource { .. } => {
            assert(Seq::<Seq<Seq<u8>>>::empty() + all =~= all);
        },
        Acquiring::Direct { found, todo, at } => {
            let path = todo@[at as int]@.push(os(LOCK_FILE));
            let rest = locks_from(views(todo@), at as nat + 1, dirs, file);
            assert(views(todo@)[at as int] == todo@[at as int]@);
            if file(path) {
                assert(views(found@) + (seq![path] + rest) =~= views(found@).push(path) + rest);
            }
            lemma_nothing_left(views(found@).push(path), rest);
        },
        Acquiring::ListNested { found, todo, at } => {
            let inner = dirs(todo@[at as int]@);
            let rest = locks_from(views(todo@), at as nat + 1, dirs, file);
            assert(views(todo@)[at as int] == todo@[at as int]@);
            assert(views(found@) + (nested_locks(inner, 0, file) + rest) =~= views(found@)
                + nested_locks(inner, 0, file) + rest);
            lemma_nothing_left(views(found@), rest);
        },
        Acquiring::Nested { found, todo, at, inner, inner_at } => {
            let path = inner@[inner_at as int]@.push(os(LOCK_FILE));
            let more = nested_locks(views(inner@), inner_at as nat + 1, file);
            let rest = locks_from(views(todo@), at as nat + 1, dirs, file);
            assert(views(inner@)[inner_at as int] == inner@[inner_at as int]@);
            if file(path) {
                assert(views(found@) + (seq![path] + more) + rest =~= views(found@).push(path)
                    + more + rest);
                lemma_nothing_left(views(found@).push(path), rest);
            } else {
                assert(Seq::<Seq<Seq<u8>>>::empty() + more =~= more);
                lemma_nothing_left(views(found@), rest);
            }
            assert(views(found@).push(path) + Seq::<Seq<Seq<u8>>>::empty() + rest =~= views(
                found@,
            ).push(path) + rest);
            assert(views(found@) + Seq::<Seq<Seq<u8>>>::empty() + rest =~= views(found@) + rest);
        },
        Acquiring::Take { found, at, held } => {
            let list = views(found@);
            assert(list.take(at as int).push(list[at as int]) =~= list.take(at + 1));
            assert(list.take(list.len() as int) =~= list);
        },
        Acquiring::Refuse { .. } => {},
    }
}

/// What the taking that starts as `s` has become once it is told all that, by a
/// file system where `dirs` are the directories in a directory, `file` says
/// where a regular file is, and every lock is free.
pub open spec fn acquires(
    s: Acquiring,
    told: Seq<Answer>,
    dirs: spec_fn(Seq<Seq<u8>>) -> Seq<Seq<Seq<u8>>>,
    file: spec_fn(Seq<Seq<u8>>) -> bool,
    o: LockStep,
) -> bool
    decreases told.len(),
{
    if told.len() == 0 {
        o == LockStep::Ask(s)
    } else {
        exists|t: Acquiring|
            acquires(s, told.drop_last(), dirs, file, Step::Ask(t)) && #[trigger] t.hears(
                told.last(),
                dirs,
                file,
                o,
            )
    }
}

proof fn lemma_acquires(
    s: Acquiring,
    told: Seq<Answer>,
    src: Seq<Seq<u8>>,
    dirs: spec_fn(Seq<Seq<u8>>) -> Seq<Seq<Seq<u8>>>,
    file: spec_fn(Seq<Seq<u8>>) -> bool,
    o: LockStep,
)
    requires
        s matches Acquiring::ListSource { src: path } && path@ == src,
        acquires(s, told, dirs, file, o),
    ensures
        match o {
            Step::Ask(t) => t.wf() && t.covers(src, dirs, file),
            Step::Done(Ok(locks)) => views(locks.held@) == locks_from(dirs(src), 0, dirs, file),
            Step::Done(Err(_)) => false,
        },
    decreases told.len(),
{
    if told.len() > 0 {
        let t = choose|t: Acquiring|
            acquires(s, told.drop_last(), dirs, file, Step::Ask(t)) && #[trigger] t.hears(
                told.last(),
                dirs,
                file,
                o,
            );
        lemma_acquires(s, told.drop_last(), src, dirs, file, Step::Ask(t));
        lemma_covers_step(t, told.last(), o, src, dirs, file);
        lemma_locking_step(t, told.last(), o);
    }
}

/// Where every lock is free the taking is not refused, and the locks that are
/// held in the end are those of all the profile directories: the ones in the
/// target directory, and the ones a level deeper in the directories that hold no
/// lock themselves.
pub proof fn law_every_build_lock_is_taken(
    s: Acquiring,
    told: Seq<Answer>,
    src: Seq<Seq<u8>>,
    dirs: spec_fn(Seq<Seq<u8>>) -> Seq<Seq<Seq<u8>>>,
    file: spec_fn(Seq<Seq<u8>>) -> bool,
    r: Result<BuildLocks, Error>,
)
    requires
        s matches Acquiring::ListSource { src: path } && path@ == src,
        acquires(s, told, dirs, file, LockStep::Done(r)),
    ensures
        r matches Ok(locks) && views(locks.held@) == locks_from(dirs(src), 0, dirs, file),
{
    lemma_acquires(s, told, src, dirs, file, Step::Done(r));
}

impl Acquiring {
    /// The taking can be told that, and becomes `o`.
    pub open spec fn moves(self, event: (Asked, Answer), o: LockStep) -> bool {
        event.0 == self.asked() && event.0.fits(event.1) && self.next(event.1, o)
    }
}

/// What the taking that starts as `s` has become after all that.
pub open spec fn locks(s: Acquiring, events: Events, o: LockStep) -> bool
    decreases events.len(),
{
    if events.len() == 0 {
        o == LockStep::Ask(s)
    } else {
        exists|t: Acquiring|
            locks(s, events.drop_last(), Step::Ask(t)) && #[trigger] t.moves(events.last(), o)
    }
}

proof fn lemma_locks(s: Acquiring, events: Events, t: Acquiring)
    requires
        s is ListSource,
        locks(s, events, LockStep::Ask(t)),
    ensures
        t.wf(),
        shares_held(events) ==> t is Take || t is Refuse,
    decreases events.len(),
{
    if events.len() > 0 {
        let p = choose|p: Acquiring|
            locks(s, events.drop_last(), Step::Ask(p)) && #[trigger] p.moves(
                events.last(),
                LockStep::Ask(t),
            );
        lemma_locks(s, events.drop_last(), p);
        lemma_locking_step(p, events.last().1, LockStep::Ask(t));
    }
}

/// A taking that is refused holds none of the locks that it took.
pub proof fn law_a_refused_taking_holds_nothing(s: Acquiring, events: Events, e: Error)
    requires
        s is ListSource,
        locks(s, events, LockStep::Done(Err(e))),
    ensures
        !shares_held(events),
{
    let o = LockStep::Done(Err(e));
    let t = choose|t: Acquiring|
        locks(s, events.drop_last(), Step::Ask(t)) && #[trigger] t.moves(events.last(), o);
    lemma_locks(s, events.drop_last(), t);
}

/// A build lock that something else holds ends the taking, without waiting: all
/// that is still asked for is that what was taken is let go of, and the error
/// says which lock it is.
pub proof fn law_refused_while_a_build_runs(s: Acquiring, o: LockStep, a: Answer, p: LockStep)
    requires
        s.asked() is LockShared,
        s.next(Answer::Lock(Lock::Busy), o),
        o matches Step::Ask(t) ==> t.moves((Request::ReleaseLocks, a), p),
    ensures
        o matches Step::Ask(t) && t.asked() is ReleaseLocks,
        p matches Step::Done(Err(Error::SourceBusy { path })) && s.asked() == Request::<
            Seq<Seq<u8>>,
            Seq<u8>,
        >::LockShared(path@),
{
}

proof fn lemma_nothing_left(found: Seq<Seq<Seq<u8>>>, rest: Seq<Seq<Seq<u8>>>)
    ensures
        found.take(0) == Seq::<Seq<Seq<u8>>>::empty(),
        rest.len() == 0 ==> found + rest == found,
{
    assert(found.take(0) =~= Seq::empty());
    if rest.len() == 0 {
        assert(found + rest =~= found);
    }
}

} // verus!
