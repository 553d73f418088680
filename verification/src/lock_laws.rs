//! Which build locks are taken, told from what was listed.

use crate::error::Error;
use crate::lock::{
    dirs_among, lemma_locking_step, locks, looking, looking_inside, taking, Acquiring, BuildLocks,
    LockStep,
};
use crate::path::{os, views};
use crate::protocol::{Answer, Asked, Events, Listed, Lock, Request, Step};
use vstd::prelude::*;
use vstd::utf8::encode_utf8;

verus! {

/// Of what a directory holds, the directories that are looked into are those
/// that are directories, every one of them and nothing else, in the order in
/// which they are listed.
pub proof fn law_every_listed_directory_is_looked_into(path: Seq<Seq<u8>>, listing: Seq<Listed>)
    ensures
        dirs_among(path, listing) == listing.filter(|l: Listed| l.leads_to_dir).map_values(
            |l: Listed| path.push(l.name@),
        ),
        forall|k: int|
            0 <= k < listing.len() && (#[trigger] listing[k]).leads_to_dir ==> dirs_among(
                path,
                listing,
            ).contains(path.push(listing[k].name@)),
        forall|p: Seq<Seq<u8>>| #[trigger]
            dirs_among(path, listing).contains(p) ==> exists|k: int|
                0 <= k < listing.len() && (#[trigger] listing[k]).leads_to_dir && p == path.push(
                    listing[k].name@,
                ),
    decreases listing.len(),
{
    let is_dir = |l: Listed| l.leads_to_dir;
    let at = |l: Listed| path.push(l.name@);
    let all = dirs_among(path, listing);
    reveal(Seq::filter);
    if listing.len() == 0 {
        assert(listing.filter(is_dir).map_values(at) =~= all);
    } else {
        let before = listing.drop_last();
        let fewer = dirs_among(path, before);
        law_every_listed_directory_is_looked_into(path, before);
        assert(all =~= listing.filter(is_dir).map_values(at));
        assert(all.take(fewer.len() as int) =~= fewer);
        assert forall|k: int|
            0 <= k < listing.len() && (#[trigger] listing[k]).leads_to_dir implies all.contains(
            path.push(listing[k].name@),
        ) by {
            if k < before.len() {
                assert(before[k] == listing[k]);
                let i = choose|i: int| 0 <= i < fewer.len() && fewer[i] == path.push(listing[k].name@);
                assert(all[i] == fewer[i]);
            } else {
                assert(all.last() == path.push(listing[k].name@));
            }
        }
        assert forall|p: Seq<Seq<u8>>| #[trigger] all.contains(p) implies exists|k: int|
            0 <= k < listing.len() && (#[trigger] listing[k]).leads_to_dir && p == path.push(
                listing[k].name@,
            ) by {
            let i = choose|i: int| 0 <= i < all.len() && all[i] == p;
            if i < fewer.len() {
                assert(fewer[i] == p);
                assert(fewer.contains(p));
                let k = choose|k: int|
                    0 <= k < before.len() && (#[trigger] before[k]).leads_to_dir && p == path.push(
                        before[k].name@,
                    );
                assert(listing[k] == before[k]);
            } else {
                assert(listing[listing.len() - 1].leads_to_dir);
            }
        }
    }
}

/// The directory is still to be asked about.
pub open spec fn waits(o: LockStep, p: Seq<Seq<u8>>) -> bool {
    match o {
        Step::Ask(Acquiring::Direct { todo, at, .. }) => views(todo@).skip(at as int).contains(p),
        Step::Ask(Acquiring::ListNested { todo, at, .. }) => views(todo@).skip(at + 1).contains(p),
        Step::Ask(Acquiring::Nested { todo, at, inner, inner_at, .. }) => {
            ||| views(inner@).skip(inner_at as int).contains(p)
            ||| views(todo@).skip(at + 1).contains(p)
        },
        _ => false,
    }
}

/// The lock is still to be taken.
pub open spec fn is_due(o: LockStep, p: Seq<Seq<u8>>) -> bool {
    match o {
        Step::Ask(Acquiring::Direct { found, .. }) => views(found@).contains(p),
        Step::Ask(Acquiring::ListNested { found, .. }) => views(found@).contains(p),
        Step::Ask(Acquiring::Nested { found, .. }) => views(found@).contains(p),
        Step::Ask(Acquiring::Take { found, at, .. }) => views(found@).skip(at as int).contains(p),
        _ => false,
    }
}

/// The lock is held.
pub open spec fn is_held(o: LockStep, p: Seq<Seq<u8>>) -> bool {
    match o {
        Step::Ask(Acquiring::Take { held, .. }) => views(held@).contains(p),
        Step::Done(Ok(locks)) => views(locks.held@).contains(p),
        _ => false,
    }
}

/// The directory is to be listed next.
pub open spec fn lists_next(o: LockStep, p: Seq<Seq<u8>>) -> bool {
    &&& o matches Step::Ask(Acquiring::ListNested { todo, at, .. })
    &&& at < todo@.len()
    &&& todo@[at as int]@ == p
}

/// How deep what is looked into stands.
pub open spec fn is_near(o: LockStep, depth: nat) -> bool {
    match o {
        Step::Ask(Acquiring::Direct { todo, at, .. }) => at < todo.len() && forall|i: int|
            0 <= i < todo@.len() ==> (#[trigger] todo@[i])@.len() == depth + 1,
        Step::Ask(Acquiring::ListNested { todo, at, .. }) => at < todo.len() && forall|i: int|
            0 <= i < todo@.len() ==> (#[trigger] todo@[i])@.len() == depth + 1,
        Step::Ask(Acquiring::Nested { todo, at, inner, inner_at, .. }) => {
            &&& at < todo.len()
            &&& inner_at < inner.len()
            &&& forall|i: int| 0 <= i < todo@.len() ==> (#[trigger] todo@[i])@.len() == depth + 1
            &&& forall|i: int| 0 <= i < inner@.len() ==> (#[trigger] inner@[i])@.len() == depth + 2
        },
        _ => true,
    }
}

/// A directory of that path was listed.
pub open spec fn was_listed(events: Events, p: Seq<Seq<u8>>) -> bool {
    exists|d: Seq<Seq<u8>>, l: Vec<Listed>, k: int|
        #![trigger events.contains((Request::List(d), Answer::Listing(Ok(l)))), l@[k]]
        events.contains((Request::List(d), Answer::Listing(Ok(l)))) && 0 <= k < l@.len()
            && l@[k].leads_to_dir && p == d.push(l@[k].name@)
}

/// What is in it was listed.
pub open spec fn was_opened(events: Events, p: Seq<Seq<u8>>) -> bool {
    exists|l: Vec<Listed>| #[trigger]
        events.contains((Request::List(p), Answer::Listing(Ok(l))))
}

/// What was told, as far as the taking has come.
pub open spec fn keeps_up(o: LockStep, events: Events, src: Seq<Seq<u8>>) -> bool {
    let lock = os(".cargo-lock");
    &&& is_near(o, src.len())
    &&& forall|p: Seq<Seq<u8>>| #[trigger]
        was_listed(events, p) ==> waits(o, p) || events.contains(
            (Request::IsFile(p.push(lock)), Answer::Flag(true)),
        ) || events.contains((Request::IsFile(p.push(lock)), Answer::Flag(false)))
    &&& forall|p: Seq<Seq<u8>>| #[trigger]
        events.contains((Request::IsFile(p), Answer::Flag(true))) ==> is_due(o, p)
            || events.contains((Request::LockShared(p), Answer::Lock(Lock::Taken)))
            || events.contains((Request::LockShared(p), Answer::Lock(Lock::Unsupported)))
    &&& forall|p: Seq<Seq<u8>>| #[trigger]
        events.contains((Request::LockShared(p), Answer::Lock(Lock::Taken))) ==> is_held(o, p)
    &&& forall|p: Seq<Seq<u8>>| #[trigger]
        events.contains((Request::IsFile(p), Answer::Flag(false))) && p.len() == src.len() + 2
            ==> lists_next(o, p.drop_last()) || was_opened(events, p.drop_last())
}

/// What the taking has come to is founded on what was told.
pub open spec fn is_founded(o: LockStep, events: Events, src: Seq<Seq<u8>>) -> bool {
    let lock = os(".cargo-lock");
    &&& forall|p: Seq<Seq<u8>>| #[trigger] waits(o, p) ==> was_listed(events, p)
    &&& forall|p: Seq<Seq<u8>>| #[trigger]
        is_due(o, p) ==> events.contains((Request::IsFile(p), Answer::Flag(true)))
    &&& forall|p: Seq<Seq<u8>>| #[trigger]
        is_held(o, p) ==> events.contains(
            (Request::LockShared(p), Answer::Lock(Lock::Taken)),
        )
    &&& forall|p: Seq<Seq<u8>>| #[trigger]
        lists_next(o, p) ==> p.len() == src.len() + 1 && events.contains(
            (Request::IsFile(p.push(lock)), Answer::Flag(false)),
        )
    &&& forall|i: int| 0 <= i < events.len() ==> match (#[trigger] events[i]).0 {
        Request::List(p) => p == src || (p.len() == src.len() + 1 && events.contains(
            (Request::IsFile(p.push(lock)), Answer::Flag(false)),
        )),
        Request::IsFile(p) => p.len() > 0 && p.last() == lock && was_listed(events, p.drop_last()),
        Request::LockShared(p) => events.contains((Request::IsFile(p), Answer::Flag(true))),
        _ => false,
    }
}

/// The taking has not failed.
pub open spec fn is_going_on(o: LockStep) -> bool {
    !(o matches Step::Ask(Acquiring::Refuse { .. })) && !(o matches Step::Done(Err(_)))
}

/// What was told stays so when more is told.
proof fn lemma_more(events: Events)
    requires
        events.len() > 0,
    ensures
        forall|e: (Asked, Answer)| #[trigger]
            events.contains(e) <==> events.drop_last().contains(e) || e == events.last(),
        forall|p: Seq<Seq<u8>>| #[trigger]
            was_listed(events.drop_last(), p) ==> was_listed(events, p),
        forall|p: Seq<Seq<u8>>| #[trigger]
            was_opened(events.drop_last(), p) ==> was_opened(events, p),
{
    let before = events.drop_last();
    assert forall|e: (Asked, Answer)| #[trigger]
        events.contains(e) <==> before.contains(e) || e == events.last() by {
        if before.contains(e) {
            let i = choose|i: int| 0 <= i < before.len() && before[i] == e;
            assert(events[i] == e);
        }
        if events.contains(e) {
            let i = choose|i: int| 0 <= i < events.len() && events[i] == e;
            if i < before.len() {
                assert(before[i] == e);
            }
        }
        assert(events[events.len() - 1] == events.last());
    }
    assert forall|p: Seq<Seq<u8>>| #[trigger] was_listed(before, p) implies was_listed(events, p) by {
        let (d, l, k) = choose|d: Seq<Seq<u8>>, l: Vec<Listed>, k: int|
            #![trigger before.contains((Request::List(d), Answer::Listing(Ok(l)))), l@[k]]
            before.contains((Request::List(d), Answer::Listing(Ok(l)))) && 0 <= k < l@.len()
                && l@[k].leads_to_dir && p == d.push(l@[k].name@);
        assert(events.contains((Request::List(d), Answer::Listing(Ok(l)))));
        assert(l@[k].leads_to_dir);
    }
    assert forall|p: Seq<Seq<u8>>| #[trigger] was_opened(before, p) implies was_opened(events, p) by {
        let l = choose|l: Vec<Listed>| #[trigger]
            before.contains((Request::List(p), Answer::Listing(Ok(l))));
        assert(events.contains((Request::List(p), Answer::Listing(Ok(l)))));
    }
}

proof fn lemma_skip(s: Seq<Seq<Seq<u8>>>, k: int)
    requires
        0 <= k <= s.len(),
    ensures
        forall|p: Seq<Seq<u8>>| #[trigger]
            s.skip(k).contains(p) <==> k < s.len() && (s[k] == p || s.skip(k + 1).contains(p)),
{
    if k < s.len() {
        assert(s.skip(k) =~= seq![s[k]] + s.skip(k + 1));
        assert forall|p: Seq<Seq<u8>>| #[trigger] s.skip(k).contains(p) <==> (s[k] == p || s.skip(
            k + 1,
        ).contains(p)) by {
            let all = s.skip(k);
            let rest = s.skip(k + 1);
            if all.contains(p) && s[k] != p {
                let i = choose|i: int| 0 <= i < all.len() && all[i] == p;
                assert(rest[i - 1] == p);
            }
            if s[k] == p {
                assert(all[0] == p);
            }
            if rest.contains(p) {
                let i = choose|i: int| 0 <= i < rest.len() && rest[i] == p;
                assert(all[i + 1] == p);
            }
        }
    }
}

proof fn lemma_push(s: Seq<Seq<Seq<u8>>>, last: Seq<Seq<u8>>)
    ensures
        forall|p: Seq<Seq<u8>>| #[trigger]
            s.push(last).contains(p) <==> s.contains(p) || p == last,
{
    let more = s.push(last);
    assert forall|p: Seq<Seq<u8>>| #[trigger] more.contains(p) <==> s.contains(p) || p == last by {
        if s.contains(p) {
            let i = choose|i: int| 0 <= i < s.len() && s[i] == p;
            assert(more[i] == p);
        }
        if more.contains(p) {
            let i = choose|i: int| 0 <= i < more.len() && more[i] == p;
            if i < s.len() {
                assert(s[i] == p);
            }
        }
        assert(more[s.len() as int] == last);
    }
}

proof fn lemma_taking(
    found: Seq<Seq<Seq<u8>>>,
    at: nat,
    held: Seq<Seq<Seq<u8>>>,
    o: LockStep,
    depth: nat,
)
    requires
        at <= found.len(),
        taking(found, at, held, o),
    ensures
        is_going_on(o),
        is_near(o, depth),
        forall|p: Seq<Seq<u8>>| !#[trigger] waits(o, p),
        forall|p: Seq<Seq<u8>>| !#[trigger] lists_next(o, p),
        forall|p: Seq<Seq<u8>>| #[trigger] is_due(o, p) <==> found.skip(at as int).contains(p),
        forall|p: Seq<Seq<u8>>| #[trigger] is_held(o, p) <==> held.contains(p),
{
}

proof fn lemma_looking(
    found: Seq<Seq<Seq<u8>>>,
    todo: Seq<Seq<Seq<u8>>>,
    at: nat,
    o: LockStep,
    depth: nat,
)
    requires
        at <= todo.len(),
        forall|i: int| 0 <= i < todo.len() ==> (#[trigger] todo[i]).len() == depth + 1,
        looking(found, todo, at, o),
    ensures
        is_going_on(o),
        is_near(o, depth),
        forall|p: Seq<Seq<u8>>| #[trigger] waits(o, p) <==> todo.skip(at as int).contains(p),
        forall|p: Seq<Seq<u8>>| !#[trigger] lists_next(o, p),
        forall|p: Seq<Seq<u8>>| #[trigger] is_due(o, p) <==> found.contains(p),
        forall|p: Seq<Seq<u8>>| !#[trigger] is_held(o, p),
{
    if at < todo.len() {
        if let Step::Ask(Acquiring::Direct { todo: t, .. }) = o {
            assert forall|i: int| 0 <= i < t@.len() implies (#[trigger] t@[i])@.len() == depth + 1 by {
                assert(views(t@)[i] == t@[i]@);
            }
        }
    } else {
        lemma_taking(found, 0, Seq::empty(), o, depth);
        assert(found.skip(0) =~= found);
    }
}

proof fn lemma_looking_inside(
    found: Seq<Seq<Seq<u8>>>,
    todo: Seq<Seq<Seq<u8>>>,
    at: nat,
    inner: Seq<Seq<Seq<u8>>>,
    inner_at: nat,
    o: LockStep,
    depth: nat,
)
    requires
        at < todo.len(),
        inner_at <= inner.len(),
        forall|i: int| 0 <= i < todo.len() ==> (#[trigger] todo[i]).len() == depth + 1,
        forall|i: int| 0 <= i < inner.len() ==> (#[trigger] inner[i]).len() == depth + 2,
        looking_inside(found, todo, at, inner, inner_at, o),
    ensures
        is_going_on(o),
        is_near(o, depth),
        forall|p: Seq<Seq<u8>>| #[trigger]
            waits(o, p) <==> inner.skip(inner_at as int).contains(p) || todo.skip(
                at as int + 1,
            ).contains(p),
        forall|p: Seq<Seq<u8>>| !#[trigger] lists_next(o, p),
        forall|p: Seq<Seq<u8>>| #[trigger] is_due(o, p) <==> found.contains(p),
        forall|p: Seq<Seq<u8>>| !#[trigger] is_held(o, p),
{
    if inner_at < inner.len() {
        if let Step::Ask(Acquiring::Nested { todo: t, inner: n, .. }) = o {
            assert forall|i: int| 0 <= i < t@.len() implies (#[trigger] t@[i])@.len() == depth + 1 by {
                assert(views(t@)[i] == t@[i]@);
            }
            assert forall|i: int| 0 <= i < n@.len() implies (#[trigger] n@[i])@.len() == depth + 2 by {
                assert(views(n@)[i] == n@[i]@);
            }
        }
    } else {
        lemma_looking(found, todo, at + 1, o, depth);
    }
}

/// A listing that was told is what the directories looked into come from.
proof fn lemma_listing(events: Events, path: Seq<Seq<u8>>, l: Vec<Listed>)
    requires
        events.len() > 0,
        events.last().0 == Asked::List(path),
        events.last().1 == Answer::Listing(Ok(l)),
    ensures
        forall|p: Seq<Seq<u8>>| #[trigger]
            was_listed(events, p) <==> was_listed(events.drop_last(), p) || dirs_among(
                path,
                l@,
            ).contains(p),
        forall|i: int|
            0 <= i < dirs_among(path, l@).len() ==> (#[trigger] dirs_among(path, l@)[i]).len()
                == path.len() + 1,
        was_opened(events, path),
{
    let dirs = dirs_among(path, l@);
    lemma_more(events);
    law_every_listed_directory_is_looked_into(path, l@);
    assert(events.contains((Request::List(path), Answer::Listing(Ok(l)))));
    assert forall|i: int| 0 <= i < dirs.len() implies (#[trigger] dirs[i]).len() == path.len() + 1 by {
        assert(dirs.contains(dirs[i]));
    }
    assert forall|p: Seq<Seq<u8>>| #[trigger]
        was_listed(events, p) <==> was_listed(events.drop_last(), p) || dirs.contains(p) by {
        if dirs.contains(p) {
            let k = choose|k: int|
                0 <= k < l@.len() && (#[trigger] l@[k]).leads_to_dir && p == path.push(l@[k].name@);
            assert(l@[k].leads_to_dir);
        }
        if was_listed(events, p) {
            let (d, m, k) = choose|d: Seq<Seq<u8>>, l: Vec<Listed>, k: int|
                #![trigger events.contains((Request::List(d), Answer::Listing(Ok(l)))), l@[k]]
                events.contains((Request::List(d), Answer::Listing(Ok(l)))) && 0 <= k < l@.len()
                    && l@[k].leads_to_dir && p == d.push(l@[k].name@);
            if events.drop_last().contains((Request::List(d), Answer::Listing(Ok(m)))) {
                assert(m@[k].leads_to_dir);
                assert(was_listed(events.drop_last(), p));
            } else {
                assert(m == l && d == path);
                assert(l@[k].leads_to_dir);
            }
        }
    }
}

/// Where no listing was told last, no directory was listed last.
proof fn lemma_no_listing(events: Events)
    requires
        events.len() > 0,
        !(events.last().0 is List),
    ensures
        forall|p: Seq<Seq<u8>>| #[trigger]
            was_listed(events, p) <==> was_listed(events.drop_last(), p),
{
    lemma_more(events);
    assert forall|p: Seq<Seq<u8>>| #[trigger]
        was_listed(events, p) implies was_listed(events.drop_last(), p) by {
        let (d, m, k) = choose|d: Seq<Seq<u8>>, l: Vec<Listed>, k: int|
            #![trigger events.contains((Request::List(d), Answer::Listing(Ok(l)))), l@[k]]
            events.contains((Request::List(d), Answer::Listing(Ok(l)))) && 0 <= k < l@.len()
                && l@[k].leads_to_dir && p == d.push(l@[k].name@);
        assert(events.drop_last().contains((Request::List(d), Answer::Listing(Ok(m)))));
        assert(m@[k].leads_to_dir);
    }
}

#[verifier::spinoff_prover]
#[verifier::rlimit(60)]
proof fn lemma_keeps_up(t: Acquiring, events: Events, o: LockStep, src: Seq<Seq<u8>>)
    requires
        events.len() > 0,
        t matches Acquiring::ListSource { src: path } ==> path@ == src && events.len() == 1,
        keeps_up(Step::Ask(t), events.drop_last(), src),
        t.moves(events.last(), o),
        is_going_on(LockStep::Ask(t)),
        is_going_on(o),
        t matches Acquiring::Take { found, at, .. } ==> at < found.len(),
    ensures
        keeps_up(o, events, src),
{
    let before = events.drop_last();
    let a = events.last().1;
    let lock = os(".cargo-lock");
    lemma_more(events);
    match t {
        Acquiring::ListSource { src: path } => {
            let l = a->Listing_0->Ok_0;
            lemma_listing(events, src, l);
            lemma_looking(Seq::empty(), dirs_among(src, l@), 0, o, src.len());
            assert(dirs_among(src, l@).skip(0) =~= dirs_among(src, l@));
            assert(before =~= Seq::empty());
            assert forall|p: Seq<Seq<u8>>| !#[trigger] was_listed(before, p) by {}
        },
        Acquiring::Direct { found, todo, at } => {
            lemma_no_listing(events);
            lemma_skip(views(todo@), at as int);
            let p = todo@[at as int]@;
            assert(p.push(lock).drop_last() =~= p);
            if a == Answer::Flag(true) {
                lemma_push(views(found@), p.push(lock));
                lemma_looking(
                    views(found@).push(p.push(lock)),
                    views(todo@),
                    at as nat + 1,
                    o,
                    src.len(),
                );
            } else {
                assert(lists_next(o, p));
            }
        },
        Acquiring::ListNested { found, todo, at } => {
            let p = todo@[at as int]@;
            let l = a->Listing_0->Ok_0;
            lemma_listing(events, p, l);
            lemma_looking_inside(
                views(found@),
                views(todo@),
                at as nat,
                dirs_among(p, l@),
                0,
                o,
                src.len(),
            );
            assert(dirs_among(p, l@).skip(0) =~= dirs_among(p, l@));
        },
        Acquiring::Nested { found, todo, at, inner, inner_at } => {
            lemma_no_listing(events);
            lemma_skip(views(inner@), inner_at as int);
            let p = inner@[inner_at as int]@;
            lemma_push(views(found@), p.push(lock));
            lemma_looking_inside(
                if a == Answer::Flag(true) {
                    views(found@).push(p.push(lock))
                } else {
                    views(found@)
                },
                views(todo@),
                at as nat,
                views(inner@),
                inner_at as nat + 1,
                o,
                src.len(),
            );
        },
        Acquiring::Take { found, at, held } => {
            lemma_no_listing(events);
            lemma_skip(views(found@), at as int);
            lemma_push(views(held@), found@[at as int]@);
            lemma_taking(
                views(found@),
                at as nat + 1,
                if a == Answer::Lock(Lock::Taken) {
                    views(held@).push(found@[at as int]@)
                } else {
                    views(held@)
                },
                o,
                src.len(),
            );
        },
        Acquiring::Refuse { .. } => {},
    }
}

#[verifier::spinoff_prover]
#[verifier::rlimit(60)]
proof fn lemma_founded(t: Acquiring, events: Events, o: LockStep, src: Seq<Seq<u8>>)
    requires
        events.len() > 0,
        t matches Acquiring::ListSource { src: path } ==> path@ == src && events.len() == 1,
        is_near(LockStep::Ask(t), src.len()),
        is_founded(Step::Ask(t), events.drop_last(), src),
        t.moves(events.last(), o),
        is_going_on(LockStep::Ask(t)),
        is_going_on(o),
        t matches Acquiring::Take { found, at, .. } ==> at < found.len(),
    ensures
        is_founded(o, events, src),
{
    let before = events.drop_last();
    let a = events.last().1;
    let lock = os(".cargo-lock");
    lemma_more(events);
    assert forall|i: int| 0 <= i < before.len() implies before[i] == #[trigger] events[i] by {}
    match t {
        Acquiring::ListSource { src: path } => {
            let l = a->Listing_0->Ok_0;
            lemma_listing(events, src, l);
            lemma_looking(Seq::empty(), dirs_among(src, l@), 0, o, src.len());
            assert(dirs_among(src, l@).skip(0) =~= dirs_among(src, l@));
        },
        Acquiring::Direct { found, todo, at } => {
            lemma_skip(views(todo@), at as int);
            let p = todo@[at as int]@;
            assert(p.push(lock).drop_last() =~= p);
            assert(views(todo@)[at as int] == p);
            assert(views(todo@).skip(at as int).contains(p));
            assert(waits(LockStep::Ask(t), p));
            if a == Answer::Flag(true) {
                lemma_push(views(found@), p.push(lock));
                lemma_looking(
                    views(found@).push(p.push(lock)),
                    views(todo@),
                    at as nat + 1,
                    o,
                    src.len(),
                );
                assert forall|q: Seq<Seq<u8>>| #[trigger] is_due(o, q) implies events.contains(
                    (Request::IsFile(q), Answer::Flag(true)),
                ) by {
                    assert(is_due(LockStep::Ask(t), q) || q == p.push(lock));
                }
            } else {
                assert forall|q: Seq<Seq<u8>>| #[trigger] is_due(o, q) implies events.contains(
                    (Request::IsFile(q), Answer::Flag(true)),
                ) by {
                    assert(is_due(LockStep::Ask(t), q));
                }
            }
            assert forall|q: Seq<Seq<u8>>| #[trigger] waits(o, q) implies was_listed(events, q) by {
                assert(waits(LockStep::Ask(t), q));
            }
        },
        Acquiring::ListNested { found, todo, at } => {
            let p = todo@[at as int]@;
            let l = a->Listing_0->Ok_0;
            lemma_listing(events, p, l);
            lemma_looking_inside(
                views(found@),
                views(todo@),
                at as nat,
                dirs_among(p, l@),
                0,
                o,
                src.len(),
            );
            assert(dirs_among(p, l@).skip(0) =~= dirs_among(p, l@));
            assert(lists_next(LockStep::Ask(t), p));
            assert forall|q: Seq<Seq<u8>>| #[trigger] is_due(o, q) implies events.contains(
                (Request::IsFile(q), Answer::Flag(true)),
            ) by {
                assert(is_due(LockStep::Ask(t), q));
            }
            assert forall|q: Seq<Seq<u8>>| #[trigger] waits(o, q) implies was_listed(events, q) by {
                if !dirs_among(p, l@).contains(q) {
                    assert(waits(LockStep::Ask(t), q));
                }
            }
        },
        Acquiring::Nested { found, todo, at, inner, inner_at } => {
            lemma_skip(views(inner@), inner_at as int);
            let p = inner@[inner_at as int]@;
            assert(p.push(lock).drop_last() =~= p);
            assert(views(inner@)[inner_at as int] == p);
            assert(views(inner@).skip(inner_at as int).contains(p));
            assert(waits(LockStep::Ask(t), p));
            lemma_push(views(found@), p.push(lock));
            lemma_looking_inside(
                if a == Answer::Flag(true) {
                    views(found@).push(p.push(lock))
                } else {
                    views(found@)
                },
                views(todo@),
                at as nat,
                views(inner@),
                inner_at as nat + 1,
                o,
                src.len(),
            );
            assert forall|q: Seq<Seq<u8>>| #[trigger] is_due(o, q) implies events.contains(
                (Request::IsFile(q), Answer::Flag(true)),
            ) by {
                assert(is_due(LockStep::Ask(t), q) || q == p.push(lock));
            }
            assert forall|q: Seq<Seq<u8>>| #[trigger] waits(o, q) implies was_listed(events, q) by {
                assert(waits(LockStep::Ask(t), q));
            }
        },
        Acquiring::Take { found, at, held } => {
            let p = found@[at as int]@;
            lemma_skip(views(found@), at as int);
            lemma_push(views(held@), p);
            assert(views(found@)[at as int] == p);
            assert(views(found@).skip(at as int).contains(p));
            assert(is_due(LockStep::Ask(t), p));
            lemma_taking(
                views(found@),
                at as nat + 1,
                if a == Answer::Lock(Lock::Taken) {
                    views(held@).push(p)
                } else {
                    views(held@)
                },
                o,
                src.len(),
            );
            assert forall|q: Seq<Seq<u8>>| #[trigger] is_due(o, q) implies events.contains(
                (Request::IsFile(q), Answer::Flag(true)),
            ) by {
                assert(is_due(LockStep::Ask(t), q));
            }
            assert forall|q: Seq<Seq<u8>>| #[trigger] is_held(o, q) implies events.contains(
                (Request::LockShared(q), Answer::Lock(Lock::Taken)),
            ) by {
                assert(is_held(LockStep::Ask(t), q) || q == p);
            }
        },
        Acquiring::Refuse { .. } => {},
    }
}

proof fn lemma_taken_from(s: Acquiring, events: Events, src: Seq<Seq<u8>>, o: LockStep)
    requires
        s matches Acquiring::ListSource { src: path } && path@ == src,
        locks(s, events, o),
        is_going_on(o),
    ensures
        keeps_up(o, events, src),
        is_founded(o, events, src),
        events.len() > 0 ==> events[0].0 == Asked::List(src),
        o matches Step::Ask(t) ==> t.wf() && (t is ListSource ==> t == s && events.len() == 0),
    decreases events.len(),
{
    if events.len() == 0 {
        assert forall|p: Seq<Seq<u8>>| !#[trigger] was_listed(events, p) by {}
    } else {
        let t = choose|t: Acquiring|
            locks(s, events.drop_last(), Step::Ask(t)) && #[trigger] t.moves(events.last(), o);
        assert(is_going_on(LockStep::Ask(t)));
        lemma_taken_from(s, events.drop_last(), src, Step::Ask(t));
        lemma_keeps_up(t, events, o, src);
        lemma_founded(t, events, o, src);
        lemma_locking_step(t, events.last().1, o);
        if events.len() > 1 {
            assert(events.drop_last()[0] == events[0]);
        }
    }
}

/// Every directory that is listed is asked for a build lock, whichever and
/// however many they are; every build lock that is found is taken, and held in
/// the end unless locks are not to be had; and a directory of the source that
/// holds none is listed in its turn.
pub proof fn law_every_listed_lock_is_held(
    s: Acquiring,
    events: Events,
    src: Seq<Seq<u8>>,
    locked: BuildLocks,
)
    requires
        s matches Acquiring::ListSource { src: path } && path@ == src,
        locks(s, events, Step::Done(Ok(locked))),
    ensures
        events[0].0 == Asked::List(src),
        forall|d: Seq<Seq<u8>>, l: Vec<Listed>, k: int|
            #![trigger events.contains((Request::List(d), Answer::Listing(Ok(l)))), l@[k]]
            events.contains((Request::List(d), Answer::Listing(Ok(l)))) && 0 <= k < l@.len()
                && l@[k].leads_to_dir ==> {
                let lock = d.push(l@[k].name@).push(encode_utf8(".cargo-lock"@));
                ||| events.contains((Request::IsFile(lock), Answer::Flag(true)))
                ||| events.contains((Request::IsFile(lock), Answer::Flag(false)))
            },
        forall|lock: Seq<Seq<u8>>| #[trigger]
            events.contains((Request::IsFile(lock), Answer::Flag(true))) ==> {
                ||| views(locked.held@).contains(lock) && events.contains(
                    (Request::LockShared(lock), Answer::Lock(Lock::Taken)),
                )
                ||| events.contains((Request::LockShared(lock), Answer::Lock(Lock::Unsupported)))
            },
        forall|d: Seq<Seq<u8>>| #[trigger]
            events.contains(
                (Request::IsFile(d.push(encode_utf8(".cargo-lock"@))), Answer::Flag(false)),
            ) && d.len() == src.len() + 1 ==> exists|l: Vec<Listed>| #[trigger]
                events.contains((Request::List(d), Answer::Listing(Ok(l)))),
{
    let lock = os(".cargo-lock");
    let o = LockStep::Done(Ok(locked));
    lemma_taken_from(s, events, src, o);
    assert forall|d: Seq<Seq<u8>>, l: Vec<Listed>, k: int|
        #![trigger events.contains((Request::List(d), Answer::Listing(Ok(l)))), l@[k]]
        events.contains((Request::List(d), Answer::Listing(Ok(l)))) && 0 <= k < l@.len()
            && l@[k].leads_to_dir implies {
        let lock = d.push(l@[k].name@).push(lock);
        ||| events.contains((Request::IsFile(lock), Answer::Flag(true)))
        ||| events.contains((Request::IsFile(lock), Answer::Flag(false)))
    } by {
        assert(was_listed(events, d.push(l@[k].name@)));
    }
    assert forall|d: Seq<Seq<u8>>| #[trigger]
        events.contains((Request::IsFile(d.push(lock)), Answer::Flag(false))) && d.len()
            == src.len() + 1 implies exists|l: Vec<Listed>| #[trigger]
        events.contains((Request::List(d), Answer::Listing(Ok(l)))) by {
        assert(d.push(lock).drop_last() =~= d);
        assert(was_opened(events, d));
    }
}

/// Nothing else is looked into, asked about, taken or held: what is listed is
/// the source, and the directories in it that are known to hold no build lock;
/// what is asked about is the build lock of a directory that was listed; what is
/// taken is a build lock that was found; and what is held was taken.
pub proof fn law_only_listed_locks_are_held(
    s: Acquiring,
    events: Events,
    src: Seq<Seq<u8>>,
    locked: BuildLocks,
)
    requires
        s matches Acquiring::ListSource { src: path } && path@ == src,
        locks(s, events, Step::Done(Ok(locked))),
    ensures
        forall|i: int| 0 <= i < events.len() ==> match (#[trigger] events[i]).0 {
            Request::List(d) => d == src || (d.len() == src.len() + 1 && events.contains(
                (Request::IsFile(d.push(encode_utf8(".cargo-lock"@))), Answer::Flag(false)),
            )),
            Request::IsFile(p) => exists|d: Seq<Seq<u8>>, l: Vec<Listed>, k: int|
                #![trigger events.contains((Request::List(d), Answer::Listing(Ok(l)))), l@[k]]
                events.contains((Request::List(d), Answer::Listing(Ok(l)))) && 0 <= k < l@.len()
                    && l@[k].leads_to_dir && p == d.push(l@[k].name@).push(
                    encode_utf8(".cargo-lock"@),
                ),
            Request::LockShared(lock) => events.contains(
                (Request::IsFile(lock), Answer::Flag(true)),
            ),
            _ => false,
        },
        forall|lock: Seq<Seq<u8>>| #[trigger]
            views(locked.held@).contains(lock) ==> events.contains(
                (Request::LockShared(lock), Answer::Lock(Lock::Taken)),
            ),
{
    let o = LockStep::Done(Ok(locked));
    lemma_taken_from(s, events, src, o);
    assert forall|i: int| 0 <= i < events.len() implies match (#[trigger] events[i]).0 {
        Request::IsFile(p) => exists|d: Seq<Seq<u8>>, l: Vec<Listed>, k: int|
            #![trigger events.contains((Request::List(d), Answer::Listing(Ok(l)))), l@[k]]
            events.contains((Request::List(d), Answer::Listing(Ok(l)))) && 0 <= k < l@.len()
                && l@[k].leads_to_dir && p == d.push(l@[k].name@).push(os(".cargo-lock")),
        _ => true,
    } by {
        if let Request::IsFile(p) = events[i].0 {
            let (d, l, k) = choose|d: Seq<Seq<u8>>, l: Vec<Listed>, k: int|
                #![trigger events.contains((Request::List(d), Answer::Listing(Ok(l)))), l@[k]]
                events.contains((Request::List(d), Answer::Listing(Ok(l)))) && 0 <= k < l@.len()
                    && l@[k].leads_to_dir && p.drop_last() == d.push(l@[k].name@);
            assert(l@[k].leads_to_dir);
            assert(p =~= p.drop_last().push(p.last()));
        }
    }
    assert forall|lock: Seq<Seq<u8>>| #[trigger]
        views(locked.held@).contains(lock) implies events.contains(
        (Request::LockShared(lock), Answer::Lock(Lock::Taken)),
    ) by {
        assert(is_held(o, lock));
    }
}

/// A taking fails if and only if a directory cannot be listed, or a lock is held
/// by another, cannot be opened or cannot be taken; where locks may have been
/// taken already they are let go of first. The error says which path it was.
pub proof fn law_when_a_taking_fails(
    t: Acquiring,
    a: Answer,
    o: LockStep,
    b: Answer,
    p: LockStep,
)
    requires
        t.asked() is List || t.asked() is IsFile || t.asked() is LockShared,
        t.asked().fits(a),
        t.next(a, o),
        b is Done,
        o matches Step::Ask(u) ==> u.asked() is ReleaseLocks ==> u.next(b, p),
    ensures
        match (t.asked(), a) {
            (Request::List(d), Answer::Listing(Err(f))) => o matches Step::Done(
                Err(Error::Io { op, path, source }),
            ) && op@ == "reading"@ && path@ == d && source == f.source,
            (Request::LockShared(d), Answer::Lock(Lock::Busy)) => (o matches Step::Ask(u)
                && u.asked() is ReleaseLocks) && (p matches Step::Done(
                Err(Error::SourceBusy { path }),
            ) && path@ == d),
            (Request::LockShared(d), Answer::Lock(Lock::Unopened(f))) => (o matches Step::Ask(u)
                && u.asked() is ReleaseLocks) && (p matches Step::Done(
                Err(Error::Io { op, path, source }),
            ) && op@ == "opening the build lock"@ && path@ == d && source == f.source),
            (Request::LockShared(d), Answer::Lock(Lock::Failed(f))) => (o matches Step::Ask(u)
                && u.asked() is ReleaseLocks) && (p matches Step::Done(
                Err(Error::Io { op, path, source }),
            ) && op@ == "locking"@ && path@ == d && source == f.source),
            _ => match o {
                Step::Ask(u) => !(u.asked() is ReleaseLocks),
                Step::Done(r) => r is Ok,
            },
        },
{
}

} // verus!
