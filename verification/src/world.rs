//! A file system that answers truthfully and that nobody else changes.
//!
//! What runs do to files can only be stated of a file system. This one has no
//! symlinks among its directories, so that a path is a place of its own, and
//! nothing fails in it but for a reason that it holds itself: what is not there
//! is not found, and what is stuck is not removed.

use crate::error::Failure;
use crate::path::within;
use crate::protocol::{
    Answer, Asked, Entry, Events, FileId, Kind, Listed, Lock, Request, Walked, Written,
};
use vstd::prelude::*;

verus! {

/// A place in the file system.
pub type Place = Seq<Seq<u8>>;

/// What is at a place.
pub enum Node {
    Dir,
    /// A file, and what it holds.
    File(Seq<u8>),
    /// A symlink, and whether it leads to a file.
    Link(bool),
    Other,
}

/// A walk through a tree.
pub struct Walk {
    pub root: Place,
    pub min_depth: nat,
    /// What was handed out.
    pub given: Set<Place>,
    /// What is not to be walked into.
    pub skipped: Set<Place>,
    /// What was handed out last.
    pub last: Place,
}

/// The file system, and the walk that is going on in it.
pub struct World {
    pub nodes: Map<Place, Node>,
    pub walk: Walk,
    /// The markers whose locks other processes hold.
    pub busy: Set<Place>,
    /// What cannot be removed.
    pub stuck: Set<Place>,
    /// Which file is at a place.
    pub ids: spec_fn(Place) -> FileId,
}

/// Whether one place is in another, and is not the other.
pub open spec fn below(p: Place, q: Place) -> bool {
    within(p, q) && p != q
}

impl World {
    /// Whether there is a directory.
    pub open spec fn is_dir(self, p: Place) -> bool {
        self.nodes.contains_key(p) && self.nodes[p] is Dir
    }

    /// Whether there is a file, symlinks followed.
    pub open spec fn is_file(self, p: Place) -> bool {
        self.nodes.contains_key(p) && match self.nodes[p] {
            Node::File(_) => true,
            Node::Link(file) => file,
            _ => false,
        }
    }

    /// Whether there is a file of its own.
    pub open spec fn holds_file(self, p: Place) -> bool {
        self.nodes.contains_key(p) && self.nodes[p] is File
    }
}

/// What kind of entry that is.
pub open spec fn kind_of(node: Node) -> Kind {
    match node {
        Node::Dir => Kind::Dir,
        Node::File(_) => Kind::File,
        Node::Link(_) => Kind::Symlink,
        Node::Other => Kind::Other,
    }
}

/// The file system without what is in one of those places.
pub open spec fn without(nodes: Map<Place, Node>, gone: Set<Place>) -> Map<Place, Node> {
    Map::new(
        |p: Place| nodes.contains_key(p) && !is_in(p, gone),
        |p: Place| nodes[p],
    )
}

/// Whether a place is in one of those.
pub open spec fn is_in(p: Place, places: Set<Place>) -> bool {
    exists|q: Place| #[trigger] places.contains(q) && within(p, q)
}

/// The file system with a directory at the place and at all those above it.
pub open spec fn with_dirs(nodes: Map<Place, Node>, p: Place) -> Map<Place, Node> {
    Map::new(
        |q: Place| nodes.contains_key(q) || (q.len() > 0 && within(p, q)),
        |q: Place|
            if nodes.contains_key(q) {
                nodes[q]
            } else {
                Node::Dir
            },
    )
}

/// The file system with what was in one place in another.
pub open spec fn moved(nodes: Map<Place, Node>, from: Place, to: Place) -> Map<Place, Node> {
    Map::new(
        |q: Place|
            (nodes.contains_key(q) && !within(q, from)) || (within(q, to) && nodes.contains_key(
                from + q.skip(to.len() as int),
            )),
        |q: Place|
            if within(q, to) && nodes.contains_key(from + q.skip(to.len() as int)) {
                nodes[from + q.skip(to.len() as int)]
            } else {
                nodes[q]
            },
    )
}

/// There is a file at the place, or there is what there was.
pub open spec fn may_hold_file(nodes: Map<Place, Node>, p: Place, after: Map<Place, Node>) -> bool {
    after == nodes || exists|held: Seq<u8>| after == #[trigger] nodes.insert(p, Node::File(held))
}

/// What is in the file system when that was done.
pub open spec fn nodes_after(w: World, event: (Asked, Answer), after: Map<Place, Node>) -> bool {
    let nodes = w.nodes;
    let done = event.1 matches Answer::Done(Ok(_));
    match event.0 {
        Request::CreateDirAll(p) => if done {
            &&& after == with_dirs(nodes, p)
            &&& forall|q: Place| q.len() > 0 && #[trigger] within(p, q) ==> after[q] is Dir
        } else {
            exists|k: int| 0 <= k <= p.len() && after == #[trigger] with_dirs(nodes, p.take(k))
        },
        Request::RemoveFile(p) => if done {
            after == nodes.remove(p)
        } else {
            after == nodes
        },
        Request::RemoveDir(p) => if done {
            after == nodes.remove(p)
        } else {
            after == nodes
        },
        Request::RemoveDirAll(p) => if done {
            after == without(nodes, set![p])
        } else {
            after == nodes
        },
        Request::Rename { from, to } => if done {
            after == moved(nodes, from, to)
        } else {
            after == nodes
        },
        Request::Reflink { to, .. } => may_hold_file(nodes, to, after),
        Request::HardLink { to, .. } => may_hold_file(nodes, to, after),
        Request::Copy { to, .. } => may_hold_file(nodes, to, after),
        Request::Symlink { at, .. } => after == nodes || exists|file: bool|
            after == #[trigger] nodes.insert(at, Node::Link(file)),
        Request::WriteZeros { path, .. } => may_hold_file(nodes, path, after),
        Request::WriteMarker { path, text } => if event.1 == Answer::Written(Written::Done) {
            after == nodes.insert(path, Node::File(text))
        } else {
            may_hold_file(nodes, path, after)
        },
        _ => after == nodes,
    }
}

/// Where the walk is when that was done.
pub open spec fn walk_after(w: World, event: (Asked, Answer)) -> Walk {
    let walk = w.walk;
    match event {
        (Request::OpenWalk { root, min_depth }, _) => Walk {
            root,
            min_depth: min_depth as nat,
            given: Set::empty(),
            skipped: Set::empty(),
            last: root,
        },
        (Request::NextEntry, Answer::Walked(Walked::Entry(entry))) => {
            let p = walk.root + entry.relative@;
            Walk { given: walk.given.insert(p), last: p, ..walk }
        },
        (Request::SkipDir, _) => Walk { skipped: walk.skipped.insert(walk.last), ..walk },
        _ => walk,
    }
}

/// The walk may hand out that entry: it is there, it was not handed out yet and
/// nothing in it was, and all that it is in are directories that were, and that
/// are walked into.
pub open spec fn may_give(w: World, entry: Entry) -> bool {
    let p = w.walk.root + entry.relative@;
    &&& w.nodes.contains_key(p)
    &&& entry.kind == kind_of(w.nodes[p])
    &&& entry.relative@.len() >= w.walk.min_depth
    &&& !w.walk.given.contains(p)
    &&& forall|q: Place| #[trigger] w.walk.given.contains(q) ==> !within(q, p)
    &&& forall|q: Place|
        #![trigger w.walk.given.contains(q)]
        #![trigger w.walk.skipped.contains(q)]
        below(p, q) && within(q, w.walk.root) && q.len() >= w.walk.root.len() + w.walk.min_depth
            ==> w.walk.given.contains(q) && !w.walk.skipped.contains(q) && w.is_dir(q)
}

/// The walk is at its end: all that there is was handed out, but for what is in
/// what was not to be walked into.
pub open spec fn is_walked(w: World) -> bool {
    forall|p: Place|
        #![trigger w.nodes.contains_key(p)]
        w.nodes.contains_key(p) && within(p, w.walk.root) && p.len() >= w.walk.root.len()
            + w.walk.min_depth ==> w.walk.given.contains(p) || exists|q: Place| #[trigger]
            w.walk.skipped.contains(q) && below(p, q)
}

/// The listing is of what the directory holds.
pub open spec fn is_listing(w: World, p: Place, listing: Seq<Listed>) -> bool {
    &&& forall|i: int|
        0 <= i < listing.len() ==> {
            let q = p.push((#[trigger] listing[i]).name@);
            w.nodes.contains_key(q) && listing[i].is_file == w.holds_file(q)
        }
    &&& forall|name: Seq<u8>| #[trigger]
        w.nodes.contains_key(p.push(name)) ==> exists|i: int|
            0 <= i < listing.len() && (#[trigger] listing[i]).name@ == name
}

/// The answer is true.
pub open spec fn is_true(w: World, event: (Asked, Answer)) -> bool {
    match (event.0, event.1) {
        (Request::IsDir(p), Answer::Flag(there)) => there == w.is_dir(p),
        (Request::IsFile(p), Answer::Flag(there)) => there == w.is_file(p),
        (Request::Exists(p), Answer::Flag(there)) => there == w.nodes.contains_key(p),
        (Request::Canonicalize(p), Answer::Canonical(r)) => match r {
            Ok(found) => w.nodes.contains_key(p) && found@ == p,
            Err(_) => !w.nodes.contains_key(p),
        },
        (Request::List(p), Answer::Listing(r)) => match r {
            Ok(listing) => w.is_dir(p) && is_listing(w, p, listing@),
            Err(_) => !w.is_dir(p),
        },
        (Request::NextEntry, Answer::Walked(walked)) => match walked {
            Walked::Entry(entry) => may_give(w, entry),
            Walked::End => is_walked(w),
            Walked::Failed(_) => !w.nodes.contains_key(w.walk.root),
        },
        (Request::Measure, Answer::Measured(r)) => r is Ok,
        (Request::RemoveFile(p), Answer::Done(r)) => match r {
            Ok(_) => w.nodes.contains_key(p) && !(w.nodes[p] is Dir),
            Err(f) => f.missing == !w.nodes.contains_key(p) && (!w.nodes.contains_key(p)
                || w.nodes[p] is Dir || w.stuck.contains(p)),
        },
        (Request::RemoveDir(p), Answer::Done(r)) => {
            let empty = w.is_dir(p) && forall|q: Place| #[trigger] w.nodes.contains_key(q)
                ==> !below(q, p);
            r is Ok == (empty && !w.stuck.contains(p))
        },
        (Request::RemoveDirAll(p), Answer::Done(r)) => r is Ok == (w.is_dir(p)
            && !w.stuck.contains(p)),
        (Request::OpenMarker(p), Answer::Done(r)) => match r {
            Ok(_) => w.is_file(p),
            Err(_) => !w.is_file(p),
        },
        (Request::LockMarker(p), Answer::Lock(lock)) => lock == (if w.busy.contains(p) {
            Lock::Busy
        } else {
            Lock::Taken
        }),
        (Request::MarkerIdentity(p), Answer::Identity(r)) => r == Ok::<FileId, Failure>(
            (w.ids)(p),
        ),
        (Request::Identity(p), Answer::Identity(r)) => if w.is_file(p) {
            r == Ok::<FileId, Failure>((w.ids)(p))
        } else {
            r is Err
        },
        (Request::ReadFile(p), Answer::Contents(r)) => match r {
            Ok(text) => w.holds_file(p) ==> w.nodes[p] == Node::File(text@),
            Err(f) => !w.holds_file(p),
        },
        _ => true,
    }
}

/// That was done, and the file system is `v` where it was `w`.
pub open spec fn does(w: World, event: (Asked, Answer), v: World) -> bool {
    &&& is_true(w, event)
    &&& nodes_after(w, event, v.nodes)
    &&& v == (World { nodes: v.nodes, walk: walk_after(w, event), ..w })
}

/// All that was done, and the file system is `v` where it was `w`.
pub open spec fn lives(w: World, events: Events, v: World) -> bool
    decreases events.len(),
{
    if events.len() == 0 {
        v == w
    } else {
        exists|u: World|
            lives(w, events.drop_last(), u) && #[trigger] does(u, events.last(), v)
    }
}

} // verus!
