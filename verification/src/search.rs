//! Looking for staged trees and for probes that were left behind.
//!
//! What is looked for is the marker, not the name: the tree may be staged
//! anywhere, and the name it is given where nothing else is asked for is an
//! ending on the destination rather than a promise.

use crate::error::Error;
use crate::path::{name_of, os, FsPath};
use crate::probe::PROBE_DIR;
use crate::protocol::{Answer, Ask, Asked, Entry, Events, Kind, Request, Step, Walked};
use crate::staging::MARKER;
use vstd::prelude::*;
use vstd::utf8::is_ascii_chars_encode_utf8;

verus! {

/// Cargo writes this at the root of a target directory. Finding one is how a
/// finished target directory is told apart from an ordinary directory, which
/// matters only for how long the search takes.
pub const CACHE_TAG: &'static str = "CACHEDIR.TAG";

/// A directory that is never searched.
pub const GIT: &'static str = ".git";

/// Every staged tree and every probe directory under a root.
#[derive(Debug)]
pub struct Found {
    pub staged: Vec<FsPath>,
    pub probes: Vec<FsPath>,
}

/// Looking for them.
#[derive(Debug)]
pub struct Searching {
    pub root: FsPath,
    /// What was found so far.
    pub found: Found,
    pub stage: SearchStage,
}

/// How far the search has come with the directory it is at.
#[derive(Debug)]
pub enum SearchStage {
    OpenWalk,
    NextEntry,
    /// Asked before the tag, because a staged tree carries a copy of the tag it
    /// was seeded from.
    HasMarker { path: FsPath, nested: bool },
    /// Never asked of the root: a root pointed straight at a target directory is
    /// a caller asking about that directory, not one to be skipped whole.
    HasTag { path: FsPath },
    Skip,
}

/// What becomes of the search when it is answered.
pub type SearchStep = Step<Searching, Result<Found, Error>>;

/// Starts the search of everything under `root`.
pub fn search(root: &FsPath) -> (r: Searching)
    ensures
        r.root@ == root@,
        r.found.staged@.len() == 0,
        r.found.probes@.len() == 0,
        r.stage is OpenWalk,
{
    Searching {
        root: root.clone(),
        found: Found { staged: Vec::new(), probes: Vec::new() },
        stage: SearchStage::OpenWalk,
    }
}

impl Searching {
    /// What is asked next.
    pub open spec fn asked(self) -> Asked {
        match self.stage {
            SearchStage::OpenWalk => Request::OpenWalk { root: self.root@, min_depth: 0 },
            SearchStage::NextEntry => Request::NextEntry,
            SearchStage::HasMarker { path, .. } => Request::IsFile(path@.push(os(MARKER))),
            SearchStage::HasTag { path } => Request::IsFile(path@.push(os(CACHE_TAG))),
            SearchStage::Skip => Request::SkipDir,
        }
    }

    /// The search at another stage.
    pub open spec fn at(self, stage: SearchStage) -> SearchStep {
        Step::Ask(Searching { stage, ..self })
    }

    /// What becomes of the search when it is handed an entry.
    pub open spec fn takes(self, entry: Entry, o: SearchStep) -> bool {
        let at = self.root@ + entry.relative@;
        if entry.kind != Kind::Dir {
            o == SearchStep::Ask(self)
        } else if entry.relative@.len() > 0 && name_of(at) == Some(os(GIT)) {
            o == self.at(SearchStage::Skip)
        } else {
            &&& o matches Step::Ask(t)
            &&& t == (Searching { stage: t.stage, ..self })
            &&& t.stage matches SearchStage::HasMarker { path, nested }
            &&& path@ == at
            &&& nested == (entry.relative@.len() > 0)
        }
    }

    /// The search goes past a directory, having found something or not.
    pub open spec fn skips(
        self,
        staged: Seq<FsPath>,
        probes: Seq<FsPath>,
        o: SearchStep,
    ) -> bool {
        &&& o matches Step::Ask(t)
        &&& t.root == self.root
        &&& t.found.staged@ == staged
        &&& t.found.probes@ == probes
        &&& t.stage is Skip
    }

    /// What becomes of the search when it is answered.
    pub open spec fn next(self, a: Answer, o: SearchStep) -> bool {
        match (self.stage, a) {
            (SearchStage::OpenWalk, Answer::Done(_)) => o == self.at(SearchStage::NextEntry),
            (SearchStage::NextEntry, Answer::Walked(Walked::Entry(entry))) => self.takes(entry, o),
            (SearchStage::NextEntry, Answer::Walked(Walked::Failed(source))) => o
                == SearchStep::Done(Err(Error::Walk { path: self.root, source })),
            (SearchStage::NextEntry, Answer::Walked(Walked::End)) => o == SearchStep::Done(
                Ok(self.found),
            ),
            (SearchStage::HasMarker { path, nested }, Answer::Flag(there)) => if there {
                self.skips(self.found.staged@.push(path), self.found.probes@, o)
            } else if nested && name_of(path@) == Some(os(PROBE_DIR)) {
                self.skips(self.found.staged@, self.found.probes@.push(path), o)
            } else if nested {
                o == self.at(SearchStage::HasTag { path })
            } else {
                o == self.at(SearchStage::NextEntry)
            },
            (SearchStage::HasTag { .. }, Answer::Flag(there)) => o == self.at(
                if there {
                    SearchStage::Skip
                } else {
                    SearchStage::NextEntry
                },
            ),
            (SearchStage::Skip, Answer::Done(_)) => o == self.at(SearchStage::NextEntry),
            _ => o == SearchStep::Ask(self),
        }
    }

    /// What is to be done next.
    pub fn request(&self) -> (r: Ask)
        ensures
            r@ == self.asked(),
    {
        match &self.stage {
            SearchStage::OpenWalk => Request::OpenWalk { root: self.root.clone(), min_depth: 0 },
            SearchStage::NextEntry => Request::NextEntry,
            SearchStage::HasMarker { path, .. } => Request::IsFile(path.join(MARKER)),
            SearchStage::HasTag { path } => Request::IsFile(path.join(CACHE_TAG)),
            SearchStage::Skip => Request::SkipDir,
        }
    }

    /// Takes in what came of it.
    pub fn step(self, a: Answer) -> (o: SearchStep)
        ensures
            self.next(a, o),
    {
        let Searching { root, found, stage } = self;
        let mut found = found;
        let stage = match (stage, a) {
            (SearchStage::OpenWalk, Answer::Done(_)) => SearchStage::NextEntry,
            (SearchStage::NextEntry, Answer::Walked(Walked::Entry(entry))) => {
                if entry.kind != Kind::Dir {
                    SearchStage::NextEntry
                } else {
                    let path = root.descend(&entry.relative);
                    let nested = entry.relative.len() > 0;
                    if nested && path.is_named(GIT) {
                        SearchStage::Skip
                    } else {
                        SearchStage::HasMarker { path, nested }
                    }
                }
            },
            (SearchStage::NextEntry, Answer::Walked(Walked::Failed(source))) => {
                return Step::Done(Err(Error::Walk { path: root, source }));
            },
            (SearchStage::NextEntry, Answer::Walked(Walked::End)) => {
                return Step::Done(Ok(found));
            },
            (SearchStage::HasMarker { path, nested }, Answer::Flag(there)) => {
                if there {
                    found.staged.push(path);
                    SearchStage::Skip
                } else if nested && path.is_named(PROBE_DIR) {
                    found.probes.push(path);
                    SearchStage::Skip
                } else if nested {
                    SearchStage::HasTag { path }
                } else {
                    SearchStage::NextEntry
                }
            },
            (SearchStage::HasTag { .. }, Answer::Flag(there)) => {
                if there {
                    SearchStage::Skip
                } else {
                    SearchStage::NextEntry
                }
            },
            (SearchStage::Skip, Answer::Done(_)) => SearchStage::NextEntry,
            (same, _) => same,
        };
        Step::Ask(Searching { root, found, stage })
    }
}

/// What a search that starts as `s` has become after all that.
pub open spec fn searches(s: Searching, events: Events, o: SearchStep) -> bool
    decreases events.len(),
{
    if events.len() == 0 {
        o == SearchStep::Ask(s)
    } else {
        exists|t: Searching|
            searches(s, events.drop_last(), Step::Ask(t)) && #[trigger] t.moves(events.last(), o)
    }
}

/// Whether the file at `path` was asked for, and that is what came of it.
pub open spec fn was_told(events: Events, path: Seq<Seq<u8>>, there: bool) -> bool {
    exists|i: int|
        0 <= i < events.len() && is_flag(#[trigger] events[i], path, there)
}

/// The event is that the file at `path` is there, or not.
pub open spec fn is_flag(event: (Asked, Answer), path: Seq<Seq<u8>>, there: bool) -> bool {
    &&& event.0 matches Request::IsFile(p)
    &&& p == path
    &&& event.1 == Answer::Flag(there)
}

/// The path is among what was found.
pub open spec fn is_among(path: Seq<Seq<u8>>, paths: Seq<FsPath>) -> bool {
    exists|i: int| 0 <= i < paths.len() && (#[trigger] paths[i])@ == path
}

/// What was found is what the events say: a directory is a staged tree if and
/// only if it holds a marker.
pub open spec fn is_founded(found: Found, events: Events) -> bool {
    &&& forall|path: Seq<Seq<u8>>|
        #[trigger] was_told(events, path.push(os(MARKER)), true) ==> is_among(path, found.staged@)
    &&& forall|i: int|
        0 <= i < found.staged@.len() ==> was_told(
            events,
            (#[trigger] found.staged@[i])@.push(os(MARKER)),
            true,
        )
    &&& forall|i: int|
        0 <= i < found.probes@.len() ==> {
            &&& was_told(events, (#[trigger] found.probes@[i])@.push(os(MARKER)), false)
            &&& name_of(found.probes@[i]@) == Some(os(PROBE_DIR))
        }
}

impl Searching {
    /// The search can be told that, and becomes `o`.
    pub open spec fn moves(self, event: (Asked, Answer), o: SearchStep) -> bool {
        event.0 == self.asked() && event.0.fits(event.1) && self.next(event.1, o)
    }
}

proof fn lemma_tag_is_no_marker()
    ensures
        os(CACHE_TAG) != os(MARKER),
{
    reveal_strlit("CACHEDIR.TAG");
    reveal_strlit(".cargo-shared-target-staging");
    is_ascii_chars_encode_utf8(CACHE_TAG@);
    is_ascii_chars_encode_utf8(MARKER@);
    assert(CACHE_TAG@.len() != MARKER@.len());
}

proof fn lemma_search(s: Searching, events: Events, o: SearchStep)
    requires
        s.found.staged@.len() == 0,
        s.found.probes@.len() == 0,
        s.stage is OpenWalk,
        searches(s, events, o),
    ensures
        o matches Step::Ask(t) ==> is_founded(t.found, events),
        o matches Step::Done(Ok(found)) ==> is_founded(found, events),
    decreases events.len(),
{
    if events.len() > 0 {
        let before = events.drop_last();
        let t = choose|t: Searching|
            searches(s, events.drop_last(), Step::Ask(t)) && #[trigger] t.moves(events.last(), o);
        lemma_search(s, before, Step::Ask(t));
        assert forall|path: Seq<Seq<u8>>, there: bool|
            #![trigger was_told(before, path, there)] was_told(before, path, there) implies was_told(
            events,
            path,
            there,
        ) by {
            let i = choose|i: int|
                0 <= i < before.len() && is_flag(#[trigger] before[i], path, there);
            assert(is_flag(events[i], path, there));
        }
        let after = match o {
            Step::Ask(u) => u.found,
            Step::Done(Ok(found)) => found,
            Step::Done(Err(_)) => t.found,
        };
        assert forall|path: Seq<Seq<u8>>| is_among(path, t.found.staged@) implies is_among(
            path,
            after.staged@,
        ) by {
            let i = choose|i: int|
                0 <= i < t.found.staged@.len() && (#[trigger] t.found.staged@[i])@ == path;
            assert(after.staged@[i] == t.found.staged@[i]);
        }
        assert forall|path: Seq<Seq<u8>>| #[trigger]
            was_told(events, path.push(os(MARKER)), true) && !(o is Done && o->Done_0 is Err)
            implies is_among(path, after.staged@) by {
            let marker = path.push(os(MARKER));
            let i = choose|i: int| 0 <= i < events.len() && is_flag(#[trigger] events[i], marker, true);
            if i < before.len() {
                assert(is_flag(before[i], marker, true));
                assert(was_told(before, marker, true));
            } else {
                lemma_tag_is_no_marker();
                assert(marker.drop_last() =~= path);
                match t.stage {
                    SearchStage::HasMarker { path: p, .. } => {
                        assert(p@.push(os(MARKER)).drop_last() =~= p@);
                        assert(after.staged@.last()@ == path);
                    },
                    SearchStage::HasTag { path: p } => {
                        assert(marker.last() == os(MARKER));
                        assert(p@.push(os(CACHE_TAG)).last() == os(CACHE_TAG));
                    },
                    _ => {},
                }
            }
        }
        if let SearchStage::HasMarker { path, .. } = t.stage {
            if let Answer::Flag(there) = events.last().1 {
                assert(is_flag(events[events.len() - 1], path@.push(os(MARKER)), there));
                assert(was_told(events, path@.push(os(MARKER)), there));
            }
        }
    }
}

/// A directory that the search comes to is taken for a staged tree if and only
/// if it holds a marker, whatever it is called, and only one that is called as
/// probes are, and holds none, for a probe.
pub proof fn law_only_marked_trees_are_found(s: Searching, events: Events, found: Found)
    requires
        s.found.staged@.len() == 0,
        s.found.probes@.len() == 0,
        s.stage is OpenWalk,
        searches(s, events, SearchStep::Done(Ok(found))),
    ensures
        is_founded(found, events),
{
    lemma_search(s, events, Step::Done(Ok(found)));
}

} // verus!
