//! Whether the blocks of files can be cloned from one place to another.
//!
//! Asked of the file systems rather than of their names, by cloning one real
//! file: some answer by how they were made, and a container layer or a network
//! mount can differ from whatever the mount table suggests.

use crate::error::{is_io, Error};
use crate::path::{os, within, FsPath};
use crate::protocol::{Answer, Ask, Asked, Events, Kind, Request, Step, Walked};
use vstd::prelude::*;

verus! {

/// The directory that a probe is made in.
pub const PROBE_DIR: &'static str = ".cargo-shared-target-probe";

/// What is cloned where the tree has no file to try it on.
pub const SUBJECT: &'static str = "a";

/// What the clone is called.
pub const CLONE: &'static str = "b";

/// The size of what is written to be cloned. Not an empty file: a small enough
/// one is kept inline in some file systems' metadata, where cloning is a
/// different question from the one being asked.
pub const SUBJECT_SIZE: u64 = 8192;

/// Asking whether files in one directory can be cloned into another.
#[derive(Debug)]
pub struct Probing {
    /// The tree about to be seeded.
    pub src: FsPath,
    /// The directory that the probe is made in.
    pub dir: FsPath,
    pub stage: ProbeStage,
}

/// How far a probe has come.
#[derive(Debug)]
pub enum ProbeStage {
    /// Making the directory.
    MakeDir,
    /// Removing a clone that an earlier probe left behind, which would look
    /// like a file system that cannot clone.
    ClearClone,
    /// Looking for a file of the tree to clone.
    OpenWalk,
    NextEntry,
    /// Writing a file to clone, for want of one.
    WriteSubject,
    /// Cloning.
    CloneIt { subject: FsPath },
    /// Tidying up. A probe left behind is untidy rather than wrong.
    RemoveSubject { answer: Result<bool, Error> },
    RemoveClone { answer: Result<bool, Error> },
    RemoveDir { answer: Result<bool, Error> },
}

/// What becomes of a probe when it is answered.
pub type ProbeStep = Step<Probing, Result<bool, Error>>;

/// Starts asking whether the blocks of files in `src` can be cloned into `at`.
///
/// Asked of both ends together, because that is the operation: a destination
/// that can clone within itself says nothing about cloning into it from
/// somewhere else.
pub fn supports_reflink(src: &FsPath, at: &FsPath) -> (r: Probing)
    ensures
        r.src@ == src@,
        r.dir@ == at@.push(os(PROBE_DIR)),
        r.stage is MakeDir,
{
    Probing { src: src.clone(), dir: at.join(PROBE_DIR), stage: ProbeStage::MakeDir }
}

impl Probing {
    /// What is asked next.
    pub open spec fn asked(self) -> Asked {
        match self.stage {
            ProbeStage::MakeDir => Request::CreateDirAll(self.dir@),
            ProbeStage::ClearClone => Request::RemoveFile(self.dir@.push(os(CLONE))),
            ProbeStage::OpenWalk => Request::OpenWalk { root: self.src@, min_depth: 1 },
            ProbeStage::NextEntry => Request::NextEntry,
            ProbeStage::WriteSubject => Request::WriteZeros {
                path: self.dir@.push(os(SUBJECT)),
                len: SUBJECT_SIZE,
            },
            ProbeStage::CloneIt { subject } => Request::Reflink {
                from: subject@,
                to: self.dir@.push(os(CLONE)),
            },
            ProbeStage::RemoveSubject { .. } => Request::RemoveFile(self.dir@.push(os(SUBJECT))),
            ProbeStage::RemoveClone { .. } => Request::RemoveFile(self.dir@.push(os(CLONE))),
            ProbeStage::RemoveDir { .. } => Request::RemoveDir(self.dir@),
        }
    }

    /// An error that the probe has met is about a file of its own.
    pub open spec fn wf(self) -> bool {
        match self.stage {
            ProbeStage::RemoveSubject { answer: Err(e) } => e is Io,
            ProbeStage::RemoveClone { answer: Err(e) } => e is Io,
            ProbeStage::RemoveDir { answer: Err(e) } => e is Io,
            _ => true,
        }
    }

    /// The probe at another stage.
    pub open spec fn at(self, stage: ProbeStage) -> ProbeStep {
        Step::Ask(Probing { stage, ..self })
    }

    /// The clone is next, of the file at `path`.
    pub open spec fn clones(self, path: Seq<Seq<u8>>, o: ProbeStep) -> bool {
        &&& o matches Step::Ask(t)
        &&& t == (Probing { stage: t.stage, ..self })
        &&& t.stage matches ProbeStage::CloneIt { subject }
        &&& subject@ == path
    }

    /// What becomes of the probe when it is answered.
    pub open spec fn next(self, a: Answer, o: ProbeStep) -> bool {
        match (self.stage, a) {
            (ProbeStage::MakeDir, Answer::Done(Ok(_))) => o == self.at(ProbeStage::ClearClone),
            (ProbeStage::MakeDir, Answer::Done(Err(f))) => o matches Step::Done(Err(e)) && is_io(
                e,
                "creating a probe directory at",
                self.dir@,
                f,
            ),
            (ProbeStage::ClearClone, Answer::Done(_)) => o == self.at(ProbeStage::OpenWalk),
            (ProbeStage::OpenWalk, Answer::Done(_)) => o == self.at(ProbeStage::NextEntry),
            (ProbeStage::NextEntry, Answer::Walked(Walked::Entry(entry))) => if entry.kind
                == Kind::File {
                self.clones(self.src@ + entry.relative@, o)
            } else {
                o == self.at(ProbeStage::NextEntry)
            },
            (ProbeStage::NextEntry, Answer::Walked(Walked::Failed(_))) => o == self.at(
                ProbeStage::NextEntry,
            ),
            (ProbeStage::NextEntry, Answer::Walked(Walked::End)) => o == self.at(
                ProbeStage::WriteSubject,
            ),
            (ProbeStage::WriteSubject, Answer::Done(Ok(_))) => self.clones(
                self.dir@.push(os(SUBJECT)),
                o,
            ),
            (ProbeStage::WriteSubject, Answer::Done(Err(f))) => {
                &&& o matches Step::Ask(t)
                &&& t == (Probing { stage: t.stage, ..self })
                &&& t.stage matches ProbeStage::RemoveSubject { answer: Err(e) }
                &&& is_io(e, "writing the probe file", self.dir@.push(os(SUBJECT)), f)
            },
            (ProbeStage::CloneIt { .. }, Answer::Done(came)) => o == self.at(
                ProbeStage::RemoveSubject { answer: Ok(came is Ok) },
            ),
            (ProbeStage::RemoveSubject { answer }, Answer::Done(_)) => o == self.at(
                ProbeStage::RemoveClone { answer },
            ),
            (ProbeStage::RemoveClone { answer }, Answer::Done(_)) => o == self.at(
                ProbeStage::RemoveDir { answer },
            ),
            (ProbeStage::RemoveDir { answer }, Answer::Done(_)) => o == ProbeStep::Done(answer),
            _ => o == ProbeStep::Ask(self),
        }
    }

    /// What is to be done next.
    pub fn request(&self) -> (r: Ask)
        ensures
            r@ == self.asked(),
    {
        match &self.stage {
            ProbeStage::MakeDir => Request::CreateDirAll(self.dir.clone()),
            ProbeStage::ClearClone => Request::RemoveFile(self.dir.join(CLONE)),
            ProbeStage::OpenWalk => Request::OpenWalk { root: self.src.clone(), min_depth: 1 },
            ProbeStage::NextEntry => Request::NextEntry,
            ProbeStage::WriteSubject => Request::WriteZeros {
                path: self.dir.join(SUBJECT),
                len: SUBJECT_SIZE,
            },
            ProbeStage::CloneIt { subject } => Request::Reflink {
                from: subject.clone(),
                to: self.dir.join(CLONE),
            },
            ProbeStage::RemoveSubject { .. } => Request::RemoveFile(self.dir.join(SUBJECT)),
            ProbeStage::RemoveClone { .. } => Request::RemoveFile(self.dir.join(CLONE)),
            ProbeStage::RemoveDir { .. } => Request::RemoveDir(self.dir.clone()),
        }
    }

    /// Takes in what came of it.
    pub fn step(self, a: Answer) -> (o: ProbeStep)
        ensures
            self.next(a, o),
    {
        let Probing { src, dir, stage } = self;
        let stage = match (stage, a) {
            (ProbeStage::MakeDir, Answer::Done(Ok(_))) => ProbeStage::ClearClone,
            (ProbeStage::MakeDir, Answer::Done(Err(f))) => {
                return Step::Done(Err(Error::io("creating a probe directory at", dir, f)));
            },
            (ProbeStage::ClearClone, Answer::Done(_)) => ProbeStage::OpenWalk,
            (ProbeStage::OpenWalk, Answer::Done(_)) => ProbeStage::NextEntry,
            (ProbeStage::NextEntry, Answer::Walked(Walked::Entry(entry))) => {
                if entry.kind == Kind::File {
                    ProbeStage::CloneIt { subject: src.descend(&entry.relative) }
                } else {
                    ProbeStage::NextEntry
                }
            },
            (ProbeStage::NextEntry, Answer::Walked(Walked::Failed(_))) => ProbeStage::NextEntry,
            (ProbeStage::NextEntry, Answer::Walked(Walked::End)) => ProbeStage::WriteSubject,
            (ProbeStage::WriteSubject, Answer::Done(Ok(_))) => ProbeStage::CloneIt {
                subject: dir.join(SUBJECT),
            },
            (ProbeStage::WriteSubject, Answer::Done(Err(f))) => ProbeStage::RemoveSubject {
                answer: Err(Error::io("writing the probe file", dir.join(SUBJECT), f)),
            },
            (ProbeStage::CloneIt { .. }, Answer::Done(came)) => ProbeStage::RemoveSubject {
                answer: Ok(came.is_ok()),
            },
            (ProbeStage::RemoveSubject { answer }, Answer::Done(_)) => ProbeStage::RemoveClone {
                answer,
            },
            (ProbeStage::RemoveClone { answer }, Answer::Done(_)) => ProbeStage::RemoveDir {
                answer,
            },
            (ProbeStage::RemoveDir { answer }, Answer::Done(_)) => {
                return Step::Done(answer);
            },
            (same, _) => same,
        };
        Step::Ask(Probing { src, dir, stage })
    }
}

/// A probe makes, changes and removes nothing outside its own directory.
pub proof fn law_probe_stays_in_its_directory(s: Probing)
    ensures
        s.asked().written() matches Some(path) ==> within(path, s.dir@),
{
    assert forall|name: Seq<u8>| within(#[trigger] s.dir@.push(name), s.dir@) by {
        assert(s.dir@.push(name).take(s.dir@.len() as int) =~= s.dir@);
    }
    assert(s.dir@.take(s.dir@.len() as int) =~= s.dir@);
}

impl Probing {
    /// The probe can be told that, and becomes `o`.
    pub open spec fn moves(self, event: (Asked, Answer), o: ProbeStep) -> bool {
        event.0 == self.asked() && event.0.fits(event.1) && self.next(event.1, o)
    }
}

/// What a probe that starts as `s` has become after all that.
pub open spec fn probes(s: Probing, events: Events, o: ProbeStep) -> bool
    decreases events.len(),
{
    if events.len() == 0 {
        o == ProbeStep::Ask(s)
    } else {
        exists|t: Probing|
            probes(s, events.drop_last(), Step::Ask(t)) && #[trigger] t.moves(events.last(), o)
    }
}

/// A file of the tree, or one in the probe's own directory, was cloned into that
/// directory, or could not be.
pub open spec fn is_cloning(event: (Asked, Answer), s: Probing, cloned: bool) -> bool {
    &&& event.0 matches Request::Reflink { from, to }
    &&& within(from, s.src@) || from == s.dir@.push(os(SUBJECT))
    &&& to == s.dir@.push(os(CLONE))
    &&& event.1 matches Answer::Done(came)
    &&& cloned == (came is Ok)
}

/// A clone was tried, and that is what became of it.
pub open spec fn has_cloned(events: Events, s: Probing, cloned: bool) -> bool {
    exists|i: int| 0 <= i < events.len() && is_cloning(#[trigger] events[i], s, cloned)
}

/// The probe fits its history.
pub open spec fn recalls(t: Probing, events: Events) -> bool {
    match t.stage {
        ProbeStage::CloneIt { subject } => within(subject@, t.src@) || subject@ == t.dir@.push(
            os(SUBJECT),
        ),
        ProbeStage::RemoveSubject { answer: Ok(cloned) } => has_cloned(events, t, cloned),
        ProbeStage::RemoveClone { answer: Ok(cloned) } => has_cloned(events, t, cloned),
        ProbeStage::RemoveDir { answer: Ok(cloned) } => has_cloned(events, t, cloned),
        _ => true,
    }
}

proof fn lemma_probe(s: Probing, events: Events, t: Probing)
    requires
        s.stage is MakeDir,
        probes(s, events, ProbeStep::Ask(t)),
    ensures
        recalls(t, events),
        t.src == s.src,
        t.dir == s.dir,
    decreases events.len(),
{
    if events.len() > 0 {
        let before = events.drop_last();
        let p = choose|p: Probing|
            probes(s, events.drop_last(), Step::Ask(p)) && #[trigger] p.moves(
                events.last(),
                ProbeStep::Ask(t),
            );
        lemma_probe(s, before, p);
        assert forall|cloned: bool| #[trigger] has_cloned(before, p, cloned) implies has_cloned(
            events,
            t,
            cloned,
        ) by {
            let i = choose|i: int|
                0 <= i < before.len() && is_cloning(#[trigger] before[i], p, cloned);
            assert(is_cloning(events[i], t, cloned));
        }
        match (p.stage, events.last().1) {
            (ProbeStage::NextEntry, Answer::Walked(Walked::Entry(entry))) => {
                assert((s.src@ + entry.relative@).take(s.src@.len() as int) =~= s.src@);
            },
            (ProbeStage::CloneIt { .. }, Answer::Done(came)) => {
                assert(is_cloning(events[events.len() - 1], t, came is Ok));
            },
            _ => {},
        }
    }
}

/// What a probe answers is what became of cloning one file, and it has asked for
/// its directory to be removed by then, whatever became of the clone.
pub proof fn law_probe_answers_by_cloning(s: Probing, events: Events, cloned: bool)
    requires
        s.stage is MakeDir,
        probes(s, events, ProbeStep::Done(Ok(cloned))),
    ensures
        has_cloned(events, s, cloned),
        events.len() > 0,
        events.last().0 matches Request::RemoveDir(path) && path == s.dir@,
{
    let o = ProbeStep::Done(Ok(cloned));
    let before = events.drop_last();
    let t = choose|t: Probing|
        probes(s, events.drop_last(), Step::Ask(t)) && #[trigger] t.moves(events.last(), o);
    lemma_probe(s, before, t);
    let i = choose|i: int| 0 <= i < before.len() && is_cloning(#[trigger] before[i], t, cloned);
    assert(is_cloning(events[i], s, cloned));
}

} // verus!
