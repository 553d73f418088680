//! Whole runs, against a file system that is kept in memory.
//!
//! What these assert is the shape of the seeded tree and what is found of a tree
//! that was left behind. Whether blocks clone is a property of the file system,
//! so each test that cares is run on one that does and on one that does not.

use std::collections::{BTreeMap, BTreeSet};
use std::io;

use shared_target_core::error::Failure;
use shared_target_core::fill::FillStage;
use shared_target_core::lock::acquire;
use shared_target_core::path::FsPath;
use shared_target_core::protocol::{
    Answer, Ask, Entry, FileId, Kind, Listed, Lock, Measured, Platform, Request, Step, Walked,
    Written,
};
use shared_target_core::prune::{self, State};
use shared_target_core::seed::{Phase, SeedStep};
use shared_target_core::staging::{self, Claim, Held, MARKER};
use shared_target_core::{
    seed, staging_path, supports_reflink, Error, Options, Report, Strategy,
};

const BIG: usize = 2 * 1024 * 1024;
const SMALL: usize = 512 * 1024;
const LONG_AGO: u64 = 1_600_000_000;
const NOW: u64 = 1_700_000_000;

type Key = Vec<String>;

enum Body {
    Dir,
    File(u64),
    Link(String),
}

#[derive(Clone)]
struct Inode {
    data: Vec<u8>,
    modified: u64,
    mode: u32,
}

/// A file system.
struct Disk {
    nodes: BTreeMap<Key, Body>,
    inodes: BTreeMap<u64, Inode>,
    next: u64,
    clones: bool,
    /// Directories on a device of their own.
    devices: Vec<(Key, u64)>,
    /// Locks that a build holds.
    building: BTreeSet<Key>,
    /// Which process holds the lock of a file.
    locks: BTreeMap<u64, u32>,
    /// What cannot be removed.
    stuck: BTreeSet<Key>,
}

/// What a process has open.
struct Process {
    pid: u32,
    root: Key,
    walk: Vec<(Key, Kind)>,
    at: usize,
    measured: Option<u64>,
    marker: Option<u64>,
    shares: usize,
}

fn key(path: &str) -> Key {
    path.split('/')
        .filter(|part| !part.is_empty() && *part != ".")
        .map(|part| part.to_string())
        .collect()
}

fn spelled(path: &FsPath) -> String {
    String::from_utf8(path.to_bytes()).expect("a path that is text")
}

fn path(text: &str) -> FsPath {
    FsPath::parse(text.as_bytes())
}

fn failure(kind: io::ErrorKind) -> Failure {
    Failure {
        missing: kind == io::ErrorKind::NotFound,
        source: io::Error::from(kind),
    }
}

fn missing() -> Failure {
    failure(io::ErrorKind::NotFound)
}

fn walk_error() -> walkdir::Error {
    walkdir::WalkDir::new("/no/such/directory")
        .into_iter()
        .next()
        .expect("an entry for the root")
        .expect_err("there is no such directory")
}

fn process(pid: u32) -> Process {
    Process {
        pid,
        root: Vec::new(),
        walk: Vec::new(),
        at: 0,
        measured: None,
        marker: None,
        shares: 0,
    }
}

impl Disk {
    fn new(clones: bool) -> Disk {
        let mut nodes = BTreeMap::new();
        nodes.insert(Vec::new(), Body::Dir);
        Disk {
            nodes,
            inodes: BTreeMap::new(),
            next: 1,
            clones,
            devices: Vec::new(),
            building: BTreeSet::new(),
            locks: BTreeMap::new(),
            stuck: BTreeSet::new(),
        }
    }

    /// Where a path leads, symlinks followed.
    fn resolve(&self, at: &Key) -> Option<Key> {
        self.follow(at, 0)
    }

    fn follow(&self, at: &Key, depth: usize) -> Option<Key> {
        if depth > 20 {
            return None;
        }
        let mut found: Key = Vec::new();
        for (i, part) in at.iter().enumerate() {
            if part == ".." {
                found.pop();
                continue;
            }
            found.push(part.clone());
            match self.nodes.get(&found) {
                None => return None,
                Some(Body::Link(target)) => {
                    let mut onward = if target.starts_with('/') {
                        Vec::new()
                    } else {
                        found[..found.len() - 1].to_vec()
                    };
                    onward.extend(key(target));
                    onward.extend(at[i + 1..].iter().cloned());
                    return self.follow(&onward, depth + 1);
                }
                Some(_) => {}
            }
        }
        Some(found)
    }

    /// Where a path leads whose last component need not be there.
    fn place(&self, at: &Key) -> Option<Key> {
        let (last, above) = at.split_last()?;
        let mut found = self.resolve(&above.to_vec())?;
        found.push(last.clone());
        Some(found)
    }

    fn is_dir(&self, at: &Key) -> bool {
        self.resolve(at)
            .is_some_and(|at| matches!(self.nodes.get(&at), Some(Body::Dir)))
    }

    fn inode_at(&self, at: &Key) -> Option<u64> {
        match self.nodes.get(&self.resolve(at)?) {
            Some(Body::File(inode)) => Some(*inode),
            _ => None,
        }
    }

    fn make_dirs(&mut self, at: &Key) -> Result<(), Failure> {
        let mut made: Key = Vec::new();
        for part in at {
            made.push(part.clone());
            match self.resolve(&made) {
                Some(found) => {
                    if !self.is_dir(&found) {
                        return Err(failure(io::ErrorKind::AlreadyExists));
                    }
                    made = found;
                }
                None => {
                    self.nodes.insert(made.clone(), Body::Dir);
                }
            }
        }
        Ok(())
    }

    fn add(&mut self, at: &Key, inode: Inode) -> Result<u64, Failure> {
        let at = self.place(at).ok_or_else(missing)?;
        self.next += 1;
        self.inodes.insert(self.next, inode);
        self.nodes.insert(at, Body::File(self.next));
        Ok(self.next)
    }

    /// Puts a file there, with the directories above it.
    fn put(&mut self, at: &str, data: Vec<u8>) {
        let at = key(at);
        self.make_dirs(&at[..at.len() - 1].to_vec()).expect("the directories");
        let inode = Inode { data, modified: NOW, mode: 0o644 };
        self.add(&at, inode).expect("the file");
    }

    fn put_dir(&mut self, at: &str) {
        self.make_dirs(&key(at)).expect("the directory");
    }

    fn put_link(&mut self, at: &str, target: &str) {
        self.nodes.insert(key(at), Body::Link(target.to_string()));
    }

    fn is_there(&self, at: &str) -> bool {
        self.resolve(&key(at)).is_some()
    }

    fn is_file(&self, at: &str) -> bool {
        self.inode_at(&key(at)).is_some()
    }

    fn inode(&self, at: &str) -> u64 {
        self.inode_at(&key(at)).expect("the file")
    }

    fn modified(&self, at: &str) -> u64 {
        self.inodes[&self.inode(at)].modified
    }

    fn size(&self, at: &str) -> usize {
        self.inodes[&self.inode(at)].data.len()
    }

    fn set_modified(&mut self, at: &str, modified: u64) {
        let inode = self.inode(at);
        self.inodes.get_mut(&inode).unwrap().modified = modified;
    }

    fn set_mode(&mut self, at: &str, mode: u32) {
        let inode = self.inode(at);
        self.inodes.get_mut(&inode).unwrap().mode = mode;
    }

    fn below(&self, root: &Key) -> Vec<Key> {
        self.nodes
            .keys()
            .filter(|at| at.len() >= root.len() && at[..root.len()] == root[..])
            .cloned()
            .collect()
    }

    fn listing(&self, root: &str) -> Vec<Key> {
        self.below(&key(root))
    }

    fn remove_all(&mut self, root: &Key) -> Result<(), Failure> {
        if !self.nodes.contains_key(root) {
            return Err(missing());
        }
        if self.stuck.contains(root) {
            return Err(failure(io::ErrorKind::PermissionDenied));
        }
        for at in self.below(root) {
            self.nodes.remove(&at);
        }
        Ok(())
    }

    fn device(&self, at: &Key) -> Option<u64> {
        let at = self.resolve(at)?;
        let mut device = 1;
        for (root, other) in &self.devices {
            if at.len() >= root.len() && at[..root.len()] == root[..] {
                device = *other;
            }
        }
        Some(device)
    }

    fn names_of(&self, inode: u64) -> u64 {
        self.nodes
            .values()
            .filter(|body| matches!(body, Body::File(other) if *other == inode))
            .count() as u64
    }

    fn readable(&self, at: &Key) -> Result<(u64, Inode), Failure> {
        let inode = self.inode_at(at).ok_or_else(missing)?;
        let found = self.inodes[&inode].clone();
        if found.mode & 0o444 == 0 {
            return Err(failure(io::ErrorKind::PermissionDenied));
        }
        Ok((inode, found))
    }

    fn reflink(&mut self, from: &Key, to: &Key) -> Result<(), Failure> {
        let (_, found) = self.readable(from)?;
        if !self.clones {
            return Err(failure(io::ErrorKind::Unsupported));
        }
        if self.resolve(to).is_some() {
            return Err(failure(io::ErrorKind::AlreadyExists));
        }
        self.add(to, Inode { modified: NOW, mode: 0o600, ..found })?;
        Ok(())
    }

    fn rename(&mut self, from: &Key, to: &Key) -> Result<(), Failure> {
        let from = self.resolve(from).ok_or_else(missing)?;
        let to = self.place(to).ok_or_else(missing)?;
        for at in self.below(&from) {
            let body = self.nodes.remove(&at).unwrap();
            let mut moved = to.clone();
            moved.extend(at[from.len()..].iter().cloned());
            self.nodes.insert(moved, body);
        }
        Ok(())
    }

    fn list(&self, at: &Key) -> Result<Vec<Listed>, Failure> {
        let at = self.resolve(at).ok_or_else(missing)?;
        Ok(self
            .below(&at)
            .into_iter()
            .filter(|found| found.len() == at.len() + 1)
            .map(|found| Listed {
                name: found.last().unwrap().as_bytes().to_vec(),
                leads_to_dir: self.is_dir(&found),
                is_file: matches!(self.nodes[&found], Body::File(_)),
            })
            .collect())
    }

    fn lock_marker(&mut self, process: &Process) -> Lock {
        match process.marker {
            None => Lock::Failed(failure(io::ErrorKind::Other)),
            Some(inode) => {
                if self.locks.get(&inode).is_some_and(|pid| *pid != process.pid) {
                    Lock::Busy
                } else {
                    self.locks.insert(inode, process.pid);
                    Lock::Taken
                }
            }
        }
    }

    /// Ends a process, which lets go of what it holds.
    fn end(&mut self, process: Process) {
        self.locks.retain(|_, pid| *pid != process.pid);
    }

    /// Does what was asked for.
    fn perform(&mut self, process: &mut Process, ask: Ask) -> Answer {
        let at = |path: &FsPath| key(&spelled(path));
        match ask {
            Request::IsDir(p) => Answer::Flag(self.is_dir(&at(&p))),
            Request::IsFile(p) => Answer::Flag(self.inode_at(&at(&p)).is_some()),
            Request::Exists(p) => Answer::Flag(if spelled(&p).ends_with('/') {
                self.is_dir(&at(&p))
            } else {
                self.resolve(&at(&p)).is_some()
            }),
            Request::Canonicalize(p) => Answer::Canonical(match self.resolve(&at(&p)) {
                Some(found) => Ok(path(&format!("/{}", found.join("/")))),
                None => Err(missing()),
            }),
            Request::Device(p) => Answer::Device(match self.device(&at(&p)) {
                Some(device) => Ok(Some(device)),
                None => Err(missing()),
            }),
            Request::List(p) => Answer::Listing(self.list(&at(&p))),
            Request::OpenWalk { root, min_depth } => {
                process.root = at(&root);
                process.at = 0;
                process.walk = self
                    .below(&process.root)
                    .into_iter()
                    .filter(|found| found.len() >= process.root.len() + min_depth)
                    .map(|found| {
                        let kind = match self.nodes[&found] {
                            Body::Dir => Kind::Dir,
                            Body::File(_) => Kind::File,
                            Body::Link(_) => Kind::Symlink,
                        };
                        (found[process.root.len()..].to_vec(), kind)
                    })
                    .collect();
                Answer::Done(Ok(()))
            }
            Request::NextEntry => {
                if process.at == process.walk.len() {
                    return Answer::Walked(Walked::End);
                }
                let (relative, kind) = &process.walk[process.at];
                process.at += 1;
                Answer::Walked(Walked::Entry(Entry {
                    relative: path(&relative.join("/")),
                    kind: *kind,
                }))
            }
            Request::SkipDir => {
                let last = process.walk[process.at - 1].0.clone();
                while process.at < process.walk.len()
                    && process.walk[process.at].0.starts_with(&last)
                {
                    process.at += 1;
                }
                Answer::Done(Ok(()))
            }
            Request::Measure => {
                let mut found = process.root.clone();
                found.extend(process.walk[process.at - 1].0.iter().cloned());
                match self.inode_at(&found) {
                    Some(inode) => {
                        process.measured = Some(inode);
                        Answer::Measured(Ok(Measured {
                            len: self.inodes[&inode].data.len() as u64,
                            id: FileId { device: 1, inode },
                            links: self.names_of(inode),
                        }))
                    }
                    None => Answer::Measured(Err(walk_error())),
                }
            }
            Request::ReadLink(p) => Answer::Target(match self.nodes.get(&at(&p)) {
                Some(Body::Link(target)) => Ok(target.as_bytes().to_vec()),
                _ => Err(missing()),
            }),
            Request::CreateDirAll(p) => Answer::Done(self.make_dirs(&at(&p))),
            Request::RemoveFile(p) => Answer::Done(match self.inode_at(&at(&p)) {
                Some(_) => {
                    self.nodes.remove(&self.resolve(&at(&p)).unwrap());
                    Ok(())
                }
                None => Err(missing()),
            }),
            Request::RemoveDir(p) => Answer::Done(if self.below(&at(&p)).len() == 1 {
                self.nodes.remove(&at(&p));
                Ok(())
            } else {
                Err(failure(io::ErrorKind::Other))
            }),
            Request::RemoveDirAll(p) => Answer::Done(self.remove_all(&at(&p))),
            Request::Rename { from, to } => Answer::Done(
                if spelled(&to).ends_with('/') && self.inode_at(&at(&to)).is_some() {
                    Err(failure(io::ErrorKind::NotADirectory))
                } else {
                    self.rename(&at(&from), &at(&to))
                },
            ),
            Request::Reflink { from, to } => Answer::Done(self.reflink(&at(&from), &at(&to))),
            Request::HardLink { from, to } => Answer::Done(match self.inode_at(&at(&from)) {
                Some(inode) => {
                    let to = self.place(&at(&to)).expect("a directory to link into");
                    self.nodes.insert(to, Body::File(inode));
                    Ok(())
                }
                None => Err(missing()),
            }),
            Request::Copy { from, to } => Answer::Done(match self.readable(&at(&from)) {
                Ok((_, found)) => self.add(&at(&to), Inode { modified: NOW, ..found }).map(|_| ()),
                Err(f) => Err(f),
            }),
            Request::Symlink { target, at: p } => {
                let link = Body::Link(String::from_utf8(target).unwrap());
                self.nodes.insert(at(&p), link);
                Answer::Done(Ok(()))
            }
            Request::WriteZeros { path: p, len } => {
                let inode = Inode { data: vec![0; len as usize], modified: NOW, mode: 0o644 };
                Answer::Done(self.add(&at(&p), inode).map(|_| ()))
            }
            Request::SetMode(p) => {
                let mode = self.inodes[&process.measured.unwrap()].mode;
                self.set_mode(&spelled(&p), mode);
                Answer::Done(Ok(()))
            }
            Request::SetTimes(p) => {
                let modified = self.inodes[&process.measured.unwrap()].modified;
                self.set_modified(&spelled(&p), modified);
                Answer::Done(Ok(()))
            }
            Request::LockShared(p) => Answer::Lock(if self.building.contains(&at(&p)) {
                Lock::Busy
            } else {
                process.shares += 1;
                Lock::Taken
            }),
            Request::ReleaseLocks => {
                process.shares = 0;
                Answer::Done(Ok(()))
            }
            Request::Stamp => Answer::Stamp { pid: process.pid, now: NOW },
            Request::WriteMarker { path: p, text } => {
                let inode = Inode { data: text, modified: NOW, mode: 0o644 };
                match self.add(&at(&p), inode) {
                    Ok(inode) => {
                        process.marker = Some(inode);
                        Answer::Written(Written::Done)
                    }
                    Err(f) => Answer::Written(Written::Unopened(f)),
                }
            }
            Request::OpenMarker(p) => Answer::Done(match self.inode_at(&at(&p)) {
                Some(inode) => {
                    process.marker = Some(inode);
                    Ok(())
                }
                None => Err(missing()),
            }),
            Request::LockMarker(_) => Answer::Lock(self.lock_marker(process)),
            Request::MarkerIdentity(_) => Answer::Identity(Ok(FileId {
                device: 1,
                inode: process.marker.expect("an open marker"),
            })),
            Request::Identity(p) => Answer::Identity(match self.inode_at(&at(&p)) {
                Some(inode) => Ok(FileId { device: 1, inode }),
                None => Err(missing()),
            }),
            Request::CloseMarker => {
                process.marker = None;
                self.locks.retain(|_, pid| *pid != process.pid);
                Answer::Done(Ok(()))
            }
            Request::ReadFile(p) => Answer::Contents(match self.readable(&at(&p)) {
                Ok((_, found)) => Ok(found.data),
                Err(f) => Err(f),
            }),
        }
    }
}

/// Runs a seeding to its end, by a process that then ends.
fn seed_on(disk: &mut Disk, options: Options) -> Result<Report, Error> {
    seed_for(disk, options, Platform::Unix)
}

fn seed_for(disk: &mut Disk, options: Options, platform: Platform) -> Result<Report, Error> {
    let mut worker = process(100);
    let mut run = seed(options, platform);
    loop {
        assert!(run.has_room());
        let answer = disk.perform(&mut worker, run.request());
        match run.step(answer) {
            Step::Ask(next) => run = next,
            Step::Done(result) => {
                assert_eq!(worker.marker, None, "a run that has ended holds no marker");
                assert_eq!(worker.shares, 0, "a run that has ended holds no build lock");
                return result;
            }
        }
    }
}

/// Runs a pruning to its end.
fn prune_for(
    disk: &mut Disk,
    options: prune::Options,
    platform: Platform,
) -> Result<prune::Report, Error> {
    let mut worker = process(200);
    let mut run = prune::prune(options, platform);
    loop {
        let answer = disk.perform(&mut worker, run.request());
        assert!(run.has_room(&answer));
        match run.step(answer) {
            Step::Ask(next) => run = next,
            Step::Done(result) => {
                assert_eq!(worker.marker, None, "a run that has ended holds no marker");
                assert_eq!(worker.shares, 0, "a run that has ended holds no build lock");
                return result;
            }
        }
    }
}

fn prune_on(disk: &mut Disk, options: prune::Options) -> Result<prune::Report, Error> {
    prune_for(disk, options, Platform::Unix)
}

/// Marks a tree, by a process that goes on.
fn mark(disk: &mut Disk, staging: &str, src: &str, dest: &str) -> (Held, Process) {
    let mut worker = process(300);
    let mut run = staging::mark(&path(staging), &path(src), &path(dest), worker.pid, NOW);
    loop {
        let answer = disk.perform(&mut worker, run.request());
        match run.step(answer) {
            Step::Ask(next) => run = next,
            Step::Done(held) => return (held.expect("marking the staged tree"), worker),
        }
    }
}

fn claim_on(disk: &mut Disk, marker: &str, platform: Platform) -> Result<Claim, Error> {
    let mut worker = process(400);
    let mut run = staging::claim(&path(marker), platform);
    loop {
        let answer = disk.perform(&mut worker, run.request());
        match run.step(answer) {
            Step::Ask(next) => run = next,
            Step::Done(claim) => return claim,
        }
    }
}

/// A target directory with one of everything the seeding has to decide about.
fn fixture(disk: &mut Disk, root: &str) {
    let debug = format!("{root}/debug");
    disk.put(&format!("{debug}/deps/libbig-1234.rlib"), vec![0u8; BIG]);
    disk.put(&format!("{debug}/deps/small-5678.d"), vec![0u8; SMALL]);
    disk.put(&format!("{debug}/incremental/a-hash/blob.bin"), vec![0u8; BIG]);
    disk.put(&format!("{debug}/build/pkg-out/output"), b"built".to_vec());
    for file in ["deps/libbig-1234.rlib", "deps/small-5678.d", "build/pkg-out/output"] {
        disk.set_modified(&format!("{debug}/{file}"), LONG_AGO);
    }
    disk.put_link(&format!("{debug}/alias.rlib"), "../deps/libbig-1234.rlib");
}

fn seeded(clones: bool) -> (Disk, Report) {
    let mut disk = Disk::new(clones);
    fixture(&mut disk, "/tmp/src-target");
    let options = Options::new(path("/tmp/src-target"), path("/tmp/wt/target"));
    let report = seed_on(&mut disk, options).expect("the seeding");
    let expected = if clones { Strategy::Clone } else { Strategy::LinkAndCopy };
    assert_eq!(report.strategy, expected);
    (disk, report)
}

#[test]
fn a_large_artifact_under_deps_is_shared_rather_than_copied() {
    for clones in [false, true] {
        let (disk, report) = seeded(clones);
        let from = "/tmp/src-target/debug/deps/libbig-1234.rlib";
        let to = "/tmp/wt/target/debug/deps/libbig-1234.rlib";
        match report.strategy {
            Strategy::LinkAndCopy => {
                assert_eq!(disk.inode(from), disk.inode(to), "should be one inode");
                assert_eq!(report.shared_bytes, BIG as u64);
            }
            Strategy::Clone => {
                assert_ne!(disk.inode(from), disk.inode(to));
                assert_eq!(disk.size(to), BIG, "the clone is not the file");
            }
        }
    }
}

#[test]
fn a_destination_on_another_device_of_one_filesystem_is_still_seeded() {
    let mut disk = Disk::new(true);
    fixture(&mut disk, "/tmp/src-target");
    disk.put_dir("/other");
    disk.devices.push((key("/other"), 2));

    let options = Options::new(path("/tmp/src-target"), path("/other/seeded/target"));
    let report = seed_on(&mut disk, options)
        .expect("seeding across a subvolume boundary should not be refused");
    assert_eq!(report.strategy, Strategy::Clone);
    assert_eq!(disk.size("/other/seeded/target/debug/deps/libbig-1234.rlib"), BIG);
}

#[test]
fn a_file_cargo_will_write_to_gets_one_of_its_own() {
    let (disk, report) = seeded(false);
    assert_eq!(report.strategy, Strategy::LinkAndCopy);
    for relative in ["debug/deps/small-5678.d", "debug/build/pkg-out/output"] {
        let from = format!("/tmp/src-target/{relative}");
        let to = format!("/tmp/wt/target/{relative}");
        assert_ne!(disk.inode(&from), disk.inode(&to), "{relative} should not be shared");
    }
}

#[test]
fn a_copy_arrives_with_the_same_date_as_the_file_it_came_from() {
    for clones in [false, true] {
        let (disk, _) = seeded(clones);
        for relative in ["debug/deps/small-5678.d", "debug/build/pkg-out/output"] {
            assert_eq!(
                disk.modified(&format!("/tmp/wt/target/{relative}")),
                LONG_AGO,
                "{relative} did not keep the date of the file it was copied from"
            );
        }
    }
}

#[test]
fn dep_info_is_never_shared_however_low_the_threshold() {
    let mut disk = Disk::new(false);
    fixture(&mut disk, "/tmp/src-target");
    let mut options = Options::new(path("/tmp/src-target"), path("/tmp/wt/target"));
    options.min_shared_size = 0;
    let report = seed_on(&mut disk, options).expect("the seeding");
    assert_eq!(report.strategy, Strategy::LinkAndCopy);

    let relative = "debug/deps/small-5678.d";
    assert_ne!(
        disk.inode(&format!("/tmp/src-target/{relative}")),
        disk.inode(&format!("/tmp/wt/target/{relative}")),
        "dep-info was shared between two trees"
    );
    let rlib = "debug/deps/libbig-1234.rlib";
    assert_eq!(
        disk.inode(&format!("/tmp/src-target/{rlib}")),
        disk.inode(&format!("/tmp/wt/target/{rlib}"))
    );
}

#[test]
fn a_destination_inside_the_source_is_refused() {
    for clones in [false, true] {
        let mut disk = Disk::new(clones);
        fixture(&mut disk, "/tmp/src-target");
        let before = disk.listing("/tmp/src-target");
        let options = Options::new(path("/tmp/src-target"), path("/tmp/src-target/nested/target"));
        let attempt = seed_on(&mut disk, options);
        assert!(
            matches!(attempt, Err(Error::DestinationInsideSource { .. })),
            "got {attempt:?}"
        );
        assert_eq!(
            disk.listing("/tmp/src-target"),
            before,
            "the refusal left something behind inside the source"
        );
    }
}

#[test]
fn a_staging_directory_inside_the_source_is_refused() {
    let mut disk = Disk::new(false);
    fixture(&mut disk, "/tmp/src-target");
    let before = disk.listing("/");
    let mut options = Options::new(path("/tmp/src-target"), path("/tmp/wt/target"));
    options.staging = Some(path("/tmp/src-target/partial"));
    let attempt = seed_on(&mut disk, options);
    assert!(
        matches!(attempt, Err(Error::DestinationInsideSource { .. })),
        "got {attempt:?}"
    );
    assert_eq!(disk.listing("/"), before);
}

#[test]
fn a_build_script_may_emit_a_directory_of_that_name_and_keep_it() {
    for clones in [false, true] {
        let mut disk = Disk::new(clones);
        fixture(&mut disk, "/tmp/src-target");
        let generated = "debug/build/pkg-out/out/incremental/table.rs";
        disk.put(
            &format!("/tmp/src-target/{generated}"),
            b"pub const N: usize = 1;".to_vec(),
        );
        disk.put(
            "/tmp/src-target/debug/.fingerprint/pkg-abc/run-build-script",
            b"1".to_vec(),
        );
        let options = Options::new(path("/tmp/src-target"), path("/tmp/wt/target"));
        let report = seed_on(&mut disk, options).expect("the seeding");
        assert!(
            disk.is_there(&format!("/tmp/wt/target/{generated}")),
            "a build script's own output was dropped as if it were Cargo's cache"
        );
        if report.strategy == Strategy::LinkAndCopy {
            assert_eq!(
                report.incremental_dropped, 1,
                "only Cargo's own incremental directory should have been dropped"
            );
        }
    }
}

#[test]
fn a_destination_reaching_the_source_through_a_symlink_is_refused() {
    let mut disk = Disk::new(false);
    fixture(&mut disk, "/tmp/src-target");
    disk.put_link("/tmp/elsewhere", "/tmp/src-target");
    let options = Options::new(path("/tmp/src-target"), path("/tmp/elsewhere/nested/target"));
    let attempt = seed_on(&mut disk, options);
    assert!(
        matches!(attempt, Err(Error::DestinationInsideSource { .. })),
        "got {attempt:?}"
    );
}

#[test]
fn a_read_only_file_is_carried_without_complaint() {
    for clones in [false, true] {
        let mut disk = Disk::new(clones);
        fixture(&mut disk, "/tmp/src-target");
        disk.set_mode("/tmp/src-target/debug/build/pkg-out/output", 0o444);
        let options = Options::new(path("/tmp/src-target"), path("/tmp/wt/target"));
        let report = seed_on(&mut disk, options);
        assert!(report.is_ok(), "got {report:?}");
        let carried = disk.inode("/tmp/wt/target/debug/build/pkg-out/output");
        assert_eq!(disk.inodes[&carried].mode & 0o777, 0o444);
    }
}

#[test]
fn incremental_is_left_behind_when_bringing_it_would_cost_real_bytes() {
    for clones in [false, true] {
        let (disk, report) = seeded(clones);
        let carried = disk.is_there("/tmp/wt/target/debug/incremental");
        match report.strategy {
            Strategy::LinkAndCopy => {
                assert!(!carried, "incremental would have been copied in full");
                assert_eq!(report.incremental_dropped, 1);
            }
            Strategy::Clone => assert!(carried, "cloning it costs nothing"),
        }
    }
}

#[test]
fn a_symlink_arrives_as_a_symlink() {
    for clones in [false, true] {
        let (disk, report) = seeded(clones);
        assert!(matches!(
            disk.nodes.get(&key("/tmp/wt/target/debug/alias.rlib")),
            Some(Body::Link(target)) if target == "../deps/libbig-1234.rlib"
        ));
        assert_eq!(report.symlinks, 1);
    }
}

#[test]
fn nothing_is_left_under_the_staging_name() {
    for clones in [false, true] {
        let (disk, _) = seeded(clones);
        assert!(!disk.is_there("/tmp/wt/target.partial"));
    }
}

#[test]
fn an_existing_destination_is_refused_rather_than_merged_into() {
    let (mut disk, _) = seeded(false);
    let options = Options::new(path("/tmp/src-target"), path("/tmp/wt/target"));
    let again = seed_on(&mut disk, options);
    assert!(matches!(again, Err(Error::DestinationExists(_))), "got {again:?}");
}

#[test]
fn a_source_that_is_not_there_is_named_as_the_reason() {
    let mut disk = Disk::new(false);
    disk.put_dir("/tmp");
    let options = Options::new(path("/tmp/absent"), path("/tmp/wt/target"));
    let attempt = seed_on(&mut disk, options);
    assert!(matches!(attempt, Err(Error::SourceMissing(_))), "got {attempt:?}");
}

/// A target directory with enough in it for the seeding to have decisions to
/// make.
fn prune_fixture(disk: &mut Disk, root: &str) {
    disk.put(&format!("{root}/debug/.cargo-lock"), Vec::new());
    disk.put(&format!("{root}/debug/deps/libbig-1234.rlib"), vec![0u8; BIG]);
    disk.put(&format!("{root}/debug/deps/small-5678.d"), vec![0u8; SMALL]);
    disk.put(&format!("{root}/debug/build/pkg-out/output"), b"built".to_vec());
}

/// Seeds a tree that cannot finish, and returns where the staged one was left.
fn abandoned_tree(disk: &mut Disk) -> &'static str {
    prune_fixture(disk, "/tmp/src-target");
    disk.set_mode("/tmp/src-target/debug/build/pkg-out/output", 0o000);
    let options = Options::new(path("/tmp/src-target"), path("/tmp/wt/target"));
    let attempt = seed_on(disk, options);
    assert!(attempt.is_err(), "the seeding should not have finished");
    assert!(disk.is_dir(&key("/tmp/wt/target.partial")));
    "/tmp/wt/target.partial"
}

fn looked_at(disk: &mut Disk, root: &str) -> prune::Report {
    prune_on(disk, prune::Options::new(path(root))).expect("the search")
}

fn swept(disk: &mut Disk, root: &str) -> prune::Report {
    let options = prune::Options { root: path(root), remove: true };
    prune_on(disk, options).expect("the sweep")
}

#[test]
fn a_tree_a_run_left_behind_is_found() {
    for clones in [false, true] {
        let mut disk = Disk::new(clones);
        let staging = abandoned_tree(&mut disk);
        let before = disk.listing("/");
        let report = looked_at(&mut disk, "/tmp");
        assert_eq!(report.trees.len(), 1, "{report:?}");
        let tree = &report.trees[0];
        assert_eq!(tree.staging, path(staging));
        assert_eq!(tree.state, State::Abandoned);
        assert_eq!(tree.marker.dest, path("/tmp/wt/target"));
        assert_eq!(tree.marker.src, path("/tmp/src-target"));
        assert_eq!(tree.marker.pid, 100);
        assert_eq!(tree.marker.started_at, NOW);
        assert_eq!(tree.marker.version, "0.1.0");
        assert!(!tree.removed, "a search that was not asked to remove anything");
        assert!(disk.is_there(staging), "and did not");
        assert_eq!(disk.listing("/"), before);
    }
}

#[test]
fn asking_for_it_to_go_is_what_takes_it() {
    for clones in [false, true] {
        let mut disk = Disk::new(clones);
        let staging = abandoned_tree(&mut disk);
        let report = swept(&mut disk, "/tmp");
        assert_eq!(report.trees.len(), 1, "{report:?}");
        assert!(report.trees[0].removed);
        assert!(!disk.is_there(staging), "the tree should be gone");
        assert!(disk.is_file("/tmp/src-target/debug/deps/libbig-1234.rlib"));
    }
}

#[test]
fn what_a_tree_shares_is_not_counted_as_room_to_be_had() {
    let mut disk = Disk::new(false);
    let shared_file = "/tmp/src-target/debug/deps/libbig-1234.rlib";
    disk.put(shared_file, vec![0u8; BIG]);
    let staging = "/tmp/wt/target.partial";
    let (held, worker) = mark(&mut disk, staging, "/tmp/src-target/debug/deps", "/tmp/wt/target");
    disk.put(&format!("{staging}/debug/deps/small-5678.d"), vec![0u8; SMALL]);
    let inode = disk.inode(shared_file);
    disk.nodes.insert(
        key(&format!("{staging}/debug/deps/libbig-1234.rlib")),
        Body::File(inode),
    );
    assert_eq!(held.path(), &path(staging).join(MARKER));
    disk.end(worker);

    let report = looked_at(&mut disk, "/tmp");
    let tree = report
        .trees
        .iter()
        .find(|tree| tree.staging == path(staging))
        .expect("the staged tree");
    assert_eq!(tree.weight.shared, Some(BIG as u64));
    assert_eq!(tree.weight.freeable(), Some(tree.weight.total - BIG as u64));
    assert!(
        tree.weight.freeable().unwrap() >= SMALL as u64,
        "the copy should be counted as room to be had"
    );
    let marker = disk.size(&format!("{staging}/{MARKER}"));
    assert_eq!(tree.weight.total, (BIG + SMALL + marker) as u64);
    assert_eq!(tree.weight.files, 3);
    assert_eq!(tree.weight.dirs, 2);
}

#[test]
fn a_tree_something_is_still_writing_is_left_alone() {
    let mut disk = Disk::new(false);
    let staging = "/tmp/wt/target.partial";
    let (_held, worker) = mark(&mut disk, staging, "/tmp/src-target", "/tmp/wt/target");
    disk.put(&format!("{staging}/half-written"), b"...".to_vec());
    let before = disk.listing("/");

    let report = swept(&mut disk, "/tmp");
    assert_eq!(report.trees.len(), 1, "{report:?}");
    assert_eq!(report.trees[0].state, State::Building);
    assert!(!report.trees[0].removed);
    assert!(disk.is_file(&format!("{staging}/half-written")), "left where it was");
    assert_eq!(disk.listing("/"), before);
    disk.end(worker);
}

#[test]
fn a_marker_left_on_a_tree_that_arrived_costs_the_tree_nothing() {
    let mut disk = Disk::new(false);
    let dest = "/tmp/wt/target";
    disk.put(&format!("{dest}/debug/deps/libbig-1234.rlib"), vec![0u8; BIG]);
    let (_held, worker) = mark(&mut disk, dest, "/tmp/src-target", dest);
    disk.end(worker);

    let report = swept(&mut disk, "/tmp");
    assert_eq!(report.trees.len(), 1, "{report:?}");
    assert_eq!(report.trees[0].state, State::Landed);
    assert!(report.trees[0].removed, "the marker should have been cleared");
    assert!(!disk.is_there(&format!("{dest}/{MARKER}")));
    assert!(
        disk.is_file(&format!("{dest}/debug/deps/libbig-1234.rlib")),
        "the target directory itself must be untouched"
    );
}

#[test]
fn a_seeding_that_finished_leaves_nothing_to_find() {
    for clones in [false, true] {
        let mut disk = Disk::new(clones);
        prune_fixture(&mut disk, "/tmp/src-target");
        let options = Options::new(path("/tmp/src-target"), path("/tmp/wt/target"));
        seed_on(&mut disk, options).expect("the seeding");
        assert!(looked_at(&mut disk, "/tmp").is_empty(), "nothing was left behind");
    }
}

#[test]
fn the_search_stops_at_a_target_directory() {
    let mut disk = Disk::new(false);
    disk.put("/tmp/target/CACHEDIR.TAG", b"Signature: 8a477f597d28d172".to_vec());
    let inside = "/tmp/target/deep/target.partial";
    let (_held, worker) = mark(&mut disk, inside, "/tmp/src", "/tmp/dest");
    disk.end(worker);
    assert!(looked_at(&mut disk, "/tmp").is_empty());
    assert_eq!(looked_at(&mut disk, "/tmp/target").trees.len(), 1, "asked for by name");
}

#[test]
fn a_probe_directory_goes_only_when_what_is_under_it_is_a_probe() {
    let mut disk = Disk::new(false);
    let left = "/tmp/wt/.cargo-shared-target-probe";
    let occupied = "/tmp/other/.cargo-shared-target-probe";
    disk.put(&format!("{left}/a"), vec![0u8; 8192]);
    disk.put(&format!("{occupied}/notes.txt"), b"somebody else's".to_vec());

    let report = swept(&mut disk, "/tmp");
    assert!(!disk.is_there(left), "the leftover probe should be gone");
    assert!(disk.is_file(&format!("{occupied}/notes.txt")), "and this one left alone");
    assert_eq!(report.probes.len(), 2);
    assert_eq!(report.probes.iter().filter(|probe| probe.removed).count(), 1);
}

#[test]
fn a_root_that_is_not_there_is_named_as_the_reason() {
    let mut disk = Disk::new(false);
    disk.put_dir("/tmp");
    let attempt = prune_on(&mut disk, prune::Options::new(path("/tmp/absent")));
    assert!(matches!(attempt, Err(Error::PruneRootMissing(_))), "got {attempt:?}");
}

#[test]
fn every_entry_of_the_source_is_counted_once() {
    let (_, linked) = seeded(false);
    assert_eq!(
        (linked.dirs, linked.shared, linked.copied, linked.symlinks, linked.incremental_dropped),
        (4, 1, 2, 1, 1)
    );
    assert_eq!((linked.shared_bytes, linked.copied_bytes), (BIG as u64, SMALL as u64 + 5));
    let (_, cloned) = seeded(true);
    assert_eq!(
        (cloned.dirs, cloned.shared, cloned.copied, cloned.symlinks, cloned.incremental_dropped),
        (6, 4, 0, 1, 0)
    );
    assert_eq!((cloned.shared_bytes, cloned.copied_bytes), ((2 * BIG + SMALL + 5) as u64, 0));
}

#[test]
fn the_size_from_which_on_an_artifact_is_shared_counts_as_large_enough() {
    for (threshold, linked) in [(BIG as u64, true), (BIG as u64 + 1, false)] {
        let mut disk = Disk::new(false);
        fixture(&mut disk, "/tmp/src-target");
        let mut options = Options::new(path("/tmp/src-target"), path("/tmp/wt/target"));
        options.min_shared_size = threshold;
        seed_on(&mut disk, options).expect("the seeding");
        let rlib = "debug/deps/libbig-1234.rlib";
        let one = disk.inode(&format!("/tmp/src-target/{rlib}"));
        let other = disk.inode(&format!("/tmp/wt/target/{rlib}"));
        assert_eq!(one == other, linked);
    }
}

/// What a run asks for, as far as it changes anything or ends the reading.
fn change(ask: &Ask) -> Option<String> {
    match ask {
        Request::CreateDirAll(p) => Some(format!("dir {}", spelled(p))),
        Request::RemoveFile(p) => Some(format!("rm {}", spelled(p))),
        Request::RemoveDir(p) => Some(format!("rmdir {}", spelled(p))),
        Request::RemoveDirAll(p) => Some(format!("rmall {}", spelled(p))),
        Request::Rename { from, to } => Some(format!("mv {} {}", spelled(from), spelled(to))),
        Request::Reflink { to, .. } => Some(format!("clone {}", spelled(to))),
        Request::HardLink { to, .. } => Some(format!("link {}", spelled(to))),
        Request::Copy { to, .. } => Some(format!("copy {}", spelled(to))),
        Request::Symlink { at, .. } => Some(format!("symlink {}", spelled(at))),
        Request::WriteZeros { path, .. } => Some(format!("zeros {}", spelled(path))),
        Request::SetMode(p) => Some(format!("mode {}", spelled(p))),
        Request::SetTimes(p) => Some(format!("times {}", spelled(p))),
        Request::WriteMarker { path, .. } => Some(format!("mark {}", spelled(path))),
        Request::LockShared(p) => Some(format!("lock {}", spelled(p))),
        Request::ReleaseLocks => Some("unlock".to_string()),
        Request::CloseMarker => Some("close".to_string()),
        _ => None,
    }
}

#[test]
fn a_tree_is_marked_filled_renamed_and_unmarked_in_that_order() {
    let mut disk = Disk::new(false);
    disk.put("/s/debug/.cargo-lock", Vec::new());
    disk.put("/s/debug/deps/lib.rlib", vec![0; 16]);
    disk.put("/s/debug/x86/debug/.cargo-lock", Vec::new());
    let mut options = Options::new(path("/s"), path("/w/t"));
    options.min_shared_size = 16;
    let mut worker = process(1);
    let mut run = seed(options, Platform::Unix);
    let mut changes = Vec::new();
    let report = loop {
        let ask = run.request();
        changes.extend(change(&ask));
        let answer = disk.perform(&mut worker, ask);
        match run.step(answer) {
            Step::Ask(next) => run = next,
            Step::Done(result) => break result.expect("the seeding"),
        }
    };
    assert_eq!(report.build_locks_held, 1);
    assert_eq!(report.dest, path("/w/t"));
    let marker = format!("/w/t.partial/{MARKER}");
    let expected: Vec<String> = [
        "dir /w",
        "dir /w",
        "dir /w/.cargo-shared-target-probe",
        "rm /w/.cargo-shared-target-probe/b",
        "clone /w/.cargo-shared-target-probe/b",
        "rm /w/.cargo-shared-target-probe/a",
        "rm /w/.cargo-shared-target-probe/b",
        "rmdir /w/.cargo-shared-target-probe",
        "lock /s/debug/.cargo-lock",
        "dir /w/t.partial",
        &format!("mark {marker}"),
        "dir /w/t.partial",
        "dir /w/t.partial/debug",
        "copy /w/t.partial/debug/.cargo-lock",
        "mode /w/t.partial/debug/.cargo-lock",
        "times /w/t.partial/debug/.cargo-lock",
        "dir /w/t.partial/debug/deps",
        "link /w/t.partial/debug/deps/lib.rlib",
        "dir /w/t.partial/debug/x86",
        "dir /w/t.partial/debug/x86/debug",
        "copy /w/t.partial/debug/x86/debug/.cargo-lock",
        "mode /w/t.partial/debug/x86/debug/.cargo-lock",
        "times /w/t.partial/debug/x86/debug/.cargo-lock",
        "unlock",
        "mv /w/t.partial /w/t",
        &format!("rm /w/t/{MARKER}"),
        "close",
    ]
    .iter()
    .map(|line| line.to_string())
    .collect();
    assert_eq!(changes, expected);
    assert!(!disk.is_there(&format!("/w/t/{MARKER}")));
}

#[test]
fn the_locks_of_all_profiles_are_held() {
    let mut disk = Disk::new(false);
    disk.put("/s/debug/.cargo-lock", Vec::new());
    disk.put("/s/release/.cargo-lock", Vec::new());
    disk.put("/s/x86_64-unknown-linux-gnu/debug/.cargo-lock", Vec::new());
    let options = Options::new(path("/s"), path("/w/t"));
    let report = seed_on(&mut disk, options).expect("the seeding");
    assert_eq!(report.build_locks_held, 3);
}

#[test]
fn a_seeding_that_overlaps_a_build_is_refused() {
    let mut disk = Disk::new(false);
    fixture(&mut disk, "/s");
    disk.put("/s/debug/.cargo-lock", Vec::new());
    disk.building.insert(key("/s/debug/.cargo-lock"));
    let options = Options::new(path("/s"), path("/w/t"));
    let attempt = seed_on(&mut disk, options);
    match attempt {
        Err(Error::SourceBusy { path: locked }) => {
            assert_eq!(locked, path("/s/debug/.cargo-lock"))
        }
        other => panic!("got {other:?}"),
    }
    assert!(!disk.is_there("/w/t.partial"), "nothing was staged");
}

#[test]
fn a_staged_tree_in_the_way_is_refused() {
    let mut disk = Disk::new(false);
    fixture(&mut disk, "/s");
    disk.put_dir("/w/t.partial");
    let before = disk.listing("/");
    let attempt = seed_on(&mut disk, Options::new(path("/s"), path("/w/t")));
    assert!(matches!(attempt, Err(Error::StagingExists(_))), "got {attempt:?}");
    assert_eq!(disk.listing("/"), before);
}

#[test]
fn linking_does_not_cross_a_device() {
    let mut disk = Disk::new(false);
    fixture(&mut disk, "/s");
    disk.put_dir("/other");
    disk.devices.push((key("/other"), 2));
    let attempt = seed_on(&mut disk, Options::new(path("/s"), path("/other/w/t")));
    match attempt {
        Err(Error::CrossDevice { src, dest }) => {
            assert_eq!(src, path("/s"));
            assert_eq!(dest, path("/other/w"));
        }
        other => panic!("got {other:?}"),
    }
}

#[test]
fn a_rename_does_not_cross_a_device_even_where_blocks_clone() {
    let mut disk = Disk::new(true);
    fixture(&mut disk, "/s");
    disk.put_dir("/other");
    disk.devices.push((key("/other"), 2));
    let mut options = Options::new(path("/s"), path("/w/t"));
    options.staging = Some(path("/other/t.partial"));
    let attempt = seed_on(&mut disk, options);
    match attempt {
        Err(Error::CrossDevice { src, dest }) => {
            assert_eq!(src, path("/other"));
            assert_eq!(dest, path("/w"));
        }
        other => panic!("got {other:?}"),
    }
}

#[test]
fn a_tree_is_staged_beside_its_destination_unless_it_is_said_where() {
    let mut options = Options::new(path("/s"), path("/w/target"));
    assert_eq!(staging_path(&options), path("/w/target.partial"));
    options.staging = Some(path("/elsewhere"));
    assert_eq!(staging_path(&options), path("/elsewhere"));
    assert_eq!(
        staging_path(&Options::new(path("/s"), path("/"))),
        path("/target.partial")
    );
}

#[test]
fn a_relative_destination_is_created_where_the_run_stands() {
    let mut disk = Disk::new(false);
    fixture(&mut disk, "/s");
    let options = Options::new(path("/s"), path("t"));
    let report = seed_on(&mut disk, options).expect("the seeding");
    assert_eq!(report.dest, path("t"));
    assert!(disk.is_there("/t/debug/deps/libbig-1234.rlib"));
}

#[test]
fn the_marker_of_the_source_stays_with_the_source() {
    for clones in [false, true] {
        let mut disk = Disk::new(clones);
        let (_held, worker) = mark(&mut disk, "/s", "/elsewhere", "/s");
        disk.end(worker);
        disk.put("/s/nested/file", vec![1]);
        disk.put(&format!("/s/nested/{MARKER}"), vec![2]);
        let report = seed_on(&mut disk, Options::new(path("/s"), path("/w/t"))).expect("seeding");
        assert!(disk.is_there(&format!("/s/{MARKER}")));
        assert!(!disk.is_there(&format!("/w/t/{MARKER}")));
        assert!(disk.is_there(&format!("/w/t/nested/{MARKER}")), "only the root's is a marker");
        assert_eq!(report.shared + report.copied, 2);
    }
}

#[test]
fn a_symlink_is_followed_where_making_one_is_not_taken_for_granted() {
    let mut disk = Disk::new(false);
    disk.put("/s/file", b"what it points at".to_vec());
    disk.put_link("/s/link", "file");
    let options = Options::new(path("/s"), path("/w/t"));
    let report = seed_for(&mut disk, options, Platform::Other).expect("the seeding");
    assert_eq!(report.symlinks, 1);
    assert!(matches!(disk.nodes.get(&key("/w/t/link")), Some(Body::File(_))));
    assert_eq!(disk.size("/w/t/link"), 17);
}

/// Brings a seeding to the point where `at` says so.
fn seeding_at(disk: &mut Disk, at: fn(&Phase) -> bool) -> shared_target_core::seed::Seeding {
    let mut worker = process(1);
    let mut run = seed(Options::new(path("/s"), path("/w/t")), Platform::Unix);
    while !at(&run.phase) {
        let answer = disk.perform(&mut worker, run.request());
        match run.step(answer) {
            Step::Ask(next) => run = next,
            Step::Done(result) => panic!("ended with {result:?}"),
        }
    }
    run
}

/// Lets a seeding let go of what it holds, and nothing else.
fn ended(step: SeedStep) -> Result<Report, Error> {
    let mut step = step;
    loop {
        match step {
            Step::Done(result) => return result,
            Step::Ask(run) => {
                let ask = run.request();
                assert!(matches!(ask, Request::CloseMarker | Request::ReleaseLocks));
                step = run.step(Answer::Done(Ok(())));
            }
        }
    }
}

#[test]
fn a_rename_that_fails_leaves_the_marker_in_the_staged_tree() {
    let mut disk = Disk::new(false);
    fixture(&mut disk, "/s");
    let run = seeding_at(&mut disk, |phase| matches!(phase, Phase::Rename { .. }));
    match ended(run.step(Answer::Done(Err(failure(io::ErrorKind::PermissionDenied))))) {
        Err(Error::Io { op, path: at, .. }) => {
            assert_eq!(op, "renaming the staged tree to");
            assert_eq!(at, path("/w/t"));
        }
        other => panic!("got {other:?}"),
    }
    assert!(disk.is_there(&format!("/w/t.partial/{MARKER}")));
}

#[test]
fn a_marker_that_is_already_gone_is_no_failure() {
    let mut disk = Disk::new(false);
    fixture(&mut disk, "/s");
    let run = seeding_at(&mut disk, |phase| matches!(phase, Phase::Unmark { .. }));
    assert!(ended(run.step(Answer::Done(Err(missing())))).is_ok());

    let mut disk = Disk::new(false);
    fixture(&mut disk, "/s");
    let run = seeding_at(&mut disk, |phase| matches!(phase, Phase::Unmark { .. }));
    match ended(run.step(Answer::Done(Err(failure(io::ErrorKind::PermissionDenied))))) {
        Err(Error::Io { op, path: at, .. }) => {
            assert_eq!(op, "removing the staging marker");
            assert_eq!(at, path("/w/t").join(MARKER));
        }
        other => panic!("got {other:?}"),
    }
}

#[test]
fn a_marker_that_another_run_holds_is_refused() {
    let mut disk = Disk::new(false);
    fixture(&mut disk, "/s");
    let run = seeding_at(&mut disk, |phase| {
        matches!(phase, Phase::Mark { marking, .. }
            if matches!(marking.stage, staging::MarkStage::TakeLock))
    });
    match ended(run.step(Answer::Lock(Lock::Busy))) {
        Err(Error::StagingBusy(at)) => {
            assert_eq!(at, path("/w/t.partial").join(MARKER))
        }
        other => panic!("got {other:?}"),
    }
}

#[test]
fn a_marker_that_cannot_be_written_is_named() {
    let mut disk = Disk::new(false);
    fixture(&mut disk, "/s");
    let at_write = |phase: &Phase| {
        matches!(phase, Phase::Mark { marking, .. }
            if matches!(marking.stage, staging::MarkStage::Write))
    };
    let run = seeding_at(&mut disk, at_write);
    let cause = serde_json::from_slice::<serde_json::Value>(b"{").expect_err("no document");
    match ended(run.step(Answer::Written(Written::Failed(cause)))) {
        Err(Error::MarkerWrite { path: at, .. }) => {
            assert_eq!(at, path("/w/t.partial").join(MARKER))
        }
        other => panic!("got {other:?}"),
    }
    let mut disk = Disk::new(false);
    fixture(&mut disk, "/s");
    let run = seeding_at(&mut disk, at_write);
    match ended(run.step(Answer::Written(Written::Unopened(missing())))) {
        Err(Error::Io { op, .. }) => assert_eq!(op, "writing the staging marker"),
        other => panic!("got {other:?}"),
    }
}

#[test]
fn a_walk_that_fails_names_the_source() {
    let mut disk = Disk::new(false);
    fixture(&mut disk, "/s");
    let run = seeding_at(&mut disk, |phase| {
        matches!(phase, Phase::Fill { filling, .. }
            if matches!(filling.stage, FillStage::NextEntry))
    });
    match ended(run.step(Answer::Walked(Walked::Failed(walk_error())))) {
        Err(Error::Walk { path: at, .. }) => assert_eq!(at, path("/s")),
        other => panic!("got {other:?}"),
    }
    let mut disk = Disk::new(false);
    fixture(&mut disk, "/s");
    let run = seeding_at(&mut disk, |phase| {
        matches!(phase, Phase::Fill { filling, .. }
            if matches!(filling.stage, FillStage::Measure { .. }))
    });
    match ended(run.step(Answer::Measured(Err(walk_error())))) {
        Err(Error::Walk { path: at, .. }) => {
            assert_eq!(at, path("/s/debug/build/pkg-out/output"))
        }
        other => panic!("got {other:?}"),
    }
}

#[test]
fn an_answer_that_was_not_asked_for_changes_nothing() {
    let run = seed(Options::new(path("/s"), path("/w/t")), Platform::Unix);
    match run.step(Answer::Stamp { pid: 1, now: 2 }) {
        Step::Ask(run) => assert!(matches!(run.phase, Phase::Source)),
        other => panic!("got {other:?}"),
    }
}

#[test]
fn a_probe_says_whether_blocks_clone_and_leaves_nothing() {
    for (clones, file) in [(true, true), (true, false), (false, true), (false, false)] {
        let mut disk = Disk::new(clones);
        disk.put_dir("/s/empty");
        disk.put_dir("/w");
        if file {
            disk.put("/s/file", vec![1]);
        }
        disk.put("/w/.cargo-shared-target-probe/b", vec![1]);
        let mut worker = process(1);
        let mut run = supports_reflink(&path("/s"), &path("/w"));
        let mut cloned_from = Vec::new();
        let answer = loop {
            let ask = run.request();
            if let Request::Reflink { from, .. } = &ask {
                cloned_from.push(spelled(from));
            }
            let came = disk.perform(&mut worker, ask);
            match run.step(came) {
                Step::Ask(next) => run = next,
                Step::Done(answer) => break answer,
            }
        };
        assert_eq!(answer.expect("an answer"), clones);
        assert!(!disk.is_there("/w/.cargo-shared-target-probe"));
        let expected = if file { "/s/file" } else { "/w/.cargo-shared-target-probe/a" };
        assert_eq!(cloned_from, [expected]);
    }
}

#[test]
fn a_tree_is_found_by_its_marker_and_not_by_its_name() {
    let mut disk = Disk::new(false);
    disk.put_dir("/r/target.partial");
    let (_held, worker) = mark(&mut disk, "/r/anything", "/s", "/d");
    disk.end(worker);
    let (_held, worker) = mark(&mut disk, "/r/.git/hidden", "/s", "/d");
    disk.end(worker);
    disk.put("/r/anything/CACHEDIR.TAG", Vec::new());
    let report = looked_at(&mut disk, "/r");
    assert_eq!(report.trees.len(), 1, "{report:?}");
    assert_eq!(report.trees[0].staging, path("/r/anything"));
}

#[test]
fn a_root_that_is_a_staged_tree_is_found() {
    let mut disk = Disk::new(false);
    let (_held, worker) = mark(&mut disk, "/r", "/s", "/d");
    disk.end(worker);
    let report = looked_at(&mut disk, "/r");
    assert_eq!(report.trees.len(), 1);
    assert_eq!(report.trees[0].staging, path("/r"));
}

#[test]
fn a_probe_beside_a_running_seeding_is_left_alone() {
    let mut disk = Disk::new(false);
    disk.put("/r/.cargo-shared-target-probe/a", vec![0; 8192]);
    disk.put("/r/elsewhere/.cargo-shared-target-probe/b", vec![0; 8192]);
    let (_held, worker) = mark(&mut disk, "/r/t.partial", "/s", "/r/t");
    let report = swept(&mut disk, "/r");
    assert!(disk.is_there("/r/.cargo-shared-target-probe/a"));
    assert!(!disk.is_there("/r/elsewhere/.cargo-shared-target-probe"));
    let removed: Vec<bool> = report.probes.iter().map(|probe| probe.removed).collect();
    assert_eq!(removed, [false, true]);
    disk.end(worker);
    assert_eq!(report.trees[0].state, State::Building);
}

#[test]
fn looking_leaves_probes_and_landed_markers_where_they_are() {
    let mut disk = Disk::new(false);
    disk.put("/r/.cargo-shared-target-probe/a", vec![0; 8192]);
    let (_held, worker) = mark(&mut disk, "/r/t", "/s", "/r/t");
    disk.end(worker);
    let before = disk.listing("/");
    let report = looked_at(&mut disk, "/r");
    assert_eq!(report.trees[0].state, State::Landed);
    assert!(!report.trees[0].removed);
    assert_eq!(report.trees[0].weight.total, 0, "a landed tree is not weighed");
    assert!(!report.probes[0].removed);
    assert_eq!(disk.listing("/"), before);
}

#[test]
fn a_tree_that_cannot_be_removed_is_an_error() {
    let mut disk = Disk::new(false);
    let (_held, worker) = mark(&mut disk, "/r/t.partial", "/s", "/r/t");
    disk.end(worker);
    disk.stuck.insert(key("/r/t.partial"));
    let options = prune::Options { root: path("/r"), remove: true };
    match prune_on(&mut disk, options) {
        Err(Error::Io { op, path: at, .. }) => {
            assert_eq!(op, "removing");
            assert_eq!(at, path("/r/t.partial"));
        }
        other => panic!("got {other:?}"),
    }
}

#[test]
fn a_platform_without_locks_decides_nothing() {
    let mut disk = Disk::new(false);
    let (_held, worker) = mark(&mut disk, "/r/t.partial", "/s", "/r/t");
    disk.end(worker);
    let options = prune::Options { root: path("/r"), remove: true };
    let report = prune_for(&mut disk, options, Platform::Other).expect("the sweep");
    assert_eq!(report.trees[0].state, State::Undecidable);
    assert!(!report.trees[0].removed);
    assert_eq!(report.trees[0].weight.shared, None);
    assert_eq!(report.trees[0].weight.freeable(), None);
    assert!(disk.is_there("/r/t.partial"));
}

#[test]
fn a_file_by_that_name_that_is_no_marker_is_an_error() {
    let mut disk = Disk::new(false);
    disk.put(&format!("/r/t/{MARKER}"), b"not a marker".to_vec());
    let attempt = prune_on(&mut disk, prune::Options::new(path("/r")));
    assert!(matches!(attempt, Err(Error::MarkerUnreadable { .. })), "got {attempt:?}");

    let mut disk = Disk::new(false);
    disk.put(&format!("/r/t/{MARKER}"), b"{\"src\": \"/s\"}".to_vec());
    let attempt = prune_on(&mut disk, prune::Options::new(path("/r")));
    assert!(matches!(attempt, Err(Error::MarkerIncomplete(_))), "got {attempt:?}");
}

#[test]
fn a_claim_says_whether_the_run_is_still_going() {
    let marker = format!("/r/t/{MARKER}");
    let mut disk = Disk::new(false);
    assert!(matches!(claim_on(&mut disk, &marker, Platform::Unix), Ok(Claim::Finished)));
    assert!(matches!(claim_on(&mut disk, &marker, Platform::Other), Ok(Claim::Finished)));
    let (_held, worker) = mark(&mut disk, "/r/t", "/s", "/d");
    assert!(matches!(claim_on(&mut disk, &marker, Platform::Unix), Ok(Claim::Building)));
    assert!(matches!(claim_on(&mut disk, &marker, Platform::Other), Ok(Claim::Undecidable)));
    disk.end(worker);
    match claim_on(&mut disk, &marker, Platform::Unix) {
        Ok(Claim::Abandoned(held)) => assert_eq!(held.path(), &path(&marker)),
        other => panic!("got {other:?}"),
    }
}

#[test]
fn a_marker_that_was_replaced_while_it_was_locked_is_another_ones() {
    let marker = path("/r/t").join(MARKER);
    let step = |run: staging::Claiming, answer: Answer| match run.step(answer) {
        Step::Ask(run) => run,
        other => panic!("got {other:?}"),
    };
    let id = |inode: u64| FileId { device: 1, inode };
    for (there, abandoned) in [(Ok(id(7)), true), (Ok(id(8)), false), (Err(missing()), false)] {
        let run = staging::claim(&marker, Platform::Unix);
        let run = step(run, Answer::Done(Ok(())));
        let run = step(run, Answer::Lock(Lock::Taken));
        let run = step(run, Answer::Identity(Ok(id(7))));
        match run.step(Answer::Identity(there)) {
            Step::Done(Ok(Claim::Abandoned(_))) => assert!(abandoned),
            Step::Ask(run) => {
                assert!(matches!(run.request(), Request::CloseMarker));
                let done = run.step(Answer::Done(Ok(())));
                assert!(matches!(done, Step::Done(Ok(Claim::Finished))));
                assert!(!abandoned);
            }
            other => panic!("got {other:?}"),
        }
    }
}

#[test]
fn a_refused_taking_lets_go_of_what_it_took() {
    let mut disk = Disk::new(false);
    disk.put("/s/debug/.cargo-lock", Vec::new());
    disk.put("/s/release/.cargo-lock", Vec::new());
    disk.building.insert(key("/s/release/.cargo-lock"));
    let attempt = seed_on(&mut disk, Options::new(path("/s"), path("/w/t")));
    assert!(matches!(attempt, Err(Error::SourceBusy { .. })), "got {attempt:?}");
    let mut worker = process(1);
    let mut run = acquire(&path("/s"));
    let mut most = 0;
    let result = loop {
        let answer = disk.perform(&mut worker, run.request());
        most = most.max(worker.shares);
        match run.step(answer) {
            Step::Ask(next) => run = next,
            Step::Done(result) => break result,
        }
    };
    assert!(result.is_err());
    assert_eq!((most, worker.shares), (1, 0));
}

/// Examines the tree at `staging`, which is renamed away once `at` says so.
fn examined_while_it_lands(at: fn(&prune::ExamineStage) -> bool) -> Option<prune::Tree> {
    let mut disk = Disk::new(false);
    disk.put("/r/t.partial/file", vec![0; 3]);
    let (_held, worker) = mark(&mut disk, "/r/t.partial", "/s", "/r/t");
    disk.end(worker);
    let mut worker = process(7);
    let mut run = prune::examine(&path("/r/t.partial"), true, Platform::Unix);
    loop {
        if at(&run.stage) && disk.is_there("/r/t.partial") {
            disk.rename(&key("/r/t.partial"), &key("/r/t")).expect("the rename");
            disk.nodes.remove(&key(&format!("/r/t/{MARKER}")));
        }
        let answer = disk.perform(&mut worker, run.request());
        match run.step(answer) {
            Step::Ask(next) => run = next,
            Step::Done(result) => {
                assert!(disk.is_there("/r/t/file"));
                assert_eq!(worker.marker, None);
                return result.expect("no error");
            }
        }
    }
}

#[test]
fn a_tree_that_lands_while_it_is_looked_at_is_no_tree() {
    use_stage(|stage| matches!(stage, prune::ExamineStage::ReadMarker));
    use_stage(|stage| matches!(stage, prune::ExamineStage::WhereStaged { .. }));
    use_stage(|stage| matches!(stage, prune::ExamineStage::Weigh { .. }));
    use_stage(|stage| matches!(stage, prune::ExamineStage::Claim { .. }));
}

fn use_stage(at: fn(&prune::ExamineStage) -> bool) {
    assert!(examined_while_it_lands(at).is_none());
}

#[test]
fn a_tree_that_cannot_be_weighed_though_it_is_there_is_an_error() {
    let mut disk = Disk::new(false);
    let (_held, worker) = mark(&mut disk, "/r/t.partial", "/s", "/r/t");
    disk.end(worker);
    let mut worker = process(7);
    let mut run = prune::examine(&path("/r/t.partial"), true, Platform::Unix);
    let result = loop {
        let ask = run.request();
        let answer = if matches!(ask, Request::NextEntry) {
            Answer::Walked(Walked::Failed(walk_error()))
        } else {
            disk.perform(&mut worker, ask)
        };
        match run.step(answer) {
            Step::Ask(next) => run = next,
            Step::Done(result) => break result,
        }
    };
    assert!(matches!(result, Err(Error::Walk { .. })), "got {result:?}");
}

#[test]
fn a_file_with_all_its_names_in_the_tree_is_not_shared() {
    let mut disk = Disk::new(false);
    let (_held, worker) = mark(&mut disk, "/r/t.partial", "/s", "/r/t");
    disk.end(worker);
    disk.put("/r/t.partial/a", vec![0; 10]);
    let inode = disk.inode("/r/t.partial/a");
    disk.nodes.insert(key("/r/t.partial/b"), Body::File(inode));
    let report = looked_at(&mut disk, "/r");
    assert_eq!(report.trees[0].weight.shared, Some(0));
    disk.nodes.insert(key("/elsewhere"), Body::File(inode));
    let report = looked_at(&mut disk, "/r");
    assert_eq!(report.trees[0].weight.shared, Some(20));
    assert_eq!(report.trees[0].weight.files, 3);
}

#[test]
fn a_path_that_ends_in_a_separator_names_no_file() {
    let mut disk = Disk::new(false);
    fixture(&mut disk, "/s");
    disk.put("/w/x", vec![1]);
    let attempt = seed_on(&mut disk, Options::new(path("/s"), path("/w/x")));
    assert!(matches!(attempt, Err(Error::DestinationExists(_))), "got {attempt:?}");
    match seed_on(&mut disk, Options::new(path("/s"), path("/w/x/"))) {
        Err(error) => assert_eq!(error.message(), "renaming the staged tree to /w/x/"),
        other => panic!("got {other:?}"),
    }
}

#[test]
fn what_a_seeding_saw_is_what_it_reports_whatever_the_threshold() {
    let report = |threshold: u64| {
        let mut disk = Disk::new(false);
        fixture(&mut disk, "/s");
        disk.put("/s/debug/deps/mid.rlib", vec![0; SMALL]);
        let mut options = Options::new(path("/s"), path("/w/t"));
        options.min_shared_size = threshold;
        seed_on(&mut disk, options).expect("the seeding")
    };
    let low = report(SMALL as u64);
    let high = report(BIG as u64);
    assert_eq!((low.shared, high.shared), (2, 1));
    assert_eq!(low.shared + low.copied, high.shared + high.copied);
    assert_eq!(
        low.shared_bytes + low.copied_bytes,
        high.shared_bytes + high.copied_bytes
    );
    assert_eq!((low.dirs, low.symlinks), (high.dirs, high.symlinks));
    assert_eq!(low.incremental_dropped, high.incremental_dropped);
}

#[test]
fn a_second_pruning_finds_what_the_first_left() {
    let mut disk = Disk::new(false);
    let (_held, gone) = mark(&mut disk, "/r/left", "/s", "/d");
    disk.end(gone);
    let (_held, _worker) = mark(&mut disk, "/r/busy", "/s", "/d");
    disk.put("/r/.cargo-shared-target-probe/a", vec![0; 8192]);
    disk.put("/r/x/.cargo-shared-target-probe/b", vec![0; 8192]);
    disk.put("/r/y/.cargo-shared-target-probe/notes", vec![1]);
    let left = |report: &prune::Report| {
        let trees: Vec<FsPath> = report
            .trees
            .iter()
            .filter(|tree| !tree.removed)
            .map(|tree| tree.staging.clone())
            .collect();
        let probes: Vec<FsPath> = report
            .probes
            .iter()
            .filter(|probe| !probe.removed)
            .map(|probe| probe.path.clone())
            .collect();
        (trees, probes)
    };
    let first = swept(&mut disk, "/r");
    assert_eq!(first.trees.len(), 2);
    assert_eq!(first.probes.len(), 3);
    let before = disk.listing("/");
    let second = swept(&mut disk, "/r");
    assert_eq!(left(&first), left(&second));
    assert_eq!(second.trees.len(), 1);
    assert_eq!(second.trees[0].state, State::Building);
    assert_eq!(second.probes.len(), 2);
    assert_eq!(disk.listing("/"), before);
}

#[test]
fn what_is_resolved_is_resolved_to_itself() {
    let mut disk = Disk::new(false);
    disk.put_dir("/real/dir");
    disk.put_link("/link", "/real");
    let resolve = |disk: &mut Disk, text: &str| {
        let mut worker = process(1);
        let mut run = shared_target_core::nesting::resolve(&path(text));
        loop {
            let answer = disk.perform(&mut worker, run.request());
            match run.step(answer) {
                Step::Ask(next) => run = next,
                Step::Done(result) => return spelled(&result.expect("a place")),
            }
        }
    };
    for (text, found) in [
        ("/link/dir/x/y", "/real/dir/x/y"),
        ("/link", "/real"),
        ("/nowhere/x", "/nowhere/x"),
        ("x", "/x"),
    ] {
        assert_eq!(resolve(&mut disk, text), found);
        assert_eq!(resolve(&mut disk, found), found);
    }
}
