//! Swapping `node_modules` on a change of branch, through a cache that is addressed by the
//! contents of the lockfile.
//!
//! A [`Job`] decides; it touches no file itself. It asks for one [`Action`] after the other, and
//! is told how each of them went by an [`Event`].

use crate::hashing;
use crate::text;
use crate::timestamp;
use crate::timestamp::Timestamp;
use vstd::prelude::*;

verus! {

// ── Places ───────────────────────────────────────────────────────────────────────────────
/// The two directories that everything here lies in.
#[derive(Debug, Clone, Copy, PartialEq, Eq, Structural)]
pub enum Root {
    /// The root of the git repository.
    Repo,
    /// The home directory of git-warp.
    WarpHome,
}

/// A path: a directory, and the components below it.
#[derive(Debug, PartialEq, Eq)]
pub struct Location {
    pub root: Root,
    pub parts: Vec<String>,
}

/// Where a path begins: in one of the two directories, or elsewhere. Only links lead elsewhere.
pub enum Base {
    Repo,
    WarpHome,
    Elsewhere,
}

/// A path in characters.
pub struct Place {
    pub base: Base,
    pub parts: Seq<Seq<char>>,
}

impl View for Location {
    type V = Place;

    open spec fn view(&self) -> Place {
        Place {
            base: match self.root {
                Root::Repo => Base::Repo,
                Root::WarpHome => Base::WarpHome,
            },
            parts: text::texts(self.parts@),
        }
    }
}

/// The place of something in the root of the repository.
pub open spec fn in_repo(name: Seq<char>) -> Place {
    Place { base: Base::Repo, parts: seq![name] }
}

/// The place of a cache entry.
pub open spec fn entry(key: Seq<char>) -> Place {
    Place { base: Base::WarpHome, parts: seq!["cache"@, key] }
}

/// The place of something in a cache entry.
pub open spec fn in_entry(key: Seq<char>, name: Seq<char>) -> Place {
    Place { base: Base::WarpHome, parts: seq!["cache"@, key, name] }
}

/// The place of `node_modules` in the repository.
pub open spec fn dep_dir() -> Place {
    in_repo("node_modules"@)
}

/// The place of `node_modules` in a cache entry.
pub open spec fn cached_deps(key: Seq<char>) -> Place {
    in_entry(key, "node_modules"@)
}

/// The place of something in the root of the repository.
fn repo_location(name: &str) -> (r: Location)
    ensures
        r@ == in_repo(name@),
{
    let mut parts: Vec<String> = Vec::new();
    parts.push(name.to_owned());
    assert(text::texts(parts@) =~= seq![name@]);
    Location { root: Root::Repo, parts }
}

/// The place of a cache entry.
fn entry_location(key: &str) -> (r: Location)
    ensures
        r@ == entry(key@),
{
    let mut parts: Vec<String> = Vec::new();
    parts.push("cache".to_owned());
    parts.push(key.to_owned());
    assert(text::texts(parts@) =~= seq!["cache"@, key@]);
    Location { root: Root::WarpHome, parts }
}

/// The place of something in a cache entry.
fn in_entry_location(key: &str, name: &str) -> (r: Location)
    ensures
        r@ == in_entry(key@, name@),
{
    let mut parts: Vec<String> = Vec::new();
    parts.push("cache".to_owned());
    parts.push(key.to_owned());
    parts.push(name.to_owned());
    assert(text::texts(parts@) =~= seq!["cache"@, key@, name@]);
    Location { root: Root::WarpHome, parts }
}

// ── Lockfiles ────────────────────────────────────────────────────────────────────────────
/// The lockfiles that are looked for, in their order: npm, yarn, pnpm and bun.
pub open spec fn lockfiles() -> Seq<Seq<char>> {
    seq!["package-lock.json"@, "yarn.lock"@, "pnpm-lock.yaml"@, "bun.lockb"@]
}

/// The lockfile that is looked for after so many others.
pub fn lockfile_at(i: usize) -> (r: Option<String>)
    ensures
        match r {
            Some(name) => i < lockfiles().len() && name@ == lockfiles()[i as int],
            None => i >= lockfiles().len(),
        },
{
    if i == 0 {
        Some("package-lock.json".to_owned())
    } else if i == 1 {
        Some("yarn.lock".to_owned())
    } else if i == 2 {
        Some("pnpm-lock.yaml".to_owned())
    } else if i == 3 {
        Some("bun.lockb".to_owned())
    } else {
        None
    }
}

/// The text that marks a cache entry as used at a time. It can be read back for the years 0 to
/// 9999.
pub fn last_used_mark(now: Timestamp) -> (r: String)
    requires
        timestamp::known(now),
    ensures
        r@ == timestamp::rfc3339_text(now.secs, now.nanos),
        text::trimmed(r@) == r@,
        timestamp::YEAR_0 <= now.secs <= timestamp::YEAR_9999 ==> timestamp::rfc3339_parsed(r@)
            == Some((now.secs, now.nanos)),
{
    now.to_rfc3339()
}

// ── Results ──────────────────────────────────────────────────────────────────────────────
/// The outcome of a dependency swap.
#[derive(Debug, PartialEq, Eq)]
pub enum SwapResult {
    /// `node_modules` now links to a cached dependency tree.
    Swapped { hash: String, cache_path: Location },
    /// The lockfile has no cached `node_modules` yet: they must be installed once.
    CacheMiss { hash: String, lockfile: String },
    /// There is no supported lockfile in the repository.
    NoLockfile,
    /// `node_modules` already links to the right cache entry.
    AlreadyCurrent { hash: String },
    /// A real `node_modules` directory was removed, as it is not known which lockfile it
    /// belonged to.
    StaleRemoved { hash: String },
}

/// The outcome of a dependency swap in characters.
pub enum ResultView {
    Swapped { hash: Seq<char>, cache_path: Place },
    CacheMiss { hash: Seq<char>, lockfile: Seq<char> },
    NoLockfile,
    AlreadyCurrent { hash: Seq<char> },
    StaleRemoved { hash: Seq<char> },
}

impl View for SwapResult {
    type V = ResultView;

    open spec fn view(&self) -> ResultView {
        match self {
            SwapResult::Swapped { hash, cache_path } => ResultView::Swapped {
                hash: hash@,
                cache_path: cache_path@,
            },
            SwapResult::CacheMiss { hash, lockfile } => ResultView::CacheMiss {
                hash: hash@,
                lockfile: lockfile@,
            },
            SwapResult::NoLockfile => ResultView::NoLockfile,
            SwapResult::AlreadyCurrent { hash } => ResultView::AlreadyCurrent { hash: hash@ },
            SwapResult::StaleRemoved { hash } => ResultView::StaleRemoved { hash: hash@ },
        }
    }
}

/// The part of a hash that is shown: its first 16 bytes.
pub open spec fn shown_hash(hash: Seq<char>) -> Seq<char> {
    vstd::utf8::decode_utf8(vstd::utf8::encode_utf8(hash).take(16))
}

/// Whether a hash can be shown: it has 16 bytes, and no character across the last of them.
pub open spec fn hash_can_be_shown(hash: Seq<char>) -> bool {
    vstd::utf8::is_char_boundary(vstd::utf8::encode_utf8(hash), 16)
}

/// Whether an outcome can be shown.
pub open spec fn can_be_shown(r: ResultView) -> bool {
    match r {
        ResultView::Swapped { hash, .. } => hash_can_be_shown(hash),
        ResultView::CacheMiss { hash, .. } => hash_can_be_shown(hash),
        ResultView::NoLockfile => true,
        ResultView::AlreadyCurrent { hash } => hash_can_be_shown(hash),
        ResultView::StaleRemoved { hash } => hash_can_be_shown(hash),
    }
}

/// An outcome for people to read.
pub open spec fn result_text(r: ResultView) -> Seq<char> {
    match r {
        ResultView::Swapped { hash, .. } => "swapped to cache:"@ + shown_hash(hash),
        ResultView::CacheMiss { hash, lockfile } => "cache miss for "@ + lockfile + " (hash:"@
            + shown_hash(hash) + ")"@,
        ResultView::NoLockfile => "no lockfile found"@,
        ResultView::AlreadyCurrent { hash } => "already current ("@ + shown_hash(hash) + ")"@,
        ResultView::StaleRemoved { hash } => "removed stale node_modules (hash:"@ + shown_hash(hash)
            + ")"@,
    }
}

/// A hash between two texts.
fn around_hash(before: &str, hash: &str, after: &str) -> (r: String)
    requires
        hash_can_be_shown(hash@),
    ensures
        r@ == before@ + shown_hash(hash@) + after@,
{
    let mut s = before.to_owned();
    s.append(text::byte_prefix(hash, 16).as_str());
    s.append(after);
    s
}

impl SwapResult {
    /// The outcome for people to read.
    pub fn display(&self) -> (r: String)
        requires
            can_be_shown(self@),
        ensures
            r@ == result_text(self@),
    {
        match self {
            SwapResult::Swapped { hash, .. } => {
                let s = around_hash("swapped to cache:", hash.as_str(), "");
                proof {
                    reveal_strlit("");
                    assert(s@ =~= "swapped to cache:"@ + shown_hash(hash@));
                }
                s
            },
            SwapResult::CacheMiss { hash, lockfile } => {
                let mut before = "cache miss for ".to_owned();
                before.append(lockfile.as_str());
                before.append(" (hash:");
                around_hash(before.as_str(), hash.as_str(), ")")
            },
            SwapResult::NoLockfile => "no lockfile found".to_owned(),
            SwapResult::AlreadyCurrent { hash } => around_hash(
                "already current (",
                hash.as_str(),
                ")",
            ),
            SwapResult::StaleRemoved { hash } => around_hash(
                "removed stale node_modules (hash:",
                hash.as_str(),
                ")",
            ),
        }
    }
}

// ── What is asked for, and what comes back ───────────────────────────────────────────────
/// What a job asks for.
#[derive(Debug, PartialEq, Eq)]
pub enum Action {
    /// Say whether this is a file.
    IsFile(Location),
    /// Read this file.
    ReadFile(Location),
    /// Say what is found at a place, without following a link there, and whether a link there
    /// leads to the target.
    Inspect { at: Location, target: Location },
    /// Mark this cache entry as used now.
    MarkUsed(Location),
    /// Remove this link.
    RemoveLink(Location),
    /// Remove this directory and everything in it.
    RemoveTree(Location),
    /// Say whether this is a directory.
    IsDirectory(Location),
    /// Say whether there is anything here.
    Exists(Location),
    /// Create this directory, and those above it.
    CreateDirectory(Location),
    /// Move a directory.
    Rename { from: Location, to: Location },
    /// Write this text into a file.
    WriteText { at: Location, contents: String },
    /// Create a link.
    MakeLink { at: Location, target: Location },
    /// The swap is done.
    Swapped(SwapResult),
    /// The dependencies are in the cache, under this key.
    Stashed(String),
    /// The job failed.
    Fail(Fault),
}

/// What a job asks for, in characters.
pub enum ActionView {
    IsFile(Place),
    ReadFile(Place),
    Inspect { at: Place, target: Place },
    MarkUsed(Place),
    RemoveLink(Place),
    RemoveTree(Place),
    IsDirectory(Place),
    Exists(Place),
    CreateDirectory(Place),
    Rename { from: Place, to: Place },
    WriteText { at: Place, contents: Seq<char> },
    MakeLink { at: Place, target: Place },
    Swapped(ResultView),
    Stashed(Seq<char>),
    Fail(Fault),
}

impl View for Action {
    type V = ActionView;

    open spec fn view(&self) -> ActionView {
        match self {
            Action::IsFile(p) => ActionView::IsFile(p@),
            Action::ReadFile(p) => ActionView::ReadFile(p@),
            Action::Inspect { at, target } => ActionView::Inspect { at: at@, target: target@ },
            Action::MarkUsed(p) => ActionView::MarkUsed(p@),
            Action::RemoveLink(p) => ActionView::RemoveLink(p@),
            Action::RemoveTree(p) => ActionView::RemoveTree(p@),
            Action::IsDirectory(p) => ActionView::IsDirectory(p@),
            Action::Exists(p) => ActionView::Exists(p@),
            Action::CreateDirectory(p) => ActionView::CreateDirectory(p@),
            Action::Rename { from, to } => ActionView::Rename { from: from@, to: to@ },
            Action::WriteText { at, contents } => ActionView::WriteText {
                at: at@,
                contents: contents@,
            },
            Action::MakeLink { at, target } => ActionView::MakeLink { at: at@, target: target@ },
            Action::Swapped(r) => ActionView::Swapped(r@),
            Action::Stashed(key) => ActionView::Stashed(key@),
            Action::Fail(fault) => ActionView::Fail(*fault),
        }
    }
}

/// Why a job failed.
#[derive(Debug, Clone, Copy, PartialEq, Eq, Structural)]
pub enum Fault {
    /// There is no lockfile, and so no key to stash under.
    NoLockfile,
    /// The lockfile could not be read.
    ReadLockfile,
    /// `node_modules` is not a real directory: there is nothing to stash.
    NothingToStash,
    /// The old link could not be removed.
    RemoveLink,
    /// The stale `node_modules` could not be removed.
    RemoveTree,
    /// The link to the cached dependencies could not be created.
    MakeLink,
    /// The cache entry could not be marked as used.
    MarkUsed,
    /// The cache entry could not be created.
    CreateEntry,
    /// `node_modules` could not be moved into the cache.
    Move,
    /// The metadata of the cache entry could not be written.
    WriteMetadata,
    /// The job is already over.
    Over,
}

/// What is found at a place.
#[derive(Debug, Clone, Copy, PartialEq, Eq, Structural)]
pub enum Found {
    Nothing,
    /// A link, to the target that was asked for or to something else.
    Link { to_target: bool },
    Directory,
    /// Something that is neither a link nor a directory.
    Other,
}

/// How an action went.
#[derive(Debug, PartialEq, Eq)]
pub enum Event {
    /// The answer to a question.
    Answer(bool),
    /// The contents of a file.
    Contents(Vec<u8>),
    /// What was found.
    Found(Found),
    /// It was done.
    Succeeded,
    /// It could not be done.
    Failed,
}

/// How an action went, in bytes.
pub enum EventView {
    Answer(bool),
    Contents(Seq<u8>),
    Found(Found),
    Succeeded,
    Failed,
}

impl View for Event {
    type V = EventView;

    open spec fn view(&self) -> EventView {
        match self {
            Event::Answer(b) => EventView::Answer(*b),
            Event::Contents(bytes) => EventView::Contents(bytes@),
            Event::Found(found) => EventView::Found(*found),
            Event::Succeeded => EventView::Succeeded,
            Event::Failed => EventView::Failed,
        }
    }
}

// ── The job ──────────────────────────────────────────────────────────────────────────────
/// The two jobs.
#[derive(Debug, Clone, Copy, PartialEq, Eq, Structural)]
pub enum Operation {
    /// Make `node_modules` what the lockfile asks for.
    Swap,
    /// Move a `node_modules` that was just installed into the cache.
    Stash,
}

/// What a job waits for.
#[derive(Debug, Clone, Copy, PartialEq, Eq, Structural)]
pub enum Step {
    /// Whether this one of the lockfiles is there.
    Probe(usize),
    /// The contents of the lockfile.
    Read,
    /// What `node_modules` is.
    Inspect,
    /// Whether the dependencies that `node_modules` links to are still there.
    ProbeCurrent,
    /// The removal of a link to dependencies that are gone.
    RemoveDangling,
    /// The mark on the cache entry that is current.
    MarkCurrent,
    /// The removal of the old link.
    RemoveLink,
    /// The removal of the stale directory.
    RemoveTree,
    /// Whether the dependencies are cached.
    ProbeCache,
    /// The link to the cached dependencies.
    Link,
    /// The mark on the cache entry that was swapped in.
    MarkSwapped,
    /// Whether the dependencies are in the cache already.
    ProbeStash,
    /// The new cache entry.
    CreateEntry,
    /// The move into the cache.
    Move,
    /// The record of the full hash.
    WriteHash,
    /// The record of the name of the lockfile.
    WriteName,
    /// The mark on the new cache entry.
    MarkStashed,
    /// The link back from the repository.
    LinkBack,
    /// Nothing more.
    Over,
}

/// A job under way: what it waits for, and the lockfile's name and full hash as far as they are
/// known.
#[derive(Debug)]
pub struct Job {
    pub operation: Operation,
    pub step: Step,
    pub name: String,
    pub hash: String,
}

/// A job under way in characters.
pub struct JobView {
    pub operation: Operation,
    pub step: Step,
    pub name: Seq<char>,
    pub hash: Seq<char>,
}

impl View for Job {
    type V = JobView;

    open spec fn view(&self) -> JobView {
        JobView {
            operation: self.operation,
            step: self.step,
            name: self.name@,
            hash: self.hash@,
        }
    }
}

impl JobView {
    /// The part of the hash that names the cache entry.
    pub open spec fn key(self) -> Seq<char> {
        self.hash.take(hashing::KEY_LEN as int)
    }

    /// Whether the hash is there once the lockfile was read: enough characters, all of them
    /// ASCII.
    pub open spec fn wf(self) -> bool {
        match self.step {
            Step::Probe(_) => true,
            Step::Read => true,
            Step::Over => true,
            _ => self.hash.len() >= hashing::KEY_LEN && vstd::utf8::is_ascii_chars(self.hash),
        }
    }
}

/// A job at its start.
pub open spec fn job_begins(operation: Operation) -> (JobView, ActionView) {
    (
        JobView { operation, step: Step::Probe(0), name: Seq::empty(), hash: Seq::empty() },
        ActionView::IsFile(in_repo(lockfiles()[0])),
    )
}

/// A job that waits for something else now.
pub open spec fn waits(job: JobView, step: Step, action: ActionView) -> (JobView, ActionView) {
    (JobView { step, ..job }, action)
}

/// A job that is over.
pub open spec fn ends(job: JobView, action: ActionView) -> (JobView, ActionView) {
    (JobView { step: Step::Over, ..job }, action)
}

/// A job that goes on where something was done, and fails otherwise.
pub open spec fn goes_on(
    job: JobView,
    event: EventView,
    fault: Fault,
    next: (JobView, ActionView),
) -> (JobView, ActionView) {
    if event is Succeeded {
        next
    } else {
        ends(job, ActionView::Fail(fault))
    }
}

/// A swap that ends as the dependencies are not cached.
pub open spec fn misses(job: JobView) -> (JobView, ActionView) {
    ends(
        job,
        ActionView::Swapped(ResultView::CacheMiss { hash: job.key(), lockfile: job.name }),
    )
}

/// A job that asks whether the dependencies are cached.
pub open spec fn probes_cache(job: JobView) -> (JobView, ActionView) {
    waits(job, Step::ProbeCache, ActionView::IsDirectory(cached_deps(job.key())))
}

/// What a job does next. An event that does not answer what it waits for counts as a failure,
/// or as the answer no.
pub open spec fn job_step(job: JobView, event: EventView) -> (JobView, ActionView) {
    let key = job.key();
    match job.step {
        Step::Probe(i) => if event == EventView::Answer(true) && i < lockfiles().len() {
            waits(
                JobView { name: lockfiles()[i as int], ..job },
                Step::Read,
                ActionView::ReadFile(in_repo(lockfiles()[i as int])),
            )
        } else if i + 1 < lockfiles().len() {
            waits(
                job,
                Step::Probe((i + 1) as usize),
                ActionView::IsFile(in_repo(lockfiles()[i + 1])),
            )
        } else if job.operation == Operation::Swap {
            ends(job, ActionView::Swapped(ResultView::NoLockfile))
        } else {
            ends(job, ActionView::Fail(Fault::NoLockfile))
        },
        Step::Read => match event {
            EventView::Contents(bytes) => waits(
                JobView { hash: hashing::content_hash(bytes), ..job },
                Step::Inspect,
                ActionView::Inspect {
                    at: dep_dir(),
                    target: cached_deps(hashing::content_key(bytes)),
                },
            ),
            _ => ends(job, ActionView::Fail(Fault::ReadLockfile)),
        },
        Step::Inspect => match job.operation {
            Operation::Swap => match event {
                EventView::Found(Found::Link { to_target: true }) => waits(
                    job,
                    Step::ProbeCurrent,
                    ActionView::IsDirectory(cached_deps(key)),
                ),
                EventView::Found(Found::Link { to_target: false }) => waits(
                    job,
                    Step::RemoveLink,
                    ActionView::RemoveLink(dep_dir()),
                ),
                EventView::Found(Found::Nothing) => probes_cache(job),
                EventView::Found(_) => waits(
                    job,
                    Step::RemoveTree,
                    ActionView::RemoveTree(dep_dir()),
                ),
                _ => probes_cache(job),
            },
            Operation::Stash => if event == EventView::Found(Found::Directory) {
                waits(job, Step::ProbeStash, ActionView::Exists(cached_deps(key)))
            } else {
                ends(job, ActionView::Fail(Fault::NothingToStash))
            },
        },
        Step::ProbeCurrent => if event == EventView::Answer(true) {
            waits(job, Step::MarkCurrent, ActionView::MarkUsed(entry(key)))
        } else {
            waits(job, Step::RemoveDangling, ActionView::RemoveLink(dep_dir()))
        },
        Step::RemoveDangling => goes_on(job, event, Fault::RemoveLink, misses(job)),
        Step::MarkCurrent => goes_on(
            job,
            event,
            Fault::MarkUsed,
            ends(job, ActionView::Swapped(ResultView::AlreadyCurrent { hash: key })),
        ),
        Step::RemoveLink => goes_on(job, event, Fault::RemoveLink, probes_cache(job)),
        Step::RemoveTree => goes_on(job, event, Fault::RemoveTree, probes_cache(job)),
        Step::ProbeCache => if event == EventView::Answer(true) {
            waits(
                job,
                Step::Link,
                ActionView::MakeLink { at: dep_dir(), target: cached_deps(key) },
            )
        } else {
            misses(job)
        },
        Step::Link => goes_on(
            job,
            event,
            Fault::MakeLink,
            waits(job, Step::MarkSwapped, ActionView::MarkUsed(entry(key))),
        ),
        Step::MarkSwapped => goes_on(
            job,
            event,
            Fault::MarkUsed,
            ends(
                job,
                ActionView::Swapped(ResultView::Swapped { hash: key, cache_path: entry(key) }),
            ),
        ),
        Step::ProbeStash => if event == EventView::Answer(true) {
            ends(job, ActionView::Stashed(key))
        } else {
            waits(job, Step::CreateEntry, ActionView::CreateDirectory(entry(key)))
        },
        Step::CreateEntry => goes_on(
            job,
            event,
            Fault::CreateEntry,
            waits(
                job,
                Step::Move,
                ActionView::Rename { from: dep_dir(), to: cached_deps(key) },
            ),
        ),
        Step::Move => goes_on(
            job,
            event,
            Fault::Move,
            waits(
                job,
                Step::WriteHash,
                ActionView::WriteText {
                    at: in_entry(key, ".lockfile_hash"@),
                    contents: job.hash,
                },
            ),
        ),
        Step::WriteHash => goes_on(
            job,
            event,
            Fault::WriteMetadata,
            waits(
                job,
                Step::WriteName,
                ActionView::WriteText {
                    at: in_entry(key, ".lockfile_name"@),
                    contents: job.name,
                },
            ),
        ),
        Step::WriteName => goes_on(
            job,
            event,
            Fault::WriteMetadata,
            waits(job, Step::MarkStashed, ActionView::MarkUsed(entry(key))),
        ),
        Step::MarkStashed => goes_on(
            job,
            event,
            Fault::MarkUsed,
            waits(
                job,
                Step::LinkBack,
                ActionView::MakeLink { at: dep_dir(), target: cached_deps(key) },
            ),
        ),
        Step::LinkBack => goes_on(
            job,
            event,
            Fault::MakeLink,
            ends(job, ActionView::Stashed(key)),
        ),
        Step::Over => ends(job, ActionView::Fail(Fault::Over)),
    }
}

impl Job {
    /// Begins a job.
    fn begin(operation: Operation) -> (r: (Job, Action))
        ensures
            (r.0@, r.1@) == job_begins(operation),
            r.0@.wf(),
    {
        let job = Job {
            operation,
            step: Step::Probe(0),
            name: String::new(),
            hash: String::new(),
        };
        proof {
            assert(job.name@ =~= Seq::empty());
            assert(job.hash@ =~= Seq::empty());
        }
        (job, Action::IsFile(repo_location("package-lock.json")))
    }

    /// Ends the job.
    fn end(&mut self, action: Action) -> (r: Action)
        ensures
            (final(self)@, r@) == ends(old(self)@, action@),
    {
        self.step = Step::Over;
        action
    }

    /// The part of the hash that names the cache entry.
    fn key(&self) -> (r: String)
        requires
            self.hash@.len() >= hashing::KEY_LEN,
        ensures
            r@ == self@.key(),
    {
        hashing::short_key(self.hash.as_str())
    }

    /// Asks whether the dependencies are cached.
    fn probe_cache(&mut self) -> (r: Action)
        requires
            old(self).hash@.len() >= hashing::KEY_LEN,
        ensures
            (final(self)@, r@) == probes_cache(old(self)@),
    {
        self.step = Step::ProbeCache;
        Action::IsDirectory(in_entry_location(self.key().as_str(), "node_modules"))
    }

    /// Looks for the next lockfile, or reads the one that was found.
    fn probed(&mut self, i: usize, found: bool) -> (r: Action)
        requires
            old(self)@.step == Step::Probe(i),
        ensures
            (final(self)@, r@) == job_step(old(self)@, EventView::Answer(found)),
            final(self)@.wf(),
    {
        if found {
            if let Some(name) = lockfile_at(i) {
                let at = repo_location(name.as_str());
                self.step = Step::Read;
                self.name = name;
                return Action::ReadFile(at);
            }
        }
        if i < 3 {
            if let Some(name) = lockfile_at(i + 1) {
                self.step = Step::Probe(i + 1);
                return Action::IsFile(repo_location(name.as_str()));
            }
        }
        match self.operation {
            Operation::Swap => self.end(Action::Swapped(SwapResult::NoLockfile)),
            Operation::Stash => self.end(Action::Fail(Fault::NoLockfile)),
        }
    }

    /// Decides by what `node_modules` is.
    fn inspected(&mut self, found: Option<Found>) -> (r: Action)
        requires
            old(self)@.step == Step::Inspect,
            old(self)@.wf(),
        ensures
            found matches Some(f) ==> (final(self)@, r@) == job_step(
                old(self)@,
                EventView::Found(f),
            ),
            found is None ==> (final(self)@, r@) == job_step(old(self)@, EventView::Failed),
            final(self)@.wf(),
    {
        let key = self.key();
        match self.operation {
            Operation::Swap => match found {
                Some(Found::Link { to_target: true }) => {
                    self.step = Step::ProbeCurrent;
                    Action::IsDirectory(in_entry_location(key.as_str(), "node_modules"))
                },
                Some(Found::Link { to_target: false }) => {
                    self.step = Step::RemoveLink;
                    Action::RemoveLink(repo_location("node_modules"))
                },
                Some(Found::Directory) | Some(Found::Other) => {
                    self.step = Step::RemoveTree;
                    Action::RemoveTree(repo_location("node_modules"))
                },
                Some(Found::Nothing) | None => self.probe_cache(),
            },
            Operation::Stash => match found {
                Some(Found::Directory) => {
                    self.step = Step::ProbeStash;
                    Action::Exists(in_entry_location(key.as_str(), "node_modules"))
                },
                _ => self.end(Action::Fail(Fault::NothingToStash)),
            },
        }
    }

    /// Goes on after something was done.
    fn succeeded(&mut self) -> (r: Action)
        requires
            old(self)@.wf(),
        ensures
            (final(self)@, r@) == job_step(old(self)@, EventView::Succeeded),
            final(self)@.wf(),
    {
        match self.step {
            Step::Probe(i) => self.probed(i, false),
            Step::Read => self.end(Action::Fail(Fault::ReadLockfile)),
            Step::Inspect => self.inspected(None),
            Step::ProbeCurrent => self.current_probed(false),
            Step::RemoveDangling => self.miss(),
            Step::MarkCurrent => {
                let hash = self.key();
                self.end(Action::Swapped(SwapResult::AlreadyCurrent { hash }))
            },
            Step::RemoveLink => self.probe_cache(),
            Step::RemoveTree => self.probe_cache(),
            Step::ProbeCache => self.cache_probed(false),
            Step::Link => {
                self.step = Step::MarkSwapped;
                Action::MarkUsed(entry_location(self.key().as_str()))
            },
            Step::MarkSwapped => {
                let hash = self.key();
                let cache_path = entry_location(hash.as_str());
                self.end(Action::Swapped(SwapResult::Swapped { hash, cache_path }))
            },
            Step::ProbeStash => self.stash_probed(false),
            Step::CreateEntry => {
                self.step = Step::Move;
                Action::Rename {
                    from: repo_location("node_modules"),
                    to: in_entry_location(self.key().as_str(), "node_modules"),
                }
            },
            Step::Move => {
                self.step = Step::WriteHash;
                Action::WriteText {
                    at: in_entry_location(self.key().as_str(), ".lockfile_hash"),
                    contents: self.hash.clone(),
                }
            },
            Step::WriteHash => {
                self.step = Step::WriteName;
                Action::WriteText {
                    at: in_entry_location(self.key().as_str(), ".lockfile_name"),
                    contents: self.name.clone(),
                }
            },
            Step::WriteName => {
                self.step = Step::MarkStashed;
                Action::MarkUsed(entry_location(self.key().as_str()))
            },
            Step::MarkStashed => {
                self.step = Step::LinkBack;
                Action::MakeLink {
                    at: repo_location("node_modules"),
                    target: in_entry_location(self.key().as_str(), "node_modules"),
                }
            },
            Step::LinkBack => {
                let key = self.key();
                self.end(Action::Stashed(key))
            },
            Step::Over => self.end(Action::Fail(Fault::Over)),
        }
    }

    /// Decides by whether the dependencies are cached.
    fn cache_probed(&mut self, cached: bool) -> (r: Action)
        requires
            old(self)@.step == Step::ProbeCache,
            old(self)@.wf(),
        ensures
            (final(self)@, r@) == job_step(old(self)@, EventView::Answer(cached)),
            final(self)@.wf(),
    {
        let hash = self.key();
        if cached {
            self.step = Step::Link;
            Action::MakeLink {
                at: repo_location("node_modules"),
                target: in_entry_location(hash.as_str(), "node_modules"),
            }
        } else {
            self.miss()
        }
    }

    /// Ends the swap, as the dependencies are not cached.
    fn miss(&mut self) -> (r: Action)
        requires
            old(self).hash@.len() >= hashing::KEY_LEN,
        ensures
            (final(self)@, r@) == misses(old(self)@),
    {
        let hash = self.key();
        let lockfile = self.name.clone();
        self.end(Action::Swapped(SwapResult::CacheMiss { hash, lockfile }))
    }

    /// Decides by whether the dependencies that `node_modules` links to are still there.
    fn current_probed(&mut self, there: bool) -> (r: Action)
        requires
            old(self)@.step == Step::ProbeCurrent,
            old(self)@.wf(),
        ensures
            (final(self)@, r@) == job_step(old(self)@, EventView::Answer(there)),
            final(self)@.wf(),
    {
        if there {
            self.step = Step::MarkCurrent;
            Action::MarkUsed(entry_location(self.key().as_str()))
        } else {
            self.step = Step::RemoveDangling;
            Action::RemoveLink(repo_location("node_modules"))
        }
    }

    /// Decides by whether the dependencies are in the cache already.
    fn stash_probed(&mut self, cached: bool) -> (r: Action)
        requires
            old(self)@.step == Step::ProbeStash,
            old(self)@.wf(),
        ensures
            (final(self)@, r@) == job_step(old(self)@, EventView::Answer(cached)),
            final(self)@.wf(),
    {
        let key = self.key();
        if cached {
            self.end(Action::Stashed(key))
        } else {
            self.step = Step::CreateEntry;
            Action::CreateDirectory(entry_location(key.as_str()))
        }
    }

    /// Goes on after something could not be done.
    fn failed(&mut self) -> (r: Action)
        requires
            old(self)@.wf(),
        ensures
            (final(self)@, r@) == job_step(old(self)@, EventView::Failed),
            final(self)@.wf(),
    {
        let fault = match self.step {
            Step::Probe(i) => return self.probed(i, false),
            Step::Inspect => return self.inspected(None),
            Step::ProbeCurrent => return self.current_probed(false),
            Step::ProbeCache => return self.cache_probed(false),
            Step::ProbeStash => return self.stash_probed(false),
            Step::Read => Fault::ReadLockfile,
            Step::MarkCurrent | Step::MarkSwapped | Step::MarkStashed => Fault::MarkUsed,
            Step::RemoveLink | Step::RemoveDangling => Fault::RemoveLink,
            Step::RemoveTree => Fault::RemoveTree,
            Step::Link | Step::LinkBack => Fault::MakeLink,
            Step::CreateEntry => Fault::CreateEntry,
            Step::Move => Fault::Move,
            Step::WriteHash | Step::WriteName => Fault::WriteMetadata,
            Step::Over => Fault::Over,
        };
        self.end(Action::Fail(fault))
    }

    /// Handles how the last action went, and says what to do next.
    pub fn handle(&mut self, event: Event) -> (r: Action)
        requires
            old(self)@.wf(),
        ensures
            (final(self)@, r@) == job_step(old(self)@, event@),
            final(self)@.wf(),
            r@ matches ActionView::Swapped(result) ==> can_be_shown(result),
    {
        proof {
            law_outcome_can_be_shown(old(self)@, event@);
        }
        match event {
            Event::Answer(yes) => match self.step {
                Step::Probe(i) => self.probed(i, yes),
                Step::ProbeCurrent => self.current_probed(yes),
                Step::ProbeCache => self.cache_probed(yes),
                Step::ProbeStash => self.stash_probed(yes),
                _ => self.failed(),
            },
            Event::Contents(bytes) => match self.step {
                Step::Read => {
                    self.hash = hashing::hash_file(bytes.as_slice());
                    proof {
                        hashing::lemma_hash_is_ascii(bytes@);
                    }
                    self.step = Step::Inspect;
                    Action::Inspect {
                        at: repo_location("node_modules"),
                        target: in_entry_location(self.key().as_str(), "node_modules"),
                    }
                },
                _ => self.failed(),
            },
            Event::Found(found) => match self.step {
                Step::Inspect => self.inspected(Some(found)),
                _ => self.failed(),
            },
            Event::Succeeded => self.succeeded(),
            Event::Failed => self.failed(),
        }
    }
}

/// Every outcome of a job can be shown, and its hash is shown in full.
pub proof fn law_outcome_can_be_shown(job: JobView, event: EventView)
    requires
        job.wf(),
    ensures
        job_step(job, event).1 matches ActionView::Swapped(result) ==> {
            &&& can_be_shown(result)
            &&& result matches ResultView::Swapped { hash, .. } ==> shown_hash(hash) == hash
            &&& result matches ResultView::CacheMiss { hash, .. } ==> shown_hash(hash) == hash
            &&& result matches ResultView::AlreadyCurrent { hash } ==> shown_hash(hash) == hash
        },
{
    if job.hash.len() >= hashing::KEY_LEN && vstd::utf8::is_ascii_chars(job.hash) {
        let key = job.key();
        assert(key.len() == 16);
        assert(vstd::utf8::is_ascii_chars(key));
        text::lemma_ascii_prefix(key, 16);
        assert(key.take(16) =~= key);
    }
}

/// Begins a dependency swap for the current state of the lockfile.
pub fn swap() -> (r: (Job, Action))
    ensures
        (r.0@, r.1@) == job_begins(Operation::Swap),
        r.0@.wf(),
{
    Job::begin(Operation::Swap)
}

/// Begins to move a real `node_modules` into the cache, after an install.
pub fn stash_after_install() -> (r: (Job, Action))
    ensures
        (r.0@, r.1@) == job_begins(Operation::Stash),
        r.0@.wf(),
{
    Job::begin(Operation::Stash)
}

// ── What a job promises ──────────────────────────────────────────────────────────────────
/// Where things are: `node_modules` and the lockfiles in the root of the repository, and a cache
/// entry under its key in `cache` in the home directory of git-warp.
pub proof fn law_places(key: Seq<char>, name: Seq<char>)
    ensures
        dep_dir() == (Place { base: Base::Repo, parts: seq!["node_modules"@] }),
        in_repo(name) == (Place { base: Base::Repo, parts: seq![name] }),
        entry(key) == (Place { base: Base::WarpHome, parts: seq!["cache"@, key] }),
        in_entry(key, name) == (Place { base: Base::WarpHome, parts: seq!["cache"@, key, name] }),
        cached_deps(key) == in_entry(key, "node_modules"@),
{
}

/// The lockfiles that are looked for, in their order.
pub proof fn law_lockfiles()
    ensures
        lockfiles().len() == 4,
        lockfiles()[0] == "package-lock.json"@,
        lockfiles()[1] == "yarn.lock"@,
        lockfiles()[2] == "pnpm-lock.yaml"@,
        lockfiles()[3] == "bun.lockb"@,
{
}

/// The view of a path keeps its root and its components.
pub proof fn law_location_view(at: Location, i: int)
    ensures
        at.root == Root::Repo ==> at@.base is Repo,
        at.root == Root::WarpHome ==> at@.base is WarpHome,
        at@.parts.len() == at.parts@.len(),
        0 <= i < at.parts@.len() ==> at@.parts[i] == at.parts@[i]@,
{
}

/// The views of actions, events, outcomes and jobs keep what they hold.
pub proof fn law_job_views(
    p: Location,
    q: Location,
    s: String,
    t: String,
    r: SwapResult,
    bytes: Vec<u8>,
    job: Job,
)
    ensures
        Action::IsFile(p)@ == ActionView::IsFile(p@),
        Action::ReadFile(p)@ == ActionView::ReadFile(p@),
        (Action::Inspect { at: p, target: q })@ == (ActionView::Inspect { at: p@, target: q@ }),
        Action::MarkUsed(p)@ == ActionView::MarkUsed(p@),
        Action::RemoveLink(p)@ == ActionView::RemoveLink(p@),
        Action::RemoveTree(p)@ == ActionView::RemoveTree(p@),
        Action::IsDirectory(p)@ == ActionView::IsDirectory(p@),
        Action::Exists(p)@ == ActionView::Exists(p@),
        Action::CreateDirectory(p)@ == ActionView::CreateDirectory(p@),
        (Action::Rename { from: p, to: q })@ == (ActionView::Rename { from: p@, to: q@ }),
        (Action::WriteText { at: p, contents: s })@ == (ActionView::WriteText {
            at: p@,
            contents: s@,
        }),
        (Action::MakeLink { at: p, target: q })@ == (ActionView::MakeLink { at: p@, target: q@ }),
        Action::Swapped(r)@ == ActionView::Swapped(r@),
        Action::Stashed(s)@ == ActionView::Stashed(s@),
        forall|f: Fault| (#[trigger] Action::Fail(f)@) == ActionView::Fail(f),
        (SwapResult::Swapped { hash: s, cache_path: p })@ == (ResultView::Swapped {
            hash: s@,
            cache_path: p@,
        }),
        (SwapResult::CacheMiss { hash: s, lockfile: t })@ == (ResultView::CacheMiss {
            hash: s@,
            lockfile: t@,
        }),
        SwapResult::NoLockfile@ is NoLockfile,
        (SwapResult::AlreadyCurrent { hash: s })@ == (ResultView::AlreadyCurrent { hash: s@ }),
        (SwapResult::StaleRemoved { hash: s })@ == (ResultView::StaleRemoved { hash: s@ }),
        Event::Answer(true)@ == EventView::Answer(true),
        Event::Answer(false)@ == EventView::Answer(false),
        Event::Contents(bytes)@ == EventView::Contents(bytes@),
        forall|f: Found| (#[trigger] Event::Found(f)@) == EventView::Found(f),
        Event::Succeeded@ is Succeeded,
        Event::Failed@ is Failed,
        job@.operation == job.operation,
        job@.step == job.step,
        job@.name == job.name@,
        job@.hash == job.hash@,
{
}

/// An outcome is shown with the first 16 bytes of its hash.
pub proof fn law_result_text(
    shown: Seq<char>,
    hidden: Seq<char>,
    cache_path: Place,
    lockfile: Seq<char>,
)
    requires
        vstd::utf8::encode_utf8(shown).len() == 16,
    ensures
        ({
            let hash = shown + hidden;
            let swapped = ResultView::Swapped { hash, cache_path };
            let miss = ResultView::CacheMiss { hash, lockfile };
            let current = ResultView::AlreadyCurrent { hash };
            let stale = ResultView::StaleRemoved { hash };
            &&& can_be_shown(swapped) && can_be_shown(miss)
            &&& can_be_shown(current) && can_be_shown(stale)
            &&& result_text(swapped) == "swapped to cache:"@ + shown
            &&& result_text(miss) == "cache miss for "@ + lockfile + " (hash:"@ + shown + ")"@
            &&& result_text(current) == "already current ("@ + shown + ")"@
            &&& result_text(stale) == "removed stale node_modules (hash:"@ + shown + ")"@
        }),
        can_be_shown(ResultView::NoLockfile),
        result_text(ResultView::NoLockfile) == "no lockfile found"@,
{
    text::lemma_first_bytes(shown, hidden);
}

/// A job looks for the lockfiles one after the other, and reads the first that is there. Without
/// one, there is nothing to swap, and a stash fails.
pub proof fn law_job_looks_for_a_lockfile(operation: Operation, job: JobView, i: usize)
    ensures
        ({
            let names = seq![
                "package-lock.json"@,
                "yarn.lock"@,
                "pnpm-lock.yaml"@,
                "bun.lockb"@,
            ];
            let probing = JobView { step: Step::Probe(i), ..job };
            let over = JobView { step: Step::Over, ..job };
            let (begun, first) = job_begins(operation);
            &&& begun.operation == operation && begun.step == Step::Probe(0)
            &&& begun.name.len() == 0 && begun.hash.len() == 0
            &&& first == ActionView::IsFile(Place { base: Base::Repo, parts: seq![names[0]] })
            &&& i < 4 ==> job_step(probing, EventView::Answer(true)) == (
                JobView { step: Step::Read, name: names[i as int], ..job },
                ActionView::ReadFile(Place { base: Base::Repo, parts: seq![names[i as int]] }),
            )
            &&& forall|event: EventView|
                i >= 4 || event != EventView::Answer(true) ==> #[trigger] job_step(
                    probing,
                    event,
                ) == if i < 3 {
                    (
                        JobView { step: Step::Probe((i + 1) as usize), ..job },
                        ActionView::IsFile(Place { base: Base::Repo, parts: seq![names[i + 1]] }),
                    )
                } else if job.operation == Operation::Swap {
                    (over, ActionView::Swapped(ResultView::NoLockfile))
                } else {
                    (over, ActionView::Fail(Fault::NoLockfile))
                }
        }),
{
}

/// A job hashes all that was read of the lockfile, and looks at `node_modules` and whether it
/// links to the cache entry that the first 16 digits name. A lockfile that cannot be read ends it.
pub proof fn law_job_hashes_the_lockfile(job: JobView, bytes: Seq<u8>, event: EventView)
    ensures
        ({
            let reading = JobView { step: Step::Read, ..job };
            let (after, action) = job_step(reading, EventView::Contents(bytes));
            &&& after == JobView {
                step: Step::Inspect,
                hash: hashing::content_hash(bytes),
                ..job
            }
            &&& action == ActionView::Inspect {
                at: Place { base: Base::Repo, parts: seq!["node_modules"@] },
                target: Place {
                    base: Base::WarpHome,
                    parts: seq![
                        "cache"@,
                        hashing::content_hash(bytes).take(16),
                        "node_modules"@,
                    ],
                },
            }
            &&& !(event is Contents) ==> job_step(reading, event) == (
                JobView { step: Step::Over, ..job },
                ActionView::Fail(Fault::ReadLockfile),
            )
        }),
{
}

/// What a swap does, event by event. A link to the right entry is checked, marked and left, or
/// removed where the dependencies are gone. Any other link is removed, and so is anything else
/// in the place. The dependencies that are cached are linked to and marked, and else missed.
pub proof fn law_swap_steps(job: JobView, event: EventView)
    ensures
        ({
            let key = job.hash.take(16);
            let at = Place { base: Base::Repo, parts: seq!["node_modules"@] };
            let entry_at = Place { base: Base::WarpHome, parts: seq!["cache"@, key] };
            let deps = Place { base: Base::WarpHome, parts: seq!["cache"@, key, "node_modules"@] };
            let over = JobView { step: Step::Over, ..job };
            let miss = (
                over,
                ActionView::Swapped(ResultView::CacheMiss { hash: key, lockfile: job.name }),
            );
            let looks = (
                JobView { step: Step::ProbeCache, ..job },
                ActionView::IsDirectory(deps),
            );
            let done = event is Succeeded;
            &&& job.operation == Operation::Swap ==> job_step(
                JobView { step: Step::Inspect, ..job },
                event,
            ) == match event {
                EventView::Found(Found::Link { to_target: true }) => (
                    JobView { step: Step::ProbeCurrent, ..job },
                    ActionView::IsDirectory(deps),
                ),
                EventView::Found(Found::Link { to_target: false }) => (
                    JobView { step: Step::RemoveLink, ..job },
                    ActionView::RemoveLink(at),
                ),
                EventView::Found(Found::Directory) => (
                    JobView { step: Step::RemoveTree, ..job },
                    ActionView::RemoveTree(at),
                ),
                EventView::Found(Found::Other) => (
                    JobView { step: Step::RemoveTree, ..job },
                    ActionView::RemoveTree(at),
                ),
                _ => looks,
            }
            &&& job_step(JobView { step: Step::ProbeCurrent, ..job }, event) == if event
                == EventView::Answer(true) {
                (JobView { step: Step::MarkCurrent, ..job }, ActionView::MarkUsed(entry_at))
            } else {
                (JobView { step: Step::RemoveDangling, ..job }, ActionView::RemoveLink(at))
            }
            &&& job_step(JobView { step: Step::RemoveDangling, ..job }, event) == if done {
                miss
            } else {
                (over, ActionView::Fail(Fault::RemoveLink))
            }
            &&& job_step(JobView { step: Step::MarkCurrent, ..job }, event) == if done {
                (over, ActionView::Swapped(ResultView::AlreadyCurrent { hash: key }))
            } else {
                (over, ActionView::Fail(Fault::MarkUsed))
            }
            &&& job_step(JobView { step: Step::RemoveLink, ..job }, event) == if done {
                looks
            } else {
                (over, ActionView::Fail(Fault::RemoveLink))
            }
            &&& job_step(JobView { step: Step::RemoveTree, ..job }, event) == if done {
                looks
            } else {
                (over, ActionView::Fail(Fault::RemoveTree))
            }
            &&& job_step(JobView { step: Step::ProbeCache, ..job }, event) == if event
                == EventView::Answer(true) {
                (
                    JobView { step: Step::Link, ..job },
                    ActionView::MakeLink { at, target: deps },
                )
            } else {
                miss
            }
            &&& job_step(JobView { step: Step::Link, ..job }, event) == if done {
                (JobView { step: Step::MarkSwapped, ..job }, ActionView::MarkUsed(entry_at))
            } else {
                (over, ActionView::Fail(Fault::MakeLink))
            }
            &&& job_step(JobView { step: Step::MarkSwapped, ..job }, event) == if done {
                (
                    over,
                    ActionView::Swapped(
                        ResultView::Swapped { hash: key, cache_path: entry_at },
                    ),
                )
            } else {
                (over, ActionView::Fail(Fault::MarkUsed))
            }
        }),
{
}

/// What a stash does, event by event: only a real directory is stashed, and only where the cache
/// does not have it yet. The entry is created, the directory moved, the full hash and the name of
/// the lockfile recorded, the entry marked, and a link put in the place of the directory.
pub proof fn law_stash_steps(job: JobView, event: EventView)
    ensures
        ({
            let key = job.hash.take(16);
            let at = Place { base: Base::Repo, parts: seq!["node_modules"@] };
            let entry_at = Place { base: Base::WarpHome, parts: seq!["cache"@, key] };
            let deps = Place { base: Base::WarpHome, parts: seq!["cache"@, key, "node_modules"@] };
            let hash_at = Place {
                base: Base::WarpHome,
                parts: seq!["cache"@, key, ".lockfile_hash"@],
            };
            let name_at = Place {
                base: Base::WarpHome,
                parts: seq!["cache"@, key, ".lockfile_name"@],
            };
            let over = JobView { step: Step::Over, ..job };
            let done = event is Succeeded;
            &&& job.operation == Operation::Stash ==> job_step(
                JobView { step: Step::Inspect, ..job },
                event,
            ) == if event == EventView::Found(Found::Directory) {
                (JobView { step: Step::ProbeStash, ..job }, ActionView::Exists(deps))
            } else {
                (over, ActionView::Fail(Fault::NothingToStash))
            }
            &&& job_step(JobView { step: Step::ProbeStash, ..job }, event) == if event
                == EventView::Answer(true) {
                (over, ActionView::Stashed(key))
            } else {
                (
                    JobView { step: Step::CreateEntry, ..job },
                    ActionView::CreateDirectory(entry_at),
                )
            }
            &&& job_step(JobView { step: Step::CreateEntry, ..job }, event) == if done {
                (
                    JobView { step: Step::Move, ..job },
                    ActionView::Rename { from: at, to: deps },
                )
            } else {
                (over, ActionView::Fail(Fault::CreateEntry))
            }
            &&& job_step(JobView { step: Step::Move, ..job }, event) == if done {
                (
                    JobView { step: Step::WriteHash, ..job },
                    ActionView::WriteText { at: hash_at, contents: job.hash },
                )
            } else {
                (over, ActionView::Fail(Fault::Move))
            }
            &&& job_step(JobView { step: Step::WriteHash, ..job }, event) == if done {
                (
                    JobView { step: Step::WriteName, ..job },
                    ActionView::WriteText { at: name_at, contents: job.name },
                )
            } else {
                (over, ActionView::Fail(Fault::WriteMetadata))
            }
            &&& job_step(JobView { step: Step::WriteName, ..job }, event) == if done {
                (JobView { step: Step::MarkStashed, ..job }, ActionView::MarkUsed(entry_at))
            } else {
                (over, ActionView::Fail(Fault::WriteMetadata))
            }
            &&& job_step(JobView { step: Step::MarkStashed, ..job }, event) == if done {
                (
                    JobView { step: Step::LinkBack, ..job },
                    ActionView::MakeLink { at, target: deps },
                )
            } else {
                (over, ActionView::Fail(Fault::MarkUsed))
            }
            &&& job_step(JobView { step: Step::LinkBack, ..job }, event) == if done {
                (over, ActionView::Stashed(key))
            } else {
                (over, ActionView::Fail(Fault::MakeLink))
            }
        }),
{
}

/// A job that is over stays over.
pub proof fn law_over_is_over(job: JobView, event: EventView)
    requires
        job.step == Step::Over,
    ensures
        job_step(job, event) == (job, ActionView::Fail(Fault::Over)),
{
}

} // verus!
