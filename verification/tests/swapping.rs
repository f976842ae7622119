//! Swapping and stashing dependencies, on files in memory.

use git_warp::hashing::{hash_file, short_key};
use git_warp::symlink_manager::{
    lockfile_at, stash_after_install, swap, Action, Event, Fault, Found, Job, Location, Root,
    SwapResult,
};
use std::collections::BTreeMap;

#[derive(Debug, Clone, PartialEq)]
enum Node {
    File(Vec<u8>),
    Directory,
    Link(String),
}

/// Files by their paths.
#[derive(Debug, Clone, PartialEq)]
struct Disk {
    nodes: BTreeMap<String, Node>,
}

fn path(at: &Location) -> String {
    let root = match at.root {
        Root::Repo => "repo",
        Root::WarpHome => "warp",
    };
    let mut s = root.to_string();
    for part in &at.parts {
        s.push('/');
        s.push_str(part);
    }
    s
}

fn parent(p: &str) -> String {
    match p.rfind('/') {
        Some(i) => p[..i].to_string(),
        None => String::new(),
    }
}

impl Disk {
    fn new() -> Disk {
        let mut nodes = BTreeMap::new();
        for dir in ["repo", "warp", "warp/cache"] {
            nodes.insert(dir.to_string(), Node::Directory);
        }
        Disk { nodes }
    }

    fn with_lockfile(name: &str, content: &str) -> Disk {
        let mut disk = Disk::new();
        disk.put(&format!("repo/{}", name), content);
        disk
    }

    fn put(&mut self, p: &str, content: &str) {
        self.nodes
            .insert(p.to_string(), Node::File(content.as_bytes().to_vec()));
    }

    fn install(&mut self, file: &str, content: &str) {
        self.nodes
            .insert("repo/node_modules".to_string(), Node::Directory);
        self.put(&format!("repo/node_modules/{}", file), content);
    }

    fn mkdir(&mut self, p: &str) {
        self.nodes.insert(p.to_string(), Node::Directory);
    }

    fn link(&mut self, p: &str, to: &str) {
        self.nodes.insert(p.to_string(), Node::Link(to.to_string()));
    }

    /// Where a path leads to.
    fn leads_to(&self, p: &str) -> String {
        for (from, node) in &self.nodes {
            if let Node::Link(to) = node {
                if p == from || p.starts_with(&format!("{}/", from)) {
                    return self.leads_to(&format!("{}{}", to, &p[from.len()..]));
                }
            }
        }
        p.to_string()
    }

    /// Where a path leads to, without following a link at its end.
    fn spot(&self, p: &str) -> String {
        match p.rfind('/') {
            Some(i) => format!("{}{}", self.leads_to(&p[..i]), &p[i..]),
            None => p.to_string(),
        }
    }

    /// Whether something new can be put at a place.
    fn vacant(&self, p: &str) -> bool {
        self.nodes.get(&parent(p)) == Some(&Node::Directory) && !self.nodes.contains_key(p)
    }

    /// What is at a path, through links on the way.
    fn resolve(&self, p: &str) -> Option<Node> {
        self.nodes.get(&self.leads_to(p)).cloned()
    }

    fn text(&self, p: &str) -> Option<String> {
        match self.resolve(p) {
            Some(Node::File(bytes)) => Some(String::from_utf8(bytes).unwrap()),
            _ => None,
        }
    }

    /// Creates a directory and those above it.
    fn create(&mut self, p: &str) -> bool {
        if self.resolve(p) == Some(Node::Directory) {
            return true;
        }
        if !self.create(&parent(p)) {
            return false;
        }
        let q = self.spot(p);
        let vacant = self.vacant(&q);
        if vacant {
            self.mkdir(&q);
        }
        vacant
    }

    fn write(&mut self, p: &str, content: &str) -> Event {
        let p = self.leads_to(p);
        let file = self.nodes.get(&p).map_or(true, |n| matches!(n, Node::File(_)));
        if file && self.nodes.get(&parent(&p)) == Some(&Node::Directory) {
            self.put(&p, content);
            Event::Succeeded
        } else {
            Event::Failed
        }
    }

    fn perform(&mut self, action: &Action, mark: &str) -> Event {
        match action {
            Action::IsFile(at) => {
                Event::Answer(matches!(self.resolve(&path(at)), Some(Node::File(_))))
            }
            Action::ReadFile(at) => match self.resolve(&path(at)) {
                Some(Node::File(bytes)) => Event::Contents(bytes),
                _ => Event::Failed,
            },
            Action::Inspect { at, target } => Event::Found(match self.nodes.get(&path(at)) {
                None => Found::Nothing,
                Some(Node::Link(to)) => Found::Link {
                    to_target: *to == path(target),
                },
                Some(Node::Directory) => Found::Directory,
                Some(Node::File(_)) => Found::Other,
            }),
            Action::MarkUsed(entry) => self.write(&format!("{}/.last_used", path(entry)), mark),
            Action::RemoveLink(at) => {
                self.nodes.remove(&path(at));
                Event::Succeeded
            }
            Action::RemoveTree(at) => {
                let base = path(at);
                if self.nodes.get(&base) != Some(&Node::Directory) {
                    return Event::Failed;
                }
                let below = format!("{}/", base);
                self.nodes.retain(|p, _| *p != base && !p.starts_with(&below));
                Event::Succeeded
            }
            Action::IsDirectory(at) => {
                Event::Answer(self.resolve(&path(at)) == Some(Node::Directory))
            }
            Action::Exists(at) => Event::Answer(self.resolve(&path(at)).is_some()),
            Action::CreateDirectory(at) => {
                if self.create(&path(at)) {
                    Event::Succeeded
                } else {
                    Event::Failed
                }
            }
            Action::Rename { from, to } => {
                let (from, to) = (self.spot(&path(from)), self.spot(&path(to)));
                if !self.vacant(&to) {
                    return Event::Failed;
                }
                let below = format!("{}/", from);
                let moved: Vec<String> = self
                    .nodes
                    .keys()
                    .filter(|p| **p == from || p.starts_with(&below))
                    .cloned()
                    .collect();
                for p in moved {
                    let node = self.nodes.remove(&p).unwrap();
                    self.nodes.insert(format!("{}{}", to, &p[from.len()..]), node);
                }
                Event::Succeeded
            }
            Action::WriteText { at, contents } => self.write(&path(at), contents),
            Action::MakeLink { at, target } => {
                if self.nodes.contains_key(&path(at)) {
                    return Event::Failed;
                }
                self.nodes.insert(path(at), Node::Link(path(target)));
                Event::Succeeded
            }
            Action::Swapped(_) | Action::Stashed(_) | Action::Fail(_) => panic!("{:?}", action),
        }
    }

    fn drive(&mut self, begun: (Job, Action), mark: &str) -> Action {
        let (mut job, mut action) = begun;
        loop {
            match action {
                Action::Swapped(_) | Action::Stashed(_) | Action::Fail(_) => return action,
                _ => {}
            }
            let event = self.perform(&action, mark);
            action = job.handle(event);
        }
    }

    fn swap(&mut self) -> SwapResult {
        match self.drive(swap(), "now") {
            Action::Swapped(result) => result,
            other => panic!("{:?}", other),
        }
    }

    fn stash(&mut self) -> String {
        match self.drive(stash_after_install(), "now") {
            Action::Stashed(key) => key,
            other => panic!("{:?}", other),
        }
    }
}

const KEY_1: &str = "c3aa9744214caf6e";
const HASH_1: &str = "c3aa9744214caf6eb993d6f88f3f1dda3e4e60d59f712b6463c4ce2c4b00dfa1";
const KEY_2: &str = "0899eaeee76dcfdd";

/// The lockfile that a job settles on.
fn detected(disk: &Disk) -> Option<String> {
    let (mut job, mut action) = swap();
    loop {
        match &action {
            Action::IsFile(at) => {
                let event = Event::Answer(matches!(disk.resolve(&path(at)), Some(Node::File(_))));
                action = job.handle(event);
            }
            Action::ReadFile(at) => return Some(at.parts[0].clone()),
            Action::Swapped(SwapResult::NoLockfile) => return None,
            other => panic!("{:?}", other),
        }
    }
}

// ── Lockfile detection ───────────────────────────────────────────────────────────────────

#[test]
fn detect_package_lock() {
    let repo = Disk::with_lockfile("package-lock.json", "{}");
    assert_eq!(detected(&repo).unwrap(), "package-lock.json");
}

#[test]
fn detect_yarn_lock() {
    let repo = Disk::with_lockfile("yarn.lock", "# yarn lockfile v1");
    assert_eq!(detected(&repo).unwrap(), "yarn.lock");
}

#[test]
fn detect_pnpm_lock() {
    let repo = Disk::with_lockfile("pnpm-lock.yaml", "lockfileVersion: 5.4");
    assert_eq!(detected(&repo).unwrap(), "pnpm-lock.yaml");
}

#[test]
fn detect_bun_lock() {
    let repo = Disk::with_lockfile("bun.lockb", "x");
    assert_eq!(detected(&repo).unwrap(), "bun.lockb");
}

#[test]
fn detect_priority_npm_over_yarn() {
    let mut repo = Disk::with_lockfile("package-lock.json", "{}");
    repo.put("repo/yarn.lock", "# yarn");
    assert_eq!(detected(&repo).unwrap(), "package-lock.json");
}

#[test]
fn detect_no_lockfile() {
    assert!(detected(&Disk::new()).is_none());
}

#[test]
fn lockfiles_in_their_order() {
    let names: Vec<String> = (0..5).filter_map(lockfile_at).collect();
    assert_eq!(
        names,
        vec!["package-lock.json", "yarn.lock", "pnpm-lock.yaml", "bun.lockb"]
    );
    assert!(lockfile_at(4).is_none());
}

// ── File hashing ─────────────────────────────────────────────────────────────────────────

#[test]
fn hash_produces_consistent_results() {
    let h1 = hash_file("test content".as_bytes());
    let h2 = hash_file("test content".as_bytes());
    assert_eq!(h1, h2);
    assert_eq!(h1.len(), 64);
    assert_eq!(
        h1,
        "6ae8a75555209fd6c44157c0aed8016e763ff435a19cf186f76863140143ff72"
    );
}

#[test]
fn hash_differs_for_different_content() {
    let h1 = hash_file("content A".as_bytes());
    let h2 = hash_file("content B".as_bytes());
    assert_ne!(h1, h2);
}

#[test]
fn hash_of_known_bytes() {
    let hash = hash_file(b"abc");
    assert_eq!(
        hash,
        "ba7816bf8f01cfea414140de5dae2223b00361a396177a9cb410ff61f20015ad"
    );
    assert_eq!(short_key(&hash), "ba7816bf8f01cfea");
}

// ── Full swap flow ───────────────────────────────────────────────────────────────────────

#[test]
fn swap_no_lockfile() {
    let mut disk = Disk::new();
    let before = disk.clone();
    let result = disk.swap();
    assert!(matches!(result, SwapResult::NoLockfile));
    assert_eq!(disk, before);
}

#[test]
fn swap_cache_miss() {
    let mut disk = Disk::with_lockfile("package-lock.json", "{\"version\": 1}");
    let result = disk.swap();
    assert!(matches!(result, SwapResult::CacheMiss { .. }));
    assert_eq!(
        result,
        SwapResult::CacheMiss {
            hash: KEY_1.to_string(),
            lockfile: "package-lock.json".to_string()
        }
    );
}

#[test]
fn swap_removes_stale_real_dir_then_cache_miss() {
    let mut disk = Disk::with_lockfile("package-lock.json", "{\"version\": 1}");
    disk.install("marker.txt", "hello");

    let result = disk.swap();
    assert!(matches!(result, SwapResult::CacheMiss { .. }));
    assert!(disk.resolve("repo/node_modules").is_none());
    assert!(disk.resolve("repo/node_modules/marker.txt").is_none());
}

#[test]
fn swap_already_current() {
    let mut disk = Disk::with_lockfile("package-lock.json", "{\"version\": 1}");
    disk.install("marker.txt", "hello");
    assert_eq!(disk.stash(), KEY_1);

    let result = disk.swap();
    assert!(matches!(result, SwapResult::AlreadyCurrent { .. }));
    assert_eq!(
        result,
        SwapResult::AlreadyCurrent {
            hash: KEY_1.to_string()
        }
    );
}

#[test]
fn swap_switches_between_hashes() {
    let mut disk = Disk::with_lockfile("package-lock.json", "{\"version\": 1}");
    disk.install("version.txt", "v1");
    disk.stash();

    // Another lockfile: a miss, since nothing was installed for it.
    disk.put("repo/package-lock.json", "{\"version\": 2}");
    let r2 = disk.swap();
    assert!(matches!(r2, SwapResult::CacheMiss { .. }));

    // The first lockfile again.
    disk.put("repo/package-lock.json", "{\"version\": 1}");
    let r3 = disk.swap();
    assert!(matches!(r3, SwapResult::Swapped { .. }));
    assert_eq!(disk.text("repo/node_modules/version.txt").unwrap(), "v1");
}

#[test]
fn swap_between_two_stashed_trees() {
    let mut disk = Disk::with_lockfile("yarn.lock", "{\"version\": 1}");
    disk.install("version.txt", "v1");
    assert_eq!(disk.stash(), KEY_1);
    disk.put("repo/yarn.lock", "{\"version\": 2}");
    assert!(matches!(disk.swap(), SwapResult::CacheMiss { .. }));
    disk.install("version.txt", "v2");
    assert_eq!(disk.stash(), KEY_2);

    for (content, version, key) in [
        ("{\"version\": 1}", "v1", KEY_1),
        ("{\"version\": 2}", "v2", KEY_2),
        ("{\"version\": 1}", "v1", KEY_1),
    ] {
        disk.put("repo/yarn.lock", content);
        assert_eq!(
            disk.swap(),
            SwapResult::Swapped {
                hash: key.to_string(),
                cache_path: Location {
                    root: Root::WarpHome,
                    parts: vec!["cache".to_string(), key.to_string()]
                }
            }
        );
        assert_eq!(disk.text("repo/node_modules/version.txt").unwrap(), version);
        assert!(matches!(disk.swap(), SwapResult::AlreadyCurrent { .. }));
    }
}

#[test]
fn swap_and_stash_change_little() {
    let mut disk = Disk::with_lockfile("yarn.lock", "{\"version\": 1}");
    disk.put("repo/index.js", "code");
    disk.nodes.insert("warp/cache/other".to_string(), Node::Directory);
    disk.put("warp/cache/other/.last_used", "before");
    let others = |disk: &Disk| {
        let mut nodes = disk.nodes.clone();
        nodes.retain(|p, _| !p.starts_with("repo/node_modules") && !p.contains(KEY_1));
        nodes
    };
    let before = others(&disk);
    disk.install("a.js", "x");
    disk.stash();
    assert_eq!(others(&disk), before);

    let mark = format!("warp/cache/{}/.last_used", KEY_1);
    let mut cached = disk.nodes.clone();
    cached.remove(&mark);
    disk.drive(swap(), "later");
    assert_eq!(disk.text(&mark).unwrap(), "later");
    let mut after = disk.nodes.clone();
    after.remove(&mark);
    assert_eq!(after, cached);

    disk.put("repo/yarn.lock", "{\"version\": 2}");
    disk.swap();
    disk.put("repo/yarn.lock", "{\"version\": 1}");
    assert_eq!(others(&disk), before);
    assert_eq!(disk.text(&format!("warp/cache/{}/node_modules/a.js", KEY_1)).unwrap(), "x");
}

#[test]
fn stash_writes_metadata() {
    let mut disk = Disk::with_lockfile("pnpm-lock.yaml", "{\"version\": 1}");
    disk.install("a.js", "x");
    disk.stash();
    let entry = format!("warp/cache/{}", KEY_1);
    assert_eq!(disk.text(&format!("{}/.lockfile_hash", entry)).unwrap(), HASH_1);
    assert_eq!(
        disk.text(&format!("{}/.lockfile_name", entry)).unwrap(),
        "pnpm-lock.yaml"
    );
    assert_eq!(disk.text(&format!("{}/.last_used", entry)).unwrap(), "now");
    assert_eq!(
        disk.nodes.get("repo/node_modules"),
        Some(&Node::Link(format!("{}/node_modules", entry)))
    );
    assert_eq!(disk.text("repo/node_modules/a.js").unwrap(), "x");
}

#[test]
fn stash_keeps_what_is_cached() {
    let mut disk = Disk::with_lockfile("yarn.lock", "{\"version\": 1}");
    disk.install("version.txt", "first");
    disk.stash();
    disk.nodes.remove("repo/node_modules");
    disk.install("version.txt", "second");
    let before = disk.clone();
    assert_eq!(disk.stash(), KEY_1);
    assert_eq!(disk, before);
}

#[test]
fn same_lockfile_shares_one_entry() {
    let mut disk = Disk::with_lockfile("yarn.lock", "{\"version\": 1}");
    disk.install("version.txt", "v1");
    disk.stash();
    disk.nodes.remove("repo/yarn.lock");
    disk.nodes.remove("repo/node_modules");
    disk.put("repo/bun.lockb", "{\"version\": 1}");
    assert!(matches!(disk.swap(), SwapResult::Swapped { .. }));
    assert_eq!(disk.text("repo/node_modules/version.txt").unwrap(), "v1");
}

#[test]
fn stash_needs_a_lockfile_and_a_real_directory() {
    let mut disk = Disk::new();
    disk.install("a", "b");
    assert_eq!(
        disk.drive(stash_after_install(), "now"),
        Action::Fail(Fault::NoLockfile)
    );
    let mut disk = Disk::with_lockfile("yarn.lock", "x");
    assert_eq!(
        disk.drive(stash_after_install(), "now"),
        Action::Fail(Fault::NothingToStash)
    );
    disk.nodes.insert(
        "repo/node_modules".to_string(),
        Node::Link("elsewhere".to_string()),
    );
    assert_eq!(
        disk.drive(stash_after_install(), "now"),
        Action::Fail(Fault::NothingToStash)
    );
}

#[test]
fn swap_fails_where_node_modules_is_a_file() {
    let mut disk = Disk::with_lockfile("yarn.lock", "x");
    disk.put("repo/node_modules", "a file");
    assert_eq!(disk.drive(swap(), "now"), Action::Fail(Fault::RemoveTree));
}

#[test]
fn swap_misses_where_the_entry_is_gone() {
    for gone in [
        format!("warp/cache/{}", KEY_1),
        format!("warp/cache/{}/node_modules", KEY_1),
    ] {
        let mut disk = Disk::with_lockfile("yarn.lock", "{\"version\": 1}");
        disk.install("a", "b");
        disk.stash();
        disk.nodes.retain(|p, _| !p.starts_with(&gone));
        assert_eq!(
            disk.swap(),
            SwapResult::CacheMiss {
                hash: KEY_1.to_string(),
                lockfile: "yarn.lock".to_string()
            }
        );
        assert!(!disk.nodes.contains_key("repo/node_modules"));
        // Another install and stash put everything in place again.
        disk.install("a", "c");
        assert_eq!(disk.stash(), KEY_1);
        assert!(matches!(disk.swap(), SwapResult::AlreadyCurrent { .. }));
    }
}

#[test]
fn cache_directory_may_be_a_link() {
    let mut disk = Disk::with_lockfile("package-lock.json", "{\"version\": 1}");
    disk.mkdir("disk");
    disk.mkdir("disk/cache");
    disk.link("warp/cache", "disk/cache");
    disk.install("marker.txt", "hello");
    assert_eq!(disk.stash(), KEY_1);
    let tree = format!("disk/cache/{}", KEY_1);
    assert_eq!(
        disk.nodes.get(&format!("{}/node_modules/marker.txt", tree)),
        Some(&Node::File(b"hello".to_vec()))
    );
    assert_eq!(disk.text(&format!("{}/.lockfile_hash", tree)).unwrap(), HASH_1);
    assert_eq!(disk.text("repo/node_modules/marker.txt").unwrap(), "hello");
    let result = disk.swap();
    assert_eq!(result, SwapResult::AlreadyCurrent { hash: KEY_1.to_string() });
    disk.put("repo/package-lock.json", "{\"version\": 2}");
    assert!(matches!(disk.swap(), SwapResult::CacheMiss { .. }));
    disk.put("repo/package-lock.json", "{\"version\": 1}");
    assert!(matches!(disk.swap(), SwapResult::Swapped { .. }));
    assert_eq!(disk.text("repo/node_modules/marker.txt").unwrap(), "hello");
}

#[test]
fn cache_entry_may_be_a_link() {
    let mut disk = Disk::with_lockfile("package-lock.json", "{\"version\": 1}");
    disk.mkdir("disk");
    disk.mkdir("disk/entry");
    disk.link(&format!("warp/cache/{}", KEY_1), "disk/entry");
    disk.install("marker.txt", "hello");
    assert_eq!(disk.stash(), KEY_1);
    assert_eq!(disk.text("disk/entry/node_modules/marker.txt").unwrap(), "hello");
    assert_eq!(disk.text("disk/entry/.last_used").unwrap(), "now");
    assert!(matches!(disk.swap(), SwapResult::AlreadyCurrent { .. }));
}

#[test]
fn another_lockfile_with_the_same_contents_is_current() {
    let mut disk = Disk::with_lockfile("package-lock.json", "{\"version\": 1}");
    disk.install("marker.txt", "hello");
    disk.stash();
    disk.nodes.remove("repo/package-lock.json");
    disk.put("repo/yarn.lock", "{\"version\": 1}");
    assert_eq!(
        disk.swap(),
        SwapResult::AlreadyCurrent { hash: KEY_1.to_string() }
    );
}

#[test]
fn stash_fails_at_what_is_in_its_way() {
    let entry = format!("warp/cache/{}", KEY_1);
    let cases: [(&str, Node, Fault); 6] = [
        ("", Node::File(Vec::new()), Fault::CreateEntry),
        ("", Node::Link("gone/entry".to_string()), Fault::CreateEntry),
        ("/node_modules", Node::Link("gone/tree".to_string()), Fault::Move),
        ("/.lockfile_hash", Node::Directory, Fault::WriteMetadata),
        ("/.lockfile_name", Node::Directory, Fault::WriteMetadata),
        ("/.last_used", Node::Link("gone/mark".to_string()), Fault::MarkUsed),
    ];
    for (name, node, fault) in cases {
        let mut disk = Disk::with_lockfile("package-lock.json", "{\"version\": 1}");
        disk.install("marker.txt", "hello");
        if !name.is_empty() {
            disk.mkdir(&entry);
        }
        disk.nodes.insert(format!("{}{}", entry, name), node);
        match disk.drive(stash_after_install(), "now") {
            Action::Fail(f) => assert_eq!(f, fault),
            other => panic!("{:?}", other),
        }
        let stays = matches!(fault, Fault::CreateEntry | Fault::Move);
        assert_eq!(disk.text("repo/node_modules/marker.txt").is_some(), stays);
    }
}

#[test]
fn lockfile_may_be_a_link() {
    let mut disk = Disk::new();
    disk.put("repo/locks", "{\"version\": 1}");
    disk.nodes.insert("repo/chain".to_string(), Node::Link("repo/locks".to_string()));
    disk.nodes.insert("repo/yarn.lock".to_string(), Node::Link("repo/chain".to_string()));
    disk.install("a", "b");
    assert_eq!(disk.stash(), KEY_1);
    assert!(matches!(disk.swap(), SwapResult::AlreadyCurrent { .. }));
    assert!(matches!(disk.swap(), SwapResult::AlreadyCurrent { .. }));
}

/// A job with the answers that it gets, up to its last action.
fn told(begun: (Job, Action), events: Vec<Event>) -> Action {
    let (mut job, mut action) = begun;
    for event in events {
        action = job.handle(event);
    }
    action
}

fn to_inspection() -> Vec<Event> {
    vec![Event::Answer(true), Event::Contents(b"x".to_vec())]
}

#[test]
fn every_failure_is_told() {
    let failing = |mut events: Vec<Event>, swapping: bool| {
        events.push(Event::Failed);
        told(if swapping { swap() } else { stash_after_install() }, events)
    };
    let found = |f: Found, more: Vec<Event>| {
        let mut events = to_inspection();
        events.push(Event::Found(f));
        events.extend(more);
        events
    };
    let to_target = Found::Link { to_target: true };
    let other_link = Found::Link { to_target: false };

    assert_eq!(failing(vec![Event::Answer(true)], true), Action::Fail(Fault::ReadLockfile));
    let there = |yes: bool| vec![Event::Answer(yes)];
    assert_eq!(failing(found(to_target, there(true)), true), Action::Fail(Fault::MarkUsed));
    assert_eq!(failing(found(to_target, there(false)), true), Action::Fail(Fault::RemoveLink));
    assert_eq!(failing(found(other_link, vec![]), true), Action::Fail(Fault::RemoveLink));
    assert_eq!(failing(found(Found::Directory, vec![]), true), Action::Fail(Fault::RemoveTree));
    assert_eq!(failing(found(Found::Other, vec![]), true), Action::Fail(Fault::RemoveTree));
    let cached = || vec![Event::Answer(true)];
    assert_eq!(failing(found(Found::Nothing, cached()), true), Action::Fail(Fault::MakeLink));
    let linked = || vec![Event::Answer(true), Event::Succeeded];
    assert_eq!(failing(found(Found::Nothing, linked()), true), Action::Fail(Fault::MarkUsed));

    let stashing = |done: usize| {
        let mut events = vec![Event::Answer(false)];
        for _ in 0..done {
            events.push(Event::Succeeded);
        }
        failing(found(Found::Directory, events), false)
    };
    assert_eq!(stashing(0), Action::Fail(Fault::CreateEntry));
    assert_eq!(stashing(1), Action::Fail(Fault::Move));
    assert_eq!(stashing(2), Action::Fail(Fault::WriteMetadata));
    assert_eq!(stashing(3), Action::Fail(Fault::WriteMetadata));
    assert_eq!(stashing(4), Action::Fail(Fault::MarkUsed));
    assert_eq!(stashing(5), Action::Fail(Fault::MakeLink));
}

#[test]
fn job_that_is_over_stays_over() {
    let (mut job, _) = swap();
    for _ in 0..4 {
        job.handle(Event::Answer(false));
    }
    assert_eq!(job.handle(Event::Succeeded), Action::Fail(Fault::Over));
    assert_eq!(job.handle(Event::Answer(true)), Action::Fail(Fault::Over));
}

#[test]
fn outcomes_on_one_line() {
    let hash = KEY_1.to_string();
    let place = Location {
        root: Root::WarpHome,
        parts: vec![],
    };
    assert_eq!(
        SwapResult::Swapped { hash: hash.clone(), cache_path: place }.display(),
        "swapped to cache:c3aa9744214caf6e"
    );
    assert_eq!(
        SwapResult::CacheMiss { hash: hash.clone(), lockfile: "yarn.lock".to_string() }.display(),
        "cache miss for yarn.lock (hash:c3aa9744214caf6e)"
    );
    assert_eq!(SwapResult::NoLockfile.display(), "no lockfile found");
    assert_eq!(
        SwapResult::AlreadyCurrent { hash: HASH_1.to_string() }.display(),
        "already current (c3aa9744214caf6e)"
    );
    assert_eq!(
        SwapResult::StaleRemoved { hash }.display(),
        "removed stale node_modules (hash:c3aa9744214caf6e)"
    );
}
