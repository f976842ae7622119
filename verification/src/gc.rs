//! Garbage collection of the dependency cache, the shadow volumes and the rewritten compose
//! files.
//!
//! A pass looks at one item after the other. For each of them a `visit_` function counts it and
//! says what to do; where that is to remove something, the matching `_removed` function counts
//! how that went.

use crate::text;
use crate::timestamp;
use crate::timestamp::Timestamp;
use vstd::prelude::*;

verus! {

// ── Sizes ────────────────────────────────────────────────────────────────────────────────
/// The quotient `a / b` rounded to the nearest integer, and to the even one of two that are
/// equally near.
pub open spec fn half_even(a: nat, b: nat) -> nat {
    let q = a / b;
    let r = a % b;
    if 2 * r > b || (2 * r == b && q % 2 == 1) {
        q + 1
    } else {
        q
    }
}

/// The distance of the doubles around `n`: 1 up to 53 bits, and twice as much for each bit
/// beyond.
pub open spec fn double_step(n: nat) -> nat
    decreases n,
{
    if n < 0x20_0000_0000_0000 {
        1
    } else {
        2 * double_step(n / 2)
    }
}

/// The double that is nearest to `n`.
pub open spec fn nearest_double(n: nat) -> nat {
    half_even(n, double_step(n)) * double_step(n)
}

/// A number of tenths as a decimal fraction.
pub open spec fn tenths_text(tenths: nat) -> Seq<char> {
    text::decimal_text(tenths / 10) + "."@ + text::decimal_text(tenths % 10)
}

/// A size in units of `unit` bytes, to one decimal place, as a double gives it.
pub open spec fn size_in(bytes: nat, unit: nat) -> Seq<char> {
    tenths_text(half_even(nearest_double(bytes) * 10, unit))
}

/// A size for people to read.
pub open spec fn size_text(bytes: nat) -> Seq<char> {
    if bytes >= 0x4000_0000 {
        size_in(bytes, 0x4000_0000) + " GB"@
    } else if bytes >= 0x10_0000 {
        size_in(bytes, 0x10_0000) + " MB"@
    } else if bytes >= 0x400 {
        size_in(bytes, 0x400) + " KB"@
    } else {
        text::decimal_text(bytes) + " B"@
    }
}

/// Divides and rounds to the nearest integer, and to the even one of two that are equally near.
fn divide_half_even(a: u128, b: u128) -> (r: u128)
    requires
        0 < b < 0x1_0000_0000_0000_0000,
        a < 0x1000_0000_0000_0000_0000,
    ensures
        r == half_even(a as nat, b as nat),
{
    let q: u128 = a / b;
    let rest: u128 = a % b;
    assert(q <= a) by (nonlinear_arith)
        requires
            q == a / b,
            b > 0,
    ;
    if 2 * rest > b || (2 * rest == b && q % 2 == 1) {
        q + 1
    } else {
        q
    }
}

/// The distance of the doubles around `n`.
fn step_of_doubles(n: u64) -> (r: u128)
    ensures
        r == double_step(n as nat),
        1 <= r,
        r <= n || r == 1,
    decreases n,
{
    if n < 0x20_0000_0000_0000 {
        1
    } else {
        2 * step_of_doubles(n / 2)
    }
}

/// A size in units of `unit` bytes, to one decimal place.
fn show_size(bytes: u64, unit: u64) -> (r: String)
    requires
        0x400 <= unit,
    ensures
        r@ == size_in(bytes as nat, unit as nat),
{
    let step = step_of_doubles(bytes);
    let count = divide_half_even(bytes as u128, step);
    let ghost b = bytes as nat;
    let ghost s = step as nat;
    assert(count * step <= 2 * b + 1) by {
        assert((b / s) * s <= b && 2 * (b % s) <= 2 * b) by (nonlinear_arith)
            requires
                s > 0,
                b >= 0,
        ;
        assert(s <= b || s == 1);
        assert((b / s + 1) * s == (b / s) * s + s) by (nonlinear_arith);
        if s == 1 {
            assert(b % 1 == 0);
        }
    }
    assert(count as nat * s == nearest_double(b));
    let double: u128 = count * step;
    let tenths = divide_half_even(double * 10, unit as u128);
    assert((double * 10) / (unit as int) <= (double * 10) / 0x400) by (nonlinear_arith)
        requires
            0x400 <= unit,
    ;
    let mut out = text::decimal((tenths / 10) as u64);
    out.append(".");
    out.append(text::decimal((tenths % 10) as u64).as_str());
    out
}

/// Formats a number of bytes for people to read.
pub fn human_bytes(bytes: u64) -> (r: String)
    ensures
        r@ == size_text(bytes as nat),
{
    if bytes >= 0x4000_0000 {
        let mut s = show_size(bytes, 0x4000_0000);
        s.append(" GB");
        s
    } else if bytes >= 0x10_0000 {
        let mut s = show_size(bytes, 0x10_0000);
        s.append(" MB");
        s
    } else if bytes >= 0x400 {
        let mut s = show_size(bytes, 0x400);
        s.append(" KB");
        s
    } else {
        let mut s = text::decimal(bytes);
        s.append(" B");
        s
    }
}

/// The sizes of files in a directory tree.
#[derive(Debug)]
pub enum FileTree {
    /// A file of so many bytes.
    File(u64),
    /// A directory with these things in it.
    Directory(Vec<FileTree>),
}

/// The total size of the files in a tree.
pub open spec fn tree_size(t: FileTree) -> nat
    decreases t, 0nat,
{
    match t {
        FileTree::File(bytes) => bytes as nat,
        FileTree::Directory(items) => trees_size(items@),
    }
}

/// The total size of the files in some trees.
pub open spec fn trees_size(items: Seq<FileTree>) -> nat
    decreases items, items.len(),
{
    if items.len() == 0 {
        0
    } else {
        trees_size(items.drop_last()) + tree_size(items.last())
    }
}

proof fn lemma_part_is_smaller(items: Seq<FileTree>, k: int)
    requires
        0 <= k <= items.len(),
    ensures
        trees_size(items.take(k)) <= trees_size(items),
    decreases items.len(),
{
    if k < items.len() {
        assert(items.drop_last().take(k) =~= items.take(k));
        lemma_part_is_smaller(items.drop_last(), k);
    } else {
        assert(items.take(k) =~= items);
    }
}

/// Computes the total size in bytes of the files in a tree. `None` where it is beyond the
/// largest `u64`.
pub fn dir_size_bytes(tree: &FileTree) -> (r: Option<u64>)
    ensures
        match r {
            Some(bytes) => bytes == tree_size(*tree),
            None => tree_size(*tree) > u64::MAX,
        },
    decreases tree,
{
    match tree {
        FileTree::File(bytes) => Some(*bytes),
        FileTree::Directory(items) => {
            let mut total: u64 = 0;
            let mut i: usize = 0;
            while i < items.len()
                invariant
                    i <= items@.len(),
                    total == trees_size(items@.take(i as int)),
                    *tree == FileTree::Directory(*items),
                decreases items@.len() - i,
            {
                assert(items@.take(i + 1).drop_last() =~= items@.take(i as int));
                proof {
                    lemma_part_is_smaller(items@, i + 1);
                }
                assert(decreases_to!(*tree => tree->Directory_0@[i as int]));
                let size = match dir_size_bytes(&items[i]) {
                    Some(size) => size,
                    None => return None,
                };
                if size > u64::MAX - total {
                    return None;
                }
                total = total + size;
                i = i + 1;
            }
            assert(items@.take(i as int) =~= items@);
            Some(total)
        },
    }
}

// ── Statistics ───────────────────────────────────────────────────────────────────────────
/// Statistics of a pass.
#[derive(Debug, Clone, Copy, PartialEq, Eq, Structural)]
pub struct GcStats {
    /// Cache entries scanned.
    pub cache_scanned: usize,
    /// Cache entries evicted.
    pub cache_evicted: usize,
    /// Bytes freed from cache eviction.
    pub cache_bytes_freed: u64,
    /// Docker shadow volumes scanned.
    pub volumes_scanned: usize,
    /// Docker shadow volumes removed.
    pub volumes_removed: usize,
    /// Rewritten compose files removed.
    pub compose_files_removed: usize,
    /// Items skipped, as they are in use or cannot be handled.
    pub skipped: usize,
}

/// The statistics of a pass as numbers without a limit.
pub struct Counts {
    pub cache_scanned: nat,
    pub cache_evicted: nat,
    pub cache_bytes_freed: nat,
    pub volumes_scanned: nat,
    pub volumes_removed: nat,
    pub compose_files_removed: nat,
    pub skipped: nat,
}

impl View for GcStats {
    type V = Counts;

    open spec fn view(&self) -> Counts {
        Counts {
            cache_scanned: self.cache_scanned as nat,
            cache_evicted: self.cache_evicted as nat,
            cache_bytes_freed: self.cache_bytes_freed as nat,
            volumes_scanned: self.volumes_scanned as nat,
            volumes_removed: self.volumes_removed as nat,
            compose_files_removed: self.compose_files_removed as nat,
            skipped: self.skipped as nat,
        }
    }
}

/// The statistics before anything was looked at.
pub open spec fn no_counts() -> Counts {
    Counts {
        cache_scanned: 0,
        cache_evicted: 0,
        cache_bytes_freed: 0,
        volumes_scanned: 0,
        volumes_removed: 0,
        compose_files_removed: 0,
        skipped: 0,
    }
}

/// Whether every count can grow by one.
pub open spec fn room(c: Counts) -> bool {
    &&& c.cache_scanned < usize::MAX
    &&& c.cache_evicted < usize::MAX
    &&& c.volumes_scanned < usize::MAX
    &&& c.volumes_removed < usize::MAX
    &&& c.compose_files_removed < usize::MAX
    &&& c.skipped < usize::MAX
}

/// The statistics on one line.
pub open spec fn counts_text(c: Counts) -> Seq<char> {
    "cache: "@ + text::decimal_text(c.cache_evicted) + "/"@ + text::decimal_text(c.cache_scanned)
        + " evicted ("@ + size_text(c.cache_bytes_freed) + " freed) | volumes: "@
        + text::decimal_text(c.volumes_removed) + "/"@ + text::decimal_text(c.volumes_scanned)
        + " removed | compose: "@ + text::decimal_text(c.compose_files_removed) + " removed | "@
        + text::decimal_text(c.skipped) + " skipped"@
}

impl Default for GcStats {
    fn default() -> (r: GcStats)
        ensures
            r@ == no_counts(),
    {
        GcStats {
            cache_scanned: 0,
            cache_evicted: 0,
            cache_bytes_freed: 0,
            volumes_scanned: 0,
            volumes_removed: 0,
            compose_files_removed: 0,
            skipped: 0,
        }
    }
}

impl GcStats {
    /// Whether every count can grow by one.
    pub fn has_room(&self) -> (r: bool)
        ensures
            r == room(self@),
    {
        self.cache_scanned < usize::MAX && self.cache_evicted < usize::MAX && self.volumes_scanned
            < usize::MAX && self.volumes_removed < usize::MAX && self.compose_files_removed
            < usize::MAX && self.skipped < usize::MAX
    }

    /// The statistics on one line.
    pub fn display(&self) -> (r: String)
        ensures
            r@ == counts_text(self@),
    {
        let mut s = "cache: ".to_owned();
        s.append(text::decimal(self.cache_evicted as u64).as_str());
        s.append("/");
        s.append(text::decimal(self.cache_scanned as u64).as_str());
        s.append(" evicted (");
        s.append(human_bytes(self.cache_bytes_freed).as_str());
        s.append(" freed) | volumes: ");
        s.append(text::decimal(self.volumes_removed as u64).as_str());
        s.append("/");
        s.append(text::decimal(self.volumes_scanned as u64).as_str());
        s.append(" removed | compose: ");
        s.append(text::decimal(self.compose_files_removed as u64).as_str());
        s.append(" removed | ");
        s.append(text::decimal(self.skipped as u64).as_str());
        s.append(" skipped");
        s
    }

    /// Whether the pass removed anything.
    pub fn cleaned_anything(&self) -> (r: bool)
        ensures
            r == (self.cache_evicted > 0 || self.volumes_removed > 0 || self.compose_files_removed
                > 0),
    {
        self.cache_evicted > 0 || self.volumes_removed > 0 || self.compose_files_removed > 0
    }
}

// ── The limit of a pass ──────────────────────────────────────────────────────────────────
/// The limit of a pass: what was last used before it is older than `max_age_days`. Where that
/// many days back is before the earliest time, the earliest time is the limit, as nothing is
/// older than that.
pub open spec fn limit(now: Timestamp, max_age_days: u64) -> Timestamp {
    if timestamp::MIN_SECS <= timestamp::secs_back(now, max_age_days) {
        Timestamp { secs: timestamp::secs_back(now, max_age_days) as i64, nanos: now.nanos }
    } else {
        timestamp::earliest()
    }
}

/// The limit of a pass that begins now.
pub fn cutoff(now: Timestamp, max_age_days: u64) -> (r: Timestamp)
    requires
        timestamp::known(now),
    ensures
        r == limit(now, max_age_days),
        timestamp::known(r),
{
    match now.days_back(max_age_days) {
        Some(t) => t,
        None => Timestamp::earliest(),
    }
}

// ── Reading what was found ───────────────────────────────────────────────────────────────
/// A text that is no time.
#[derive(Debug)]
pub struct BadTimestamp {
    /// The text, without the white space around it.
    pub text: String,
    /// What is wrong with it.
    pub source: chrono::ParseError,
}

/// Reads the contents of a `.last_used` file: a time in the format of RFC 3339.
pub fn read_last_used(content: &str) -> (r: Result<Timestamp, BadTimestamp>)
    ensures
        match r {
            Ok(t) => timestamp::stamp(timestamp::rfc3339_parsed(text::trimmed(content@))) == Some(
                t,
            ),
            Err(e) => timestamp::rfc3339_parsed(text::trimmed(content@)) is None && e.text@
                == text::trimmed(content@),
        },
{
    let trimmed = text::trim(content);
    match Timestamp::from_rfc3339(trimmed.as_str()) {
        Ok(t) => Ok(t),
        Err(source) => Err(BadTimestamp { text: trimmed, source }),
    }
}

/// The time that Docker gives for the creation of a volume: in the format of RFC 3339, or with
/// spaces between the date, the time and the offset, and possibly the name of the time zone
/// behind them.
pub open spec fn created_at(output: Seq<char>) -> Option<(i64, u32)> {
    let t = text::trimmed(output);
    match timestamp::rfc3339_parsed(t) {
        Some(time) => Some(time),
        None => match timestamp::format_parsed(t, "%Y-%m-%d %H:%M:%S %z"@) {
            Some(time) => Some(time),
            None => timestamp::format_parsed(t, "%Y-%m-%d %H:%M:%S %z %Z"@),
        },
    }
}

/// Reads the time of creation that `docker volume inspect` writes, such as
/// `2026-05-30T12:00:00+05:30`, `2026-05-30T12:00:00Z` or `2026-05-30 12:00:00 +0530 IST`.
pub fn parse_volume_created(output: &str) -> (r: Result<Timestamp, BadTimestamp>)
    ensures
        match r {
            Ok(t) => timestamp::stamp(created_at(output@)) == Some(t),
            Err(e) => created_at(output@) is None && e.text@ == text::trimmed(output@),
        },
{
    let trimmed = text::trim(output);
    if let Ok(t) = Timestamp::from_rfc3339(trimmed.as_str()) {
        return Ok(t);
    }
    if let Ok(t) = Timestamp::from_format(trimmed.as_str(), "%Y-%m-%d %H:%M:%S %z") {
        return Ok(t);
    }
    match Timestamp::from_format(trimmed.as_str(), "%Y-%m-%d %H:%M:%S %z %Z") {
        Ok(t) => Ok(t),
        Err(source) => Err(BadTimestamp { text: trimmed, source }),
    }
}

/// The lines without the white space around them, and without those that are empty then.
pub open spec fn names_in(lines: Seq<Seq<char>>) -> Seq<Seq<char>>
    decreases lines.len(),
{
    if lines.len() == 0 {
        lines
    } else if text::trimmed(lines.last()).len() == 0 {
        names_in(lines.drop_last())
    } else {
        names_in(lines.drop_last()).push(text::trimmed(lines.last()))
    }
}

/// Reads the list of volume names that `docker volume ls` writes, one on each line.
pub fn parse_volume_list(output: &str) -> (r: Vec<String>)
    ensures
        text::texts(r@) == names_in(text::split(output@, '\n')),
{
    let lines = text::split_text(output, '\n');
    let ghost all = text::texts(lines@);
    let mut names: Vec<String> = Vec::new();
    let mut i: usize = 0;
    assert(text::texts(names@) =~= names_in(all.take(0)));
    while i < lines.len()
        invariant
            i <= lines@.len(),
            all == text::texts(lines@),
            text::texts(names@) == names_in(all.take(i as int)),
        decreases lines@.len() - i,
    {
        assert(all.take(i + 1).drop_last() =~= all.take(i as int));
        let name = text::trim(lines[i].as_str());
        let ghost before = text::texts(names@);
        if !name.as_str().is_empty() {
            names.push(name);
            assert(text::texts(names@) =~= before.push(name@));
        }
        i = i + 1;
    }
    assert(all.take(i as int) =~= all);
    names
}

/// What Docker is asked about volumes.
#[derive(Debug, PartialEq, Eq)]
pub enum VolumeQuery {
    /// The names of all shadow volumes.
    List,
    /// When this volume was created.
    Created(String),
    /// To remove this volume.
    Remove(String),
}

/// The arguments of `docker` for a query.
pub open spec fn query_arguments(query: VolumeQuery) -> Seq<Seq<char>> {
    match query {
        VolumeQuery::List => seq![
            "volume"@,
            "ls"@,
            "--filter"@,
            "name=--warp--"@,
            "--format"@,
            "{{.Name}}"@,
        ],
        VolumeQuery::Created(name) => seq![
            "volume"@,
            "inspect"@,
            name@,
            "--format"@,
            "{{.CreatedAt}}"@,
        ],
        VolumeQuery::Remove(name) => seq!["volume"@, "rm"@, name@],
    }
}

/// The arguments of `docker` for a query.
pub fn docker_arguments(query: &VolumeQuery) -> (r: Vec<String>)
    ensures
        text::texts(r@) == query_arguments(*query),
{
    let mut args: Vec<String> = Vec::new();
    args.push("volume".to_owned());
    match query {
        VolumeQuery::List => {
            args.push("ls".to_owned());
            args.push("--filter".to_owned());
            args.push("name=--warp--".to_owned());
            args.push("--format".to_owned());
            args.push("{{.Name}}".to_owned());
        },
        VolumeQuery::Created(name) => {
            args.push("inspect".to_owned());
            args.push(name.clone());
            args.push("--format".to_owned());
            args.push("{{.CreatedAt}}".to_owned());
        },
        VolumeQuery::Remove(name) => {
            args.push("rm".to_owned());
            args.push(name.clone());
        },
    }
    assert(text::texts(args@) =~= query_arguments(*query));
    args
}

// ── The dependency cache ─────────────────────────────────────────────────────────────────
/// Something in the cache directory.
#[derive(Debug, PartialEq, Eq)]
pub enum CacheItem {
    /// It could not be read.
    Unreadable,
    /// It is no directory, and so no cache entry.
    NoDirectory,
    /// A cache entry, with the contents of its `.last_used` file if that could be read, and
    /// whether the `node_modules` of a repository links to it.
    Entry { last_used: Option<String>, in_use: bool },
}

/// The time of last use that the contents of a `.last_used` file give. `None` where there are
/// none, or they are no time.
pub open spec fn last_use(content: Option<Seq<char>>) -> Option<Timestamp> {
    match content {
        Some(c) => timestamp::stamp(timestamp::rfc3339_parsed(text::trimmed(c))),
        None => None,
    }
}

/// The characters of a string that may be missing.
pub open spec fn optional_text(s: Option<String>) -> Option<Seq<char>> {
    match s {
        Some(s) => Some(s@),
        None => None,
    }
}

/// What to do with something in the cache directory.
#[derive(Debug, Clone, Copy, PartialEq, Eq, Structural)]
pub enum CacheStep {
    /// Nothing: it is no cache entry that can be handled.
    Ignore,
    /// Keep the entry: it was used recently.
    KeepFresh(Timestamp),
    /// Keep the entry: it is stale, but a repository links to it.
    KeepInUse(Timestamp),
    /// Say that the entry would be evicted.
    Report(Timestamp),
    /// Evict the entry.
    Evict(Timestamp),
}

/// Whether a cache entry is stale: it was last used before the limit. One whose last use is not
/// known counts as infinitely old.
pub open spec fn stale(last_used: Option<Timestamp>, cutoff: Timestamp) -> bool {
    match last_used {
        Some(t) => timestamp::before(t, cutoff),
        None => true,
    }
}

/// The time that is shown as that of the last use: the earliest there is where it is not known.
pub open spec fn shown_use(last_used: Option<Timestamp>) -> Timestamp {
    match last_used {
        Some(t) => t,
        None => timestamp::earliest(),
    }
}

/// What to do with a cache entry that was last used at this time.
pub open spec fn entry_step(
    last_used: Option<Timestamp>,
    in_use: bool,
    cutoff: Timestamp,
    dry_run: bool,
) -> CacheStep {
    if !stale(last_used, cutoff) {
        CacheStep::KeepFresh(shown_use(last_used))
    } else if in_use {
        CacheStep::KeepInUse(shown_use(last_used))
    } else if dry_run {
        CacheStep::Report(shown_use(last_used))
    } else {
        CacheStep::Evict(shown_use(last_used))
    }
}

/// What to do with something in the cache directory.
pub open spec fn cache_step(item: CacheItem, cutoff: Timestamp, dry_run: bool) -> CacheStep {
    match item {
        CacheItem::Entry { last_used, in_use } => entry_step(
            last_use(optional_text(last_used)),
            in_use,
            cutoff,
            dry_run,
        ),
        _ => CacheStep::Ignore,
    }
}

/// The statistics after something in the cache directory was looked at.
pub open spec fn cache_visited(c: Counts, item: CacheItem, step: CacheStep) -> Counts {
    let seen = match item {
        CacheItem::Unreadable => Counts { skipped: c.skipped + 1, ..c },
        CacheItem::NoDirectory => c,
        CacheItem::Entry { .. } => Counts { cache_scanned: c.cache_scanned + 1, ..c },
    };
    match step {
        CacheStep::KeepInUse(_) => Counts { skipped: seen.skipped + 1, ..seen },
        CacheStep::Report(_) => Counts { cache_evicted: seen.cache_evicted + 1, ..seen },
        _ => seen,
    }
}

/// How an eviction went.
#[derive(Debug, Clone, Copy, PartialEq, Eq, Structural)]
pub enum Eviction {
    /// The entry is gone, and with it so many bytes.
    Freed(u64),
    /// The entry could not be removed.
    Failed,
}

/// The statistics after an eviction.
pub open spec fn cache_settled(c: Counts, outcome: Eviction) -> Counts {
    match outcome {
        Eviction::Freed(bytes) => Counts {
            cache_evicted: c.cache_evicted + 1,
            cache_bytes_freed: c.cache_bytes_freed + bytes as nat,
            ..c
        },
        Eviction::Failed => Counts { skipped: c.skipped + 1, ..c },
    }
}

/// Says what to do with a cache entry that was last used at this time. `None` stands for a time
/// that is not known.
pub fn judge_entry(
    last_used: Option<Timestamp>,
    in_use: bool,
    cutoff: Timestamp,
    dry_run: bool,
) -> (r: CacheStep)
    ensures
        r == entry_step(last_used, in_use, cutoff, dry_run),
{
    let (is_stale, shown) = match last_used {
        Some(t) => (t.is_before(&cutoff), t),
        None => (true, Timestamp::earliest()),
    };
    if !is_stale {
        CacheStep::KeepFresh(shown)
    } else if in_use {
        CacheStep::KeepInUse(shown)
    } else if dry_run {
        CacheStep::Report(shown)
    } else {
        CacheStep::Evict(shown)
    }
}

/// Looks at something in the cache directory: counts it, and says what to do with it.
pub fn visit_cache_item(
    stats: &mut GcStats,
    item: &CacheItem,
    cutoff: Timestamp,
    dry_run: bool,
) -> (r: CacheStep)
    requires
        room(old(stats)@),
    ensures
        r == cache_step(*item, cutoff, dry_run),
        final(stats)@ == cache_visited(old(stats)@, *item, r),
{
    match item {
        CacheItem::Unreadable => {
            stats.skipped = stats.skipped + 1;
            CacheStep::Ignore
        },
        CacheItem::NoDirectory => CacheStep::Ignore,
        CacheItem::Entry { last_used, in_use } => {
            stats.cache_scanned = stats.cache_scanned + 1;
            let time = match last_used {
                Some(content) => match read_last_used(content.as_str()) {
                    Ok(t) => Some(t),
                    Err(_) => None,
                },
                None => None,
            };
            let step = judge_entry(time, *in_use, cutoff, dry_run);
            match step {
                CacheStep::KeepInUse(_) => {
                    stats.skipped = stats.skipped + 1;
                },
                CacheStep::Report(_) => {
                    stats.cache_evicted = stats.cache_evicted + 1;
                },
                _ => {},
            }
            step
        },
    }
}

/// Counts an eviction.
pub fn cache_entry_removed(stats: &mut GcStats, outcome: Eviction)
    requires
        room(old(stats)@),
        outcome matches Eviction::Freed(bytes) ==> old(stats).cache_bytes_freed + bytes
            <= u64::MAX,
    ensures
        final(stats)@ == cache_settled(old(stats)@, outcome),
{
    match outcome {
        Eviction::Freed(bytes) => {
            stats.cache_bytes_freed = stats.cache_bytes_freed + bytes;
            stats.cache_evicted = stats.cache_evicted + 1;
        },
        Eviction::Failed => {
            stats.skipped = stats.skipped + 1;
        },
    }
}

// ── Shadow volumes and compose files ─────────────────────────────────────────────────────
/// What to do with a shadow volume or a rewritten compose file.
#[derive(Debug, Clone, Copy, PartialEq, Eq, Structural)]
pub enum RemovalStep {
    /// Nothing: its age is not known, or it is nothing that is collected.
    Ignore,
    /// Keep it: it is not old enough.
    Keep,
    /// Say that it would be removed.
    Report,
    /// Remove it.
    Remove,
}

/// What to do with something of this age.
pub open spec fn removal_step(time: Timestamp, cutoff: Timestamp, dry_run: bool) -> RemovalStep {
    if !timestamp::before(time, cutoff) {
        RemovalStep::Keep
    } else if dry_run {
        RemovalStep::Report
    } else {
        RemovalStep::Remove
    }
}

/// What to do with a shadow volume. `None` stands for a volume that could not be inspected.
pub open spec fn volume_step(
    created: Option<Timestamp>,
    cutoff: Timestamp,
    dry_run: bool,
) -> RemovalStep {
    match created {
        Some(time) => removal_step(time, cutoff, dry_run),
        None => RemovalStep::Ignore,
    }
}

/// The statistics after a shadow volume was looked at.
pub open spec fn volume_visited(c: Counts, step: RemovalStep) -> Counts {
    let seen = Counts { volumes_scanned: c.volumes_scanned + 1, ..c };
    match step {
        RemovalStep::Ignore => Counts { skipped: seen.skipped + 1, ..seen },
        _ => seen,
    }
}

/// The statistics after an attempt to remove a shadow volume.
pub open spec fn volume_settled(c: Counts, removed: bool) -> Counts {
    if removed {
        Counts { volumes_removed: c.volumes_removed + 1, ..c }
    } else {
        Counts { skipped: c.skipped + 1, ..c }
    }
}

/// Whether a file name has the extension `yml`: a dot and these letters at the end, and
/// something before them.
pub open spec fn compose_name(name: Seq<char>) -> bool {
    name.len() > 4 && name.skip(name.len() - 4) == ".yml"@
}

/// What to do with a file among the rewritten compose files. `None` stands for a file whose
/// time of modification could not be read.
pub open spec fn compose_step(
    name: Seq<char>,
    modified: Option<Timestamp>,
    cutoff: Timestamp,
    dry_run: bool,
) -> RemovalStep {
    if !compose_name(name) {
        RemovalStep::Ignore
    } else {
        match modified {
            Some(time) => removal_step(time, cutoff, dry_run),
            None => RemovalStep::Ignore,
        }
    }
}

/// The statistics after a file among the rewritten compose files was looked at.
pub open spec fn compose_visited(c: Counts, step: RemovalStep) -> Counts {
    match step {
        RemovalStep::Report => Counts { compose_files_removed: c.compose_files_removed + 1, ..c },
        _ => c,
    }
}

/// The statistics after an attempt to remove a rewritten compose file.
pub open spec fn compose_settled(c: Counts, removed: bool) -> Counts {
    if removed {
        Counts { compose_files_removed: c.compose_files_removed + 1, ..c }
    } else {
        c
    }
}

/// Says what to do with something of this age.
fn judge_removal(time: Timestamp, cutoff: Timestamp, dry_run: bool) -> (r: RemovalStep)
    ensures
        r == removal_step(time, cutoff, dry_run),
{
    if !time.is_before(&cutoff) {
        RemovalStep::Keep
    } else if dry_run {
        RemovalStep::Report
    } else {
        RemovalStep::Remove
    }
}

/// Looks at a shadow volume: counts it, and says what to do with it.
pub fn visit_volume(
    stats: &mut GcStats,
    created: Option<Timestamp>,
    cutoff: Timestamp,
    dry_run: bool,
) -> (r: RemovalStep)
    requires
        room(old(stats)@),
    ensures
        r == volume_step(created, cutoff, dry_run),
        final(stats)@ == volume_visited(old(stats)@, r),
{
    stats.volumes_scanned = stats.volumes_scanned + 1;
    match created {
        Some(time) => judge_removal(time, cutoff, dry_run),
        None => {
            stats.skipped = stats.skipped + 1;
            RemovalStep::Ignore
        },
    }
}

/// Counts an attempt to remove a shadow volume.
pub fn volume_removed(stats: &mut GcStats, removed: bool)
    requires
        room(old(stats)@),
    ensures
        final(stats)@ == volume_settled(old(stats)@, removed),
{
    if removed {
        stats.volumes_removed = stats.volumes_removed + 1;
    } else {
        stats.skipped = stats.skipped + 1;
    }
}

/// Whether a file name has the extension `yml`.
pub fn is_compose_name(name: &str) -> (r: bool)
    ensures
        r == compose_name(name@),
{
    let v = text::chars_of(name);
    if v.len() <= 4 {
        return false;
    }
    let end = text::string_of(&v, v.len() - 4, v.len());
    assert(end@ =~= name@.skip(name@.len() - 4));
    text::same_text(end.as_str(), ".yml")
}

/// Looks at a file among the rewritten compose files, and says what to do with it.
pub fn visit_compose_file(
    stats: &mut GcStats,
    name: &str,
    modified: Option<Timestamp>,
    cutoff: Timestamp,
    dry_run: bool,
) -> (r: RemovalStep)
    requires
        room(old(stats)@),
    ensures
        r == compose_step(name@, modified, cutoff, dry_run),
        final(stats)@ == compose_visited(old(stats)@, r),
{
    if !is_compose_name(name) {
        return RemovalStep::Ignore;
    }
    match modified {
        Some(time) => {
            let step = judge_removal(time, cutoff, dry_run);
            if let RemovalStep::Report = step {
                stats.compose_files_removed = stats.compose_files_removed + 1;
            }
            step
        },
        None => RemovalStep::Ignore,
    }
}

/// Counts an attempt to remove a rewritten compose file.
pub fn compose_file_removed(stats: &mut GcStats, removed: bool)
    requires
        room(old(stats)@),
    ensures
        final(stats)@ == compose_settled(old(stats)@, removed),
{
    if removed {
        stats.compose_files_removed = stats.compose_files_removed + 1;
    }
}

// ── The phases of a pass ─────────────────────────────────────────────────────────────────
/// The phases of a pass, in their order.
#[derive(Debug, Clone, Copy, PartialEq, Eq, Structural)]
pub enum Phase {
    /// The dependency cache.
    Cache,
    /// The shadow volumes.
    Volumes,
    /// The rewritten compose files.
    ComposeFiles,
}

/// How an attempt to list the items of a phase went.
#[derive(Debug, Clone, Copy, PartialEq, Eq, Structural)]
pub enum Listing {
    /// The items can be looked at.
    Listed,
    /// There is no directory to list.
    Missing,
    /// The items could not be listed.
    Failed,
}

/// What to do once the items of a phase were listed.
#[derive(Debug, Clone, Copy, PartialEq, Eq, Structural)]
pub enum PhaseStep {
    /// Look at each item.
    Walk,
    /// Go on with the next phase.
    Skip,
    /// Give the pass up with an error.
    Abort,
}

/// What to do once the items of a phase were listed. Docker may not be running, so volumes that
/// cannot be listed are no error.
pub open spec fn phase_step(phase: Phase, listing: Listing) -> PhaseStep {
    match listing {
        Listing::Listed => PhaseStep::Walk,
        Listing::Missing => PhaseStep::Skip,
        Listing::Failed => if phase == Phase::Volumes {
            PhaseStep::Skip
        } else {
            PhaseStep::Abort
        },
    }
}

/// Says what to do once the items of a phase were listed.
pub fn begin_phase(phase: Phase, listing: Listing) -> (r: PhaseStep)
    ensures
        r == phase_step(phase, listing),
{
    match listing {
        Listing::Listed => PhaseStep::Walk,
        Listing::Missing => PhaseStep::Skip,
        Listing::Failed => match phase {
            Phase::Volumes => PhaseStep::Skip,
            _ => PhaseStep::Abort,
        },
    }
}

} // verus!
