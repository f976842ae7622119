//! What garbage collection promises: what is in use or was used recently stays, a dry run
//! touches nothing, and the counts fit together.

use crate::docker_proxy;
use crate::gc;
use crate::gc::{CacheItem, CacheStep, Counts, Eviction, RemovalStep};
use crate::text;
use crate::timestamp;
use crate::timestamp::Timestamp;
use vstd::prelude::*;

verus! {

/// A dry run removes nothing: no cache entry, no volume and no compose file.
pub proof fn law_dry_run_removes_nothing(
    item: CacheItem,
    created: Option<Timestamp>,
    name: Seq<char>,
    modified: Option<Timestamp>,
    cutoff: Timestamp,
)
    ensures
        !(gc::cache_step(item, cutoff, true) is Evict),
        gc::volume_step(created, cutoff, true) != RemovalStep::Remove,
        gc::compose_step(name, modified, cutoff, true) != RemovalStep::Remove,
{
}

/// A dry run reports exactly what a run would remove.
pub proof fn law_dry_run_is_accurate(
    item: CacheItem,
    created: Option<Timestamp>,
    name: Seq<char>,
    modified: Option<Timestamp>,
    cutoff: Timestamp,
)
    ensures
        gc::cache_step(item, cutoff, true) is Report <==> gc::cache_step(item, cutoff, false)
            is Evict,
        gc::volume_step(created, cutoff, true) == RemovalStep::Report <==> gc::volume_step(
            created,
            cutoff,
            false,
        ) == RemovalStep::Remove,
        gc::compose_step(name, modified, cutoff, true) == RemovalStep::Report
            <==> gc::compose_step(name, modified, cutoff, false) == RemovalStep::Remove,
{
}

/// A cache entry that a repository links to is never evicted, whatever its age.
pub proof fn law_entry_in_use_is_kept(last_used: Option<String>, cutoff: Timestamp, dry_run: bool)
    ensures
        ({
            let step = gc::cache_step(
                CacheItem::Entry { last_used, in_use: true },
                cutoff,
                dry_run,
            );
            step is KeepFresh || step is KeepInUse
        }),
{
}

/// A cache entry is evicted only if its last use lies before the limit, or is not known.
pub proof fn law_only_stale_entries_are_evicted(
    last_used: Option<String>,
    in_use: bool,
    cutoff: Timestamp,
    dry_run: bool,
)
    ensures
        gc::cache_step(CacheItem::Entry { last_used, in_use }, cutoff, dry_run) is Evict ==> {
            &&& gc::stale(gc::last_use(gc::optional_text(last_used)), cutoff)
            &&& !in_use
            &&& !dry_run
        },
{
}

/// A cache entry without a time of last use that can be read is stale, whatever the limit.
pub proof fn law_unreadable_entry_is_stale(content: Option<Seq<char>>, cutoff: Timestamp)
    requires
        content matches Some(c) ==> timestamp::rfc3339_parsed(text::trimmed(c)) is None,
    ensures
        gc::entry_step(gc::last_use(content), false, cutoff, false) is Evict,
{
}

/// Where an entry is marked as used at a time, with the text that such a mark holds, the
/// collector reads that time back, and keeps the entry for any limit that is not later.
pub proof fn law_marked_entry_is_kept(
    mark: Seq<char>,
    used: Timestamp,
    cutoff: Timestamp,
    in_use: bool,
    dry_run: bool,
)
    requires
        text::trimmed(mark) == mark,
        timestamp::rfc3339_parsed(mark) == Some((used.secs, used.nanos)),
        !timestamp::before(used, cutoff),
    ensures
        gc::last_use(Some(mark)) == Some(used),
        gc::entry_step(gc::last_use(Some(mark)), in_use, cutoff, dry_run) == CacheStep::KeepFresh(
            used,
        ),
{
}

/// Age decides: an entry that no repository links to is evicted if and only if more than
/// `max_age_days` days have passed since its last use, whatever that number is.
pub proof fn law_age_decides(last_used: Timestamp, now: Timestamp, max_age_days: u64)
    requires
        timestamp::known(now),
        timestamp::MIN_SECS <= last_used.secs,
    ensures
        gc::entry_step(Some(last_used), false, gc::limit(now, max_age_days), false) is Evict <==> {
            let due = last_used.secs + max_age_days * timestamp::SECS_PER_DAY;
            due < now.secs || (due == now.secs && last_used.nanos < now.nanos)
        },
{
}

/// A larger `max_age_days` never evicts more: its limit is not later.
pub proof fn law_larger_age_keeps_more(now: Timestamp, days: u64, more: u64)
    requires
        timestamp::known(now),
        days <= more,
    ensures
        !timestamp::before(gc::limit(now, days), gc::limit(now, more)),
{
    assert(days * timestamp::SECS_PER_DAY <= more * timestamp::SECS_PER_DAY) by (nonlinear_arith)
        requires
            days <= more,
    ;
}

/// Whatever is removed for a limit is removed for every later limit too.
pub proof fn law_later_limit_removes_more(
    item: CacheItem,
    created: Option<Timestamp>,
    name: Seq<char>,
    modified: Option<Timestamp>,
    cutoff: Timestamp,
    later: Timestamp,
)
    requires
        !timestamp::before(later, cutoff),
    ensures
        gc::cache_step(item, cutoff, false) is Evict ==> gc::cache_step(item, later, false)
            is Evict,
        gc::volume_step(created, cutoff, false) == RemovalStep::Remove ==> gc::volume_step(
            created,
            later,
            false,
        ) == RemovalStep::Remove,
        gc::compose_step(name, modified, cutoff, false) == RemovalStep::Remove
            ==> gc::compose_step(name, modified, later, false) == RemovalStep::Remove,
{
}

/// The statistics after a walk through the cache directory. Each item comes with how its
/// eviction goes, should it come to that.
pub open spec fn cache_walked(
    start: Counts,
    items: Seq<(CacheItem, Eviction)>,
    cutoff: Timestamp,
    dry_run: bool,
) -> Counts
    decreases items.len(),
{
    if items.len() == 0 {
        start
    } else {
        let before = cache_walked(start, items.drop_last(), cutoff, dry_run);
        let (item, outcome) = items.last();
        let step = gc::cache_step(item, cutoff, dry_run);
        let seen = gc::cache_visited(before, item, step);
        if step is Evict {
            gc::cache_settled(seen, outcome)
        } else {
            seen
        }
    }
}

/// The statistics after a walk through the shadow volumes. Each volume comes with whether it
/// lets itself be removed, should it come to that.
pub open spec fn volumes_walked(
    start: Counts,
    volumes: Seq<(Option<Timestamp>, bool)>,
    cutoff: Timestamp,
    dry_run: bool,
) -> Counts
    decreases volumes.len(),
{
    if volumes.len() == 0 {
        start
    } else {
        let before = volumes_walked(start, volumes.drop_last(), cutoff, dry_run);
        let (created, removed) = volumes.last();
        let step = gc::volume_step(created, cutoff, dry_run);
        let seen = gc::volume_visited(before, step);
        if step == RemovalStep::Remove {
            gc::volume_settled(seen, removed)
        } else {
            seen
        }
    }
}

/// How many of the items are cache entries.
pub open spec fn entries_among(items: Seq<(CacheItem, Eviction)>) -> nat
    decreases items.len(),
{
    if items.len() == 0 {
        0
    } else {
        entries_among(items.drop_last()) + (if items.last().0 is Entry {
            1nat
        } else {
            0nat
        })
    }
}

/// A walk through the cache scans each entry once, evicts no more than it scans, and counts
/// nothing of the other phases. A dry run frees no bytes.
pub proof fn law_cache_counts_fit(
    start: Counts,
    items: Seq<(CacheItem, Eviction)>,
    cutoff: Timestamp,
    dry_run: bool,
)
    ensures
        ({
            let end = cache_walked(start, items, cutoff, dry_run);
            &&& end.cache_scanned == start.cache_scanned + entries_among(items)
            &&& start.cache_evicted <= end.cache_evicted
            &&& end.cache_evicted - start.cache_evicted <= entries_among(items)
            &&& end.skipped - start.skipped <= items.len()
            &&& end.volumes_scanned == start.volumes_scanned
            &&& end.volumes_removed == start.volumes_removed
            &&& end.compose_files_removed == start.compose_files_removed
            &&& dry_run ==> end.cache_bytes_freed == start.cache_bytes_freed
        }),
    decreases items.len(),
{
    if items.len() > 0 {
        law_cache_counts_fit(start, items.drop_last(), cutoff, dry_run);
    }
}

/// A walk through the shadow volumes scans each of them once, removes no more than it scans,
/// and counts nothing of the other phases. A dry run removes none.
pub proof fn law_volume_counts_fit(
    start: Counts,
    volumes: Seq<(Option<Timestamp>, bool)>,
    cutoff: Timestamp,
    dry_run: bool,
)
    ensures
        ({
            let end = volumes_walked(start, volumes, cutoff, dry_run);
            &&& end.volumes_scanned == start.volumes_scanned + volumes.len()
            &&& start.volumes_removed <= end.volumes_removed
            &&& end.volumes_removed - start.volumes_removed <= volumes.len()
            &&& end.cache_scanned == start.cache_scanned
            &&& end.cache_evicted == start.cache_evicted
            &&& end.cache_bytes_freed == start.cache_bytes_freed
            &&& end.compose_files_removed == start.compose_files_removed
            &&& dry_run ==> end.volumes_removed == start.volumes_removed
        }),
    decreases volumes.len(),
{
    if volumes.len() > 0 {
        law_volume_counts_fit(start, volumes.drop_last(), cutoff, dry_run);
    }
}

/// The statistics after a walk through the rewritten compose files. Each comes with its name,
/// its time of modification, and whether it lets itself be removed, should it come to that.
pub open spec fn compose_walked(
    start: Counts,
    files: Seq<(Seq<char>, Option<Timestamp>, bool)>,
    cutoff: Timestamp,
    dry_run: bool,
) -> Counts
    decreases files.len(),
{
    if files.len() == 0 {
        start
    } else {
        let before = compose_walked(start, files.drop_last(), cutoff, dry_run);
        let (name, modified, removed) = files.last();
        let step = gc::compose_step(name, modified, cutoff, dry_run);
        let seen = gc::compose_visited(before, step);
        if step == RemovalStep::Remove {
            gc::compose_settled(seen, removed)
        } else {
            seen
        }
    }
}

/// A walk through the rewritten compose files removes no more than there are, and counts
/// nothing of the other phases.
pub proof fn law_compose_counts_fit(
    start: Counts,
    files: Seq<(Seq<char>, Option<Timestamp>, bool)>,
    cutoff: Timestamp,
    dry_run: bool,
)
    ensures
        ({
            let end = compose_walked(start, files, cutoff, dry_run);
            &&& start.compose_files_removed <= end.compose_files_removed
            &&& end.compose_files_removed - start.compose_files_removed <= files.len()
            &&& end == Counts { compose_files_removed: end.compose_files_removed, ..start }
        }),
    decreases files.len(),
{
    if files.len() > 0 {
        law_compose_counts_fit(start, files.drop_last(), cutoff, dry_run);
    }
}

/// What a pass finds: the cache, the shadow volumes and the rewritten compose files, each with
/// how its removal goes, should it come to that.
pub struct Findings {
    pub cache: Seq<(CacheItem, Eviction)>,
    pub volumes: Seq<(Option<Timestamp>, bool)>,
    pub compose_files: Seq<(Seq<char>, Option<Timestamp>, bool)>,
}

/// The statistics of a whole pass.
pub open spec fn passed(found: Findings, cutoff: Timestamp, dry_run: bool) -> Counts {
    let cache = cache_walked(gc::no_counts(), found.cache, cutoff, dry_run);
    let volumes = volumes_walked(cache, found.volumes, cutoff, dry_run);
    compose_walked(volumes, found.compose_files, cutoff, dry_run)
}

/// Whether every removal succeeds.
pub open spec fn nothing_resists(found: Findings) -> bool {
    &&& forall|i: int| 0 <= i < found.cache.len() ==> (#[trigger] found.cache[i]).1 is Freed
    &&& forall|i: int| 0 <= i < found.compose_files.len() ==> (#[trigger] found.compose_files[i]).2
}

proof fn lemma_cache_agrees(
    a: Counts,
    b: Counts,
    items: Seq<(CacheItem, Eviction)>,
    cutoff: Timestamp,
)
    requires
        a.cache_evicted == b.cache_evicted,
        forall|i: int| 0 <= i < items.len() ==> (#[trigger] items[i]).1 is Freed,
    ensures
        cache_walked(a, items, cutoff, true).cache_evicted == cache_walked(
            b,
            items,
            cutoff,
            false,
        ).cache_evicted,
    decreases items.len(),
{
    if items.len() > 0 {
        let front = items.drop_last();
        assert(forall|i: int| 0 <= i < front.len() ==> #[trigger] front[i] == items[i]);
        lemma_cache_agrees(a, b, front, cutoff);
        assert(items[items.len() - 1].1 is Freed);
    }
}

proof fn lemma_compose_agrees(
    a: Counts,
    b: Counts,
    files: Seq<(Seq<char>, Option<Timestamp>, bool)>,
    cutoff: Timestamp,
)
    requires
        a.compose_files_removed == b.compose_files_removed,
        forall|i: int| 0 <= i < files.len() ==> (#[trigger] files[i]).2,
    ensures
        compose_walked(a, files, cutoff, true).compose_files_removed == compose_walked(
            b,
            files,
            cutoff,
            false,
        ).compose_files_removed,
    decreases files.len(),
{
    if files.len() > 0 {
        let front = files.drop_last();
        assert(forall|i: int| 0 <= i < front.len() ==> #[trigger] front[i] == files[i]);
        lemma_compose_agrees(a, b, front, cutoff);
        assert(files[files.len() - 1].2);
    }
}

/// A whole dry pass frees no bytes and removes no volume. It counts the cache entries and the
/// compose files that a pass with the same limit removes where every removal succeeds.
pub proof fn law_dry_pass_foretells(found: Findings, cutoff: Timestamp)
    ensures
        passed(found, cutoff, true).cache_bytes_freed == 0,
        passed(found, cutoff, true).volumes_removed == 0,
        nothing_resists(found) ==> {
            &&& passed(found, cutoff, true).cache_evicted == passed(found, cutoff, false).cache_evicted
            &&& passed(found, cutoff, true).compose_files_removed == passed(
                found,
                cutoff,
                false,
            ).compose_files_removed
        },
{
    let start = gc::no_counts();
    let dry_cache = cache_walked(start, found.cache, cutoff, true);
    let real_cache = cache_walked(start, found.cache, cutoff, false);
    let dry_volumes = volumes_walked(dry_cache, found.volumes, cutoff, true);
    let real_volumes = volumes_walked(real_cache, found.volumes, cutoff, false);
    law_cache_counts_fit(start, found.cache, cutoff, true);
    law_cache_counts_fit(start, found.cache, cutoff, false);
    law_volume_counts_fit(dry_cache, found.volumes, cutoff, true);
    law_volume_counts_fit(real_cache, found.volumes, cutoff, false);
    law_compose_counts_fit(dry_volumes, found.compose_files, cutoff, true);
    law_compose_counts_fit(real_volumes, found.compose_files, cutoff, false);
    if nothing_resists(found) {
        lemma_cache_agrees(start, start, found.cache, cutoff);
        lemma_compose_agrees(dry_volumes, real_volumes, found.compose_files, cutoff);
    }
}

// ── Age ──────────────────────────────────────────────────────────────────────────────────
/// Of two times the one with fewer seconds comes first, and of two in the same second the one
/// with fewer nanoseconds.
pub proof fn law_before(a: Timestamp, b: Timestamp)
    ensures
        a.secs < b.secs ==> timestamp::before(a, b),
        a.secs > b.secs ==> !timestamp::before(a, b),
        a.secs == b.secs ==> (timestamp::before(a, b) <==> a.nanos < b.nanos),
{
}

/// The limit of a pass and its age make up the present, unless the limit would lie before the
/// earliest time, which then is the limit.
pub proof fn law_limit_lies_back(now: Timestamp, max_age_days: u64)
    requires
        -8_334_601_228_800 <= now.secs <= 8_210_266_876_799,
        now.nanos < 1_000_000_000,
    ensures
        timestamp::known(now),
        ({
            let l = gc::limit(now, max_age_days);
            if -8_334_601_228_800 <= now.secs - max_age_days * 86_400 {
                l.secs + max_age_days * 86_400 == now.secs && l.nanos == now.nanos
            } else {
                l.secs == -8_334_601_228_800 && l.nanos == 0
            }
        }),
{
}

/// Age decides for shadow volumes: one is removed, or reported in a dry run, if and only if more
/// than `max_age_days` days have passed since it was created, and kept otherwise. One that cannot
/// be inspected is left alone.
pub proof fn law_age_decides_for_volumes(
    created: Timestamp,
    now: Timestamp,
    max_age_days: u64,
    dry_run: bool,
)
    requires
        timestamp::known(now),
        -8_334_601_228_800 <= created.secs,
    ensures
        ({
            let due = created.secs + max_age_days * 86_400;
            let old = due < now.secs || (due == now.secs && created.nanos < now.nanos);
            let step = gc::volume_step(Some(created), gc::limit(now, max_age_days), dry_run);
            &&& step == RemovalStep::Remove <==> old && !dry_run
            &&& step == RemovalStep::Report <==> old && dry_run
            &&& step == RemovalStep::Keep <==> !old
            &&& gc::volume_step(None, gc::limit(now, max_age_days), dry_run) == RemovalStep::Ignore
        }),
{
}

/// Age decides for rewritten compose files, by the time of their modification. A file with
/// another extension, or without a time, is left alone.
pub proof fn law_age_decides_for_compose_files(
    stem: Seq<char>,
    modified: Timestamp,
    now: Timestamp,
    max_age_days: u64,
    dry_run: bool,
)
    requires
        timestamp::known(now),
        -8_334_601_228_800 <= modified.secs,
        stem.len() > 0,
    ensures
        ({
            let name = stem + ".yml"@;
            let due = modified.secs + max_age_days * 86_400;
            let old = due < now.secs || (due == now.secs && modified.nanos < now.nanos);
            let cutoff = gc::limit(now, max_age_days);
            let step = gc::compose_step(name, Some(modified), cutoff, dry_run);
            &&& step == RemovalStep::Remove <==> old && !dry_run
            &&& step == RemovalStep::Report <==> old && dry_run
            &&& step == RemovalStep::Keep <==> !old
            &&& gc::compose_step(name, None, cutoff, dry_run) == RemovalStep::Ignore
        }),
{
    law_compose_name(stem + ".yml"@);
    assert(stem + ".yml"@ == #[trigger] (stem + ".yml"@));
}

/// Whatever the limit, what is older than it is removed, or reported in a dry run, and nothing
/// else is.
pub proof fn law_limit_decides(
    name: Seq<char>,
    time: Timestamp,
    cutoff: Timestamp,
    dry_run: bool,
)
    ensures
        ({
            let old = time.secs < cutoff.secs || (time.secs == cutoff.secs && time.nanos
                < cutoff.nanos);
            let step = if !old {
                RemovalStep::Keep
            } else if dry_run {
                RemovalStep::Report
            } else {
                RemovalStep::Remove
            };
            &&& gc::volume_step(Some(time), cutoff, dry_run) == step
            &&& gc::volume_step(None, cutoff, dry_run) == RemovalStep::Ignore
            &&& gc::compose_name(name) ==> gc::compose_step(name, Some(time), cutoff, dry_run)
                == step
            &&& !gc::compose_name(name) ==> gc::compose_step(name, Some(time), cutoff, dry_run)
                == RemovalStep::Ignore
            &&& gc::compose_step(name, None, cutoff, dry_run) == RemovalStep::Ignore
        }),
{
}

/// A file is a rewritten compose file if and only if its name is something and `.yml` behind it.
pub proof fn law_compose_name(name: Seq<char>)
    ensures
        gc::compose_name(name) <==> exists|stem: Seq<char>|
            stem.len() > 0 && name == #[trigger] (stem + ".yml"@),
{
    reveal_strlit(".yml");
    if gc::compose_name(name) {
        let stem = name.take(name.len() - 4);
        assert(name =~= stem + ".yml"@);
    }
    if exists|stem: Seq<char>| stem.len() > 0 && name == #[trigger] (stem + ".yml"@) {
        let stem = choose|stem: Seq<char>| stem.len() > 0 && name == #[trigger] (stem + ".yml"@);
        assert(name.skip(name.len() - 4) =~= ".yml"@);
    }
}

/// What becomes of a cache entry, by its age, its use, and whether the run is a dry one. The time
/// that comes with it is that of the last use, and the earliest there is where that is not known.
pub proof fn law_cache_entry_is_judged(
    content: String,
    in_use: bool,
    cutoff: Timestamp,
    dry_run: bool,
)
    ensures
        ({
            let step = gc::cache_step(
                CacheItem::Entry { last_used: Some(content), in_use },
                cutoff,
                dry_run,
            );
            let unmarked = gc::cache_step(
                CacheItem::Entry { last_used: None, in_use },
                cutoff,
                dry_run,
            );
            let never = Timestamp { secs: (-8_334_601_228_800) as i64, nanos: 0 };
            let gone = if in_use {
                CacheStep::KeepInUse(never)
            } else if dry_run {
                CacheStep::Report(never)
            } else {
                CacheStep::Evict(never)
            };
            &&& unmarked == gone
            &&& match timestamp::rfc3339_parsed(text::trimmed(content@)) {
                None => step == gone,
                Some((secs, nanos)) => {
                    let t = Timestamp { secs, nanos };
                    let old = secs < cutoff.secs || (secs == cutoff.secs && nanos < cutoff.nanos);
                    step == if !old {
                        CacheStep::KeepFresh(t)
                    } else if in_use {
                        CacheStep::KeepInUse(t)
                    } else if dry_run {
                        CacheStep::Report(t)
                    } else {
                        CacheStep::Evict(t)
                    }
                },
            }
        }),
        gc::cache_step(CacheItem::Unreadable, cutoff, dry_run) == CacheStep::Ignore,
        gc::cache_step(CacheItem::NoDirectory, cutoff, dry_run) == CacheStep::Ignore,
{
}

/// The same, for an entry whose time of last use was read already.
pub proof fn law_entry_is_judged(
    last_used: Option<Timestamp>,
    in_use: bool,
    cutoff: Timestamp,
    dry_run: bool,
)
    ensures
        ({
            let t = match last_used {
                Some(t) => t,
                None => Timestamp { secs: (-8_334_601_228_800) as i64, nanos: 0 },
            };
            let old = last_used is None || t.secs < cutoff.secs || (t.secs == cutoff.secs && t.nanos
                < cutoff.nanos);
            let step = gc::entry_step(last_used, in_use, cutoff, dry_run);
            &&& step == CacheStep::KeepFresh(t) <==> !old
            &&& step == CacheStep::KeepInUse(t) <==> old && in_use
            &&& step == CacheStep::Report(t) <==> old && !in_use && dry_run
            &&& step == CacheStep::Evict(t) <==> old && !in_use && !dry_run
        }),
{
}

// ── Counting ─────────────────────────────────────────────────────────────────────────────
/// Looking at something in the cache counts it as scanned if it is an entry, as skipped if it
/// cannot be read or is kept for being in use, and as evicted if a dry run reports it.
pub proof fn law_cache_visit_counts(c: Counts, item: CacheItem, cutoff: Timestamp, dry_run: bool)
    ensures
        ({
            let step = gc::cache_step(item, cutoff, dry_run);
            let after = gc::cache_visited(c, item, step);
            &&& after.cache_scanned == c.cache_scanned + (if item is Entry {
                1int
            } else {
                0
            })
            &&& after.skipped == c.skipped + (if item is Unreadable || step is KeepInUse {
                1int
            } else {
                0
            })
            &&& after.cache_evicted == c.cache_evicted + (if step is Report {
                1int
            } else {
                0
            })
            &&& after.cache_bytes_freed == c.cache_bytes_freed
            &&& after.volumes_scanned == c.volumes_scanned
            &&& after.volumes_removed == c.volumes_removed
            &&& after.compose_files_removed == c.compose_files_removed
        }),
{
}

/// An eviction that succeeds counts as one and frees its bytes, and one that fails is skipped.
pub proof fn law_eviction_counts(c: Counts, bytes: u64)
    ensures
        ({
            let after = gc::cache_settled(c, Eviction::Freed(bytes));
            &&& after.cache_evicted == c.cache_evicted + 1
            &&& after.cache_bytes_freed == c.cache_bytes_freed + bytes
            &&& after.skipped == c.skipped
            &&& after.cache_scanned == c.cache_scanned
            &&& after.volumes_scanned == c.volumes_scanned
            &&& after.volumes_removed == c.volumes_removed
            &&& after.compose_files_removed == c.compose_files_removed
        }),
        gc::cache_settled(c, Eviction::Failed) == (Counts { skipped: c.skipped + 1, ..c }),
{
}

/// Looking at a shadow volume counts it as scanned, and as skipped if it cannot be inspected.
/// Removing it counts it as removed, or as skipped if that fails.
pub proof fn law_volume_visit_counts(
    c: Counts,
    created: Option<Timestamp>,
    cutoff: Timestamp,
    dry_run: bool,
)
    ensures
        ({
            let after = gc::volume_visited(c, gc::volume_step(created, cutoff, dry_run));
            &&& after.volumes_scanned == c.volumes_scanned + 1
            &&& after.skipped == c.skipped + (if created is None {
                1int
            } else {
                0
            })
            &&& after.volumes_removed == c.volumes_removed
            &&& after.cache_scanned == c.cache_scanned
            &&& after.cache_evicted == c.cache_evicted
            &&& after.cache_bytes_freed == c.cache_bytes_freed
            &&& after.compose_files_removed == c.compose_files_removed
        }),
        gc::volume_settled(c, true) == (Counts { volumes_removed: c.volumes_removed + 1, ..c }),
        gc::volume_settled(c, false) == (Counts { skipped: c.skipped + 1, ..c }),
{
}

/// A rewritten compose file counts as removed once it is, or once a dry run reports it, and
/// changes no other count.
pub proof fn law_compose_visit_counts(
    c: Counts,
    name: Seq<char>,
    modified: Option<Timestamp>,
    cutoff: Timestamp,
    dry_run: bool,
)
    ensures
        ({
            let step = gc::compose_step(name, modified, cutoff, dry_run);
            let one_more = Counts { compose_files_removed: c.compose_files_removed + 1, ..c };
            &&& step == RemovalStep::Report ==> gc::compose_visited(c, step) == one_more
            &&& step != RemovalStep::Report ==> gc::compose_visited(c, step) == c
            &&& gc::compose_settled(c, true) == one_more
            &&& gc::compose_settled(c, false) == c
        }),
{
}

/// A pass begins with nothing counted, and every count has room up to the largest number.
pub proof fn law_counts_begin_at_zero(c: Counts)
    ensures
        ({
            let zero = gc::no_counts();
            &&& zero.cache_scanned == 0 && zero.cache_evicted == 0 && zero.cache_bytes_freed == 0
            &&& zero.volumes_scanned == 0 && zero.volumes_removed == 0
            &&& zero.compose_files_removed == 0 && zero.skipped == 0
        }),
        gc::room(c) <==> {
            &&& c.cache_scanned < usize::MAX && c.cache_evicted < usize::MAX
            &&& c.volumes_scanned < usize::MAX && c.volumes_removed < usize::MAX
            &&& c.compose_files_removed < usize::MAX && c.skipped < usize::MAX
        },
{
}

/// The statistics on one line show each count in its place: the cache, then the volumes, then the
/// compose files and what was skipped.
pub proof fn law_counts_are_shown(c: Counts)
    ensures
        ({
            let cache = "cache: "@ + text::decimal_text(c.cache_evicted) + "/"@
                + text::decimal_text(c.cache_scanned) + " evicted ("@ + gc::size_text(
                c.cache_bytes_freed,
            ) + " freed)"@;
            let volumes = "volumes: "@ + text::decimal_text(c.volumes_removed) + "/"@
                + text::decimal_text(c.volumes_scanned) + " removed"@;
            let files = "compose: "@ + text::decimal_text(c.compose_files_removed) + " removed"@;
            let skipped = text::decimal_text(c.skipped) + " skipped"@;
            gc::counts_text(c) == cache + " | "@ + volumes + " | "@ + files + " | "@ + skipped
        }),
{
    reveal_strlit(" | ");
    reveal_strlit(" freed)");
    reveal_strlit(" freed) | volumes: ");
    reveal_strlit("volumes: ");
    reveal_strlit(" removed");
    reveal_strlit("compose: ");
    reveal_strlit(" removed | compose: ");
    reveal_strlit(" removed | ");
    assert(" freed) | volumes: "@ =~= " freed)"@ + " | "@ + "volumes: "@);
    assert(" removed | compose: "@ =~= " removed"@ + " | "@ + "compose: "@);
    assert(" removed | "@ =~= " removed"@ + " | "@);
    let cache = "cache: "@ + text::decimal_text(c.cache_evicted) + "/"@ + text::decimal_text(
        c.cache_scanned,
    ) + " evicted ("@ + gc::size_text(c.cache_bytes_freed) + " freed)"@;
    let volumes = "volumes: "@ + text::decimal_text(c.volumes_removed) + "/"@ + text::decimal_text(
        c.volumes_scanned,
    ) + " removed"@;
    let files = "compose: "@ + text::decimal_text(c.compose_files_removed) + " removed"@;
    let skipped = text::decimal_text(c.skipped) + " skipped"@;
    assert(gc::counts_text(c) =~= cache + " | "@ + volumes + " | "@ + files + " | "@ + skipped);
}

// ── Sizes ────────────────────────────────────────────────────────────────────────────────
/// Rounding gives the nearest integer, and the even one of two that are equally near.
pub proof fn law_half_even(a: nat, b: nat)
    requires
        b > 0,
    ensures
        ({
            let r = gc::half_even(a, b);
            &&& -(b as int) <= 2 * (r * b - a) <= b
            &&& 2 * (r * b - a) == b || 2 * (r * b - a) == -(b as int) ==> r % 2 == 0
        }),
{
    let q = a / b;
    let rest = a % b;
    vstd::arithmetic::div_mod::lemma_fundamental_div_mod(a as int, b as int);
    assert(b * q == q * b) by (nonlinear_arith);
    assert((q + 1) * b == q * b + b) by (nonlinear_arith);
}

/// Doubles lie a power of two apart: 1 up to 53 bits, and else so far that 53 bits are left.
proof fn lemma_double_step(n: nat)
    ensures
        exists|k: nat| gc::double_step(n) == vstd::arithmetic::power2::pow2(k),
        n < 0x20_0000_0000_0000 * gc::double_step(n),
        gc::double_step(n) == 1 || 0x10_0000_0000_0000 * gc::double_step(n) <= n,
        gc::double_step(n) > 0,
    decreases n,
{
    if n < 0x20_0000_0000_0000 {
        vstd::arithmetic::power2::lemma2_to64();
        assert(gc::double_step(n) == vstd::arithmetic::power2::pow2(0));
    } else {
        lemma_double_step(n / 2);
        let k = choose|k: nat| gc::double_step(n / 2) == vstd::arithmetic::power2::pow2(k);
        vstd::arithmetic::power2::lemma_pow2_unfold(k + 1);
        assert(gc::double_step(n) == vstd::arithmetic::power2::pow2(k + 1));
    }
}

/// A size is taken as the nearest double: itself below 53 bits, and else the nearest multiple of
/// the power of two that leaves 53 bits.
pub proof fn law_nearest_double(n: nat)
    ensures
        n < 0x20_0000_0000_0000 ==> gc::nearest_double(n) == n,
        exists|k: nat, m: nat|
            {
                let step = vstd::arithmetic::power2::pow2(k);
                &&& gc::nearest_double(n) == #[trigger] (m * vstd::arithmetic::power2::pow2(k))
                &&& n < 0x20_0000_0000_0000 * step
                &&& step == 1 || 0x10_0000_0000_0000 * step <= n
                &&& -(step as int) <= 2 * (m * step - n) <= step
                &&& 2 * (m * step - n) == step || 2 * (m * step - n) == -(step as int) ==> m % 2
                    == 0
            },
{
    lemma_double_step(n);
    let k = choose|k: nat| gc::double_step(n) == vstd::arithmetic::power2::pow2(k);
    let m = gc::half_even(n, gc::double_step(n));
    law_half_even(n, gc::double_step(n));
    assert(gc::nearest_double(n) == m * vstd::arithmetic::power2::pow2(k));
    if n < 0x20_0000_0000_0000 {
        assert(gc::double_step(n) == 1);
        assert(n / 1 == n && n % 1 == 0);
    }
}

/// A size below a kilobyte is shown in bytes. Above, the largest unit that fits is taken, and the
/// size is shown in tenths of it, rounded to the nearest one, and to the even one of two that are
/// equally near.
pub proof fn law_size_text(bytes: nat)
    ensures
        bytes < 1024 ==> gc::size_text(bytes) == text::decimal_text(bytes) + " B"@,
        bytes >= 1024 ==> exists|tenths: nat|
            {
                let unit: int = if bytes >= 1_073_741_824 {
                    1_073_741_824
                } else if bytes >= 1_048_576 {
                    1_048_576
                } else {
                    1024
                };
                let name = if bytes >= 1_073_741_824 {
                    " GB"@
                } else if bytes >= 1_048_576 {
                    " MB"@
                } else {
                    " KB"@
                };
                let off = tenths * unit - gc::nearest_double(bytes) * 10;
                &&& gc::size_text(bytes) == #[trigger] text::decimal_text(tenths / 10) + "."@
                    + text::decimal_text(tenths % 10) + name
                &&& -unit <= 2 * off <= unit
                &&& 2 * off == unit || 2 * off == -unit ==> tenths % 2 == 0
            },
{
    if bytes >= 1024 {
        let unit: nat = if bytes >= 1_073_741_824 {
            1_073_741_824
        } else if bytes >= 1_048_576 {
            1_048_576
        } else {
            1024
        };
        let tenths = gc::half_even(gc::nearest_double(bytes) * 10, unit);
        law_half_even(gc::nearest_double(bytes) * 10, unit);
        assert(gc::size_text(bytes) == text::decimal_text(tenths / 10) + "."@ + text::decimal_text(
            tenths % 10,
        ) + if bytes >= 1_073_741_824 {
            " GB"@
        } else if bytes >= 1_048_576 {
            " MB"@
        } else {
            " KB"@
        });
    }
}

/// The size of a tree is that of all files in it, however deep: a file has its own, and a
/// directory that of what is in it, each thing counted once.
pub proof fn law_tree_size(
    bytes: u64,
    items: Vec<gc::FileTree>,
    a: Seq<gc::FileTree>,
    b: Seq<gc::FileTree>,
    t: gc::FileTree,
)
    ensures
        gc::tree_size(gc::FileTree::File(bytes)) == bytes,
        gc::tree_size(gc::FileTree::Directory(items)) == gc::trees_size(items@),
        gc::trees_size(Seq::empty()) == 0,
        gc::trees_size(seq![t]) == gc::tree_size(t),
        gc::trees_size(a + b) == gc::trees_size(a) + gc::trees_size(b),
    decreases b.len(),
{
    let none = Seq::<gc::FileTree>::empty();
    assert(seq![t].drop_last() =~= none);
    assert(gc::trees_size(none) == 0);
    if b.len() == 0 {
        assert(a + b =~= a);
    } else {
        assert((a + b).drop_last() =~= a + b.drop_last());
        law_tree_size(bytes, items, a, b.drop_last(), t);
    }
}

// ── What Docker says, and is asked ───────────────────────────────────────────────────────
/// The time of creation is read in the first of three formats that fits, and is not known if and
/// only if none does. White space around it does not count.
pub proof fn law_created_at(a: Seq<char>, t: Seq<char>, b: Seq<char>)
    requires
        forall|i: int| 0 <= i < a.len() ==> text::white_space(#[trigger] a[i]),
        forall|i: int| 0 <= i < b.len() ==> text::white_space(#[trigger] b[i]),
        t.len() > 0 ==> !text::white_space(t[0]) && !text::white_space(t.last()),
    ensures
        ({
            let first = timestamp::rfc3339_parsed(t);
            let second = timestamp::format_parsed(t, "%Y-%m-%d %H:%M:%S %z"@);
            let third = timestamp::format_parsed(t, "%Y-%m-%d %H:%M:%S %z %Z"@);
            let read = gc::created_at(a + t + b);
            &&& first is Some ==> read == first
            &&& first is None && second is Some ==> read == second
            &&& first is None && second is None ==> read == third
        }),
{
    text::law_trimmed(a, t, b);
}

/// The seconds and nanoseconds that were read are those of the time.
pub proof fn law_stamp(secs: i64, nanos: u32)
    ensures
        timestamp::stamp(Some((secs, nanos))) == Some(Timestamp { secs, nanos }),
        timestamp::stamp(None) is None,
        timestamp::earliest() == (Timestamp { secs: (-8_334_601_228_800) as i64, nanos: 0 }),
{
}

/// Every line of a list gives its name without the white space around it, in order, and a line of
/// white space gives none.
pub proof fn law_names_in(before: Seq<Seq<char>>, line: Seq<char>, after: Seq<Seq<char>>)
    ensures
        gc::names_in(before + after) == gc::names_in(before) + gc::names_in(after),
        gc::names_in(Seq::empty()).len() == 0,
        text::trimmed(line).len() == 0 ==> gc::names_in(seq![line]).len() == 0,
        text::trimmed(line).len() > 0 ==> gc::names_in(seq![line]) == seq![text::trimmed(line)],
    decreases after.len(),
{
    let none = Seq::<Seq<char>>::empty();
    assert(gc::names_in(none) == none);
    assert(seq![line].drop_last() =~= none);
    if text::trimmed(line).len() > 0 {
        assert(gc::names_in(seq![line]) =~= seq![text::trimmed(line)]);
    }
    if after.len() == 0 {
        assert(before + after =~= before);
        assert(gc::names_in(before) + gc::names_in(after) =~= gc::names_in(before));
    } else {
        let front = after.drop_last();
        assert((before + after).drop_last() =~= before + front);
        assert((before + after).last() == after.last());
        law_names_in(before, line, front);
        assert(gc::names_in(before + after) =~= gc::names_in(before) + gc::names_in(after));
    }
}

/// A list of names, one on each line, is read back, whatever their number.
pub proof fn law_listed_volume_is_read(output: Seq<char>, name: Seq<char>)
    requires
        forall|i: int| 0 <= i < name.len() ==> !text::white_space(#[trigger] name[i]),
        name.len() > 0,
    ensures
        gc::names_in(text::split(output + seq!['\n'] + name, '\n')) == gc::names_in(
            text::split(output, '\n'),
        ).push(name),
{
    assert forall|i: int| 0 <= i < name.len() implies name[i] != '\n' by {
        assert(!text::white_space(name[i]));
    }
    text::law_split_at_separator(output, name, '\n');
    text::law_split_without_separator(name, '\n');
    law_names_in(text::split(output, '\n'), name, seq![name]);
    text::law_trimmed(Seq::empty(), name, Seq::empty());
    assert(Seq::<char>::empty() + name + Seq::<char>::empty() =~= name);
    assert(gc::names_in(text::split(output, '\n')) + seq![name] =~= gc::names_in(
        text::split(output, '\n'),
    ).push(name));
}

/// Docker is asked for the volumes whose names hold the delimiter that scoping puts there, and of
/// a volume by exactly its name.
pub proof fn law_docker_is_asked(name: String, scope: Seq<char>)
    ensures
        ({
            let list = gc::query_arguments(gc::VolumeQuery::List);
            let created = gc::query_arguments(gc::VolumeQuery::Created(name));
            let remove = gc::query_arguments(gc::VolumeQuery::Remove(name));
            &&& list.len() == 6 && created.len() == 5 && remove.len() == 3
            &&& list[0] == "volume"@ && created[0] == "volume"@ && remove[0] == "volume"@
            &&& list[1] == "ls"@ && list[2] == "--filter"@ && list[4] == "--format"@ && list[5]
                == "{{.Name}}"@
            &&& docker_proxy::suffix(scope) == list[3].skip(5) + scope
            &&& list[3].take(5) == "name="@
            &&& created[1] == "inspect"@ && created[2] == name@ && created[3] == "--format"@
                && created[4] == "{{.CreatedAt}}"@
            &&& remove[1] == "rm"@ && remove[2] == name@
        }),
{
    reveal_strlit("name=--warp--");
    reveal_strlit("name=");
    reveal_strlit("--warp--");
    assert("name=--warp--"@.take(5) =~= "name="@);
    assert("name=--warp--"@.skip(5) =~= "--warp--"@);
}

/// A phase walks through what was listed, and gives the pass up only where the cache or the
/// compose files are there and cannot be listed. Docker may be missing.
pub proof fn law_phases(phase: gc::Phase, listing: gc::Listing)
    ensures
        gc::phase_step(phase, listing) == gc::PhaseStep::Walk <==> listing == gc::Listing::Listed,
        gc::phase_step(phase, listing) == gc::PhaseStep::Abort <==> listing == gc::Listing::Failed
            && phase != gc::Phase::Volumes,
{
}

/// The statistics of a pass as numbers are those that were counted.
pub proof fn law_counts_view(stats: gc::GcStats)
    ensures
        stats@.cache_scanned == stats.cache_scanned,
        stats@.cache_evicted == stats.cache_evicted,
        stats@.cache_bytes_freed == stats.cache_bytes_freed,
        stats@.volumes_scanned == stats.volumes_scanned,
        stats@.volumes_removed == stats.volumes_removed,
        stats@.compose_files_removed == stats.compose_files_removed,
        stats@.skipped == stats.skipped,
{
}

} // verus!
