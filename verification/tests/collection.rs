//! Garbage collection.

use git_warp::gc::{
    begin_phase, cache_entry_removed, compose_file_removed, cutoff, dir_size_bytes,
    docker_arguments,
    human_bytes,
    is_compose_name, judge_entry, parse_volume_created, parse_volume_list, read_last_used,
    visit_cache_item, visit_compose_file, visit_volume, volume_removed, CacheItem, CacheStep,
    Eviction, FileTree, GcStats, Listing, Phase, PhaseStep, RemovalStep, VolumeQuery,
};
use git_warp::symlink_manager::last_used_mark;
use git_warp::timestamp::{Timestamp, MAX_SECS, MIN_SECS};

const NOW: Timestamp = Timestamp {
    secs: 1_780_142_400,
    nanos: 250_000_000,
};

fn days_ago(days: u64) -> Timestamp {
    NOW.days_back(days).unwrap()
}

fn item(last_used: Option<String>) -> CacheItem {
    CacheItem::Entry {
        last_used,
        in_use: false,
    }
}

/// A walk through the cache in which every eviction frees 15 bytes.
fn walk(items: &[CacheItem], max_age_days: u64, dry_run: bool) -> (GcStats, Vec<usize>) {
    let cutoff = days_ago(max_age_days);
    let mut stats = GcStats::default();
    let mut kept = Vec::new();
    for (i, item) in items.iter().enumerate() {
        assert!(stats.has_room());
        match visit_cache_item(&mut stats, item, cutoff, dry_run) {
            CacheStep::Evict(_) => cache_entry_removed(&mut stats, Eviction::Freed(15)),
            _ => kept.push(i),
        }
    }
    (stats, kept)
}

// ── Reading times ────────────────────────────────────────────────────────────────────────

#[test]
fn parse_last_used_valid() {
    let ts = read_last_used("2026-05-30T12:00:00Z").unwrap();
    assert_eq!(ts.secs, 1_780_142_400);
    assert_eq!(ts.nanos, 0);
    let ts = read_last_used("  2026-05-30T12:00:00.5+05:30\n").unwrap();
    assert_eq!(ts.secs, 1_780_122_600);
    assert_eq!(ts.nanos, 500_000_000);
}

#[test]
fn parse_last_used_missing() {
    let mut stats = GcStats::default();
    let step = visit_cache_item(&mut stats, &item(None), days_ago(7), false);
    assert_eq!(step, CacheStep::Evict(Timestamp::earliest()));
}

#[test]
fn parse_last_used_invalid() {
    let e = read_last_used(" not a timestamp ").unwrap_err();
    assert_eq!(e.text, "not a timestamp");
    let mut stats = GcStats::default();
    let bad = item(Some("not a timestamp".to_string()));
    let step = visit_cache_item(&mut stats, &bad, days_ago(7), false);
    assert_eq!(step, CacheStep::Evict(Timestamp::earliest()));
}

#[test]
fn mark_is_read_back() {
    let mark = last_used_mark(NOW);
    assert_eq!(mark, "2026-05-30T12:00:00.250+00:00");
    assert_eq!(read_last_used(&mark).unwrap(), NOW);
    let whole = Timestamp { secs: 0, nanos: 0 };
    assert_eq!(last_used_mark(whole), "1970-01-01T00:00:00+00:00");
    assert_eq!(read_last_used(&last_used_mark(whole)).unwrap(), whole);
    let odd = Timestamp {
        secs: -1,
        nanos: 123_456_789,
    };
    assert_eq!(read_last_used(&last_used_mark(odd)).unwrap(), odd);
}

#[test]
fn mark_beyond_four_digits_is_not_read_back() {
    let late = Timestamp {
        secs: 253_402_300_800,
        nanos: 0,
    };
    assert_eq!(last_used_mark(late), "+10000-01-01T00:00:00+00:00");
    assert!(read_last_used(&last_used_mark(late)).is_err());
    let last = Timestamp {
        secs: 253_402_300_799,
        nanos: 0,
    };
    assert_eq!(read_last_used(&last_used_mark(last)).unwrap(), last);
    let first = Timestamp {
        secs: -62_167_219_200,
        nanos: 0,
    };
    assert_eq!(last_used_mark(first), "0000-01-01T00:00:00+00:00");
    assert_eq!(read_last_used(&last_used_mark(first)).unwrap(), first);
}

#[test]
fn times_reach_as_far_as_the_calendar() {
    let first = chrono::DateTime::<chrono::Utc>::MIN_UTC;
    assert_eq!(Timestamp::earliest().secs, first.timestamp());
    assert_eq!(Timestamp::earliest().nanos, first.timestamp_subsec_nanos());
    assert_eq!(MIN_SECS, first.timestamp());
    assert_eq!(MAX_SECS, chrono::DateTime::<chrono::Utc>::MAX_UTC.timestamp());
    let edge = Timestamp {
        secs: MIN_SECS,
        nanos: 0,
    };
    assert_eq!(last_used_mark(edge), first.to_rfc3339());
}

#[test]
fn days_back_is_what_the_calendar_says() {
    let now = chrono::DateTime::from_timestamp(NOW.secs, NOW.nanos).unwrap();
    for days in [0i64, 1, 7, 30, 3_650, 700_000] {
        let then = now - chrono::Duration::days(days);
        let t = days_ago(days as u64);
        assert_eq!(t.secs, then.timestamp());
        assert_eq!(t.nanos, then.timestamp_subsec_nanos());
    }
    for days in [1_000_000_000, i64::MAX as u64, 1u64 << 63, u64::MAX] {
        assert!(NOW.days_back(days).is_none());
    }
}

#[test]
fn limit_never_lies_after_now() {
    assert_eq!(cutoff(NOW, 0), NOW);
    assert_eq!(cutoff(NOW, 7), days_ago(7));
    for days in [1_000_000_000, i64::MAX as u64, (1u64 << 63) + 1, u64::MAX] {
        let limit = cutoff(NOW, days);
        assert_eq!(limit, Timestamp::earliest());
        // What was used now stays, and so does everything else whose last use is known.
        for used in [NOW, days_ago(30_000), Timestamp::earliest()] {
            assert_eq!(
                judge_entry(Some(used), false, limit, false),
                CacheStep::KeepFresh(used)
            );
        }
        // Without a known use an entry is infinitely old.
        assert_eq!(
            judge_entry(None, false, limit, false),
            CacheStep::Evict(Timestamp::earliest())
        );
    }
}

#[test]
fn larger_age_keeps_more() {
    let mut last = NOW;
    for days in [0, 1, 7, 365, 700_000, 1 << 40, u64::MAX] {
        let limit = cutoff(NOW, days);
        assert!(!last.is_before(&limit));
        last = limit;
    }
}

#[test]
fn times_are_ordered() {
    let a = Timestamp { secs: 1, nanos: 5 };
    let b = Timestamp { secs: 1, nanos: 6 };
    let c = Timestamp { secs: 2, nanos: 0 };
    assert!(a.is_before(&b) && b.is_before(&c) && a.is_before(&c));
    assert!(!a.is_before(&a) && !b.is_before(&a) && !c.is_before(&b));
}

#[test]
fn volume_times_in_all_formats() {
    let expected = Timestamp {
        secs: 1_780_122_600,
        nanos: 0,
    };
    for output in [
        "2026-05-30T12:00:00+05:30",
        "2026-05-30T12:00:00+05:30\n",
        "2026-05-30 12:00:00 +0530",
        "2026-05-30 12:00:00 +0530 IST",
        "2026-05-30T06:30:00Z",
    ] {
        assert_eq!(parse_volume_created(output).unwrap(), expected, "{}", output);
    }
    let e = parse_volume_created(" yesterday\n").unwrap_err();
    assert_eq!(e.text, "yesterday");
    assert!(parse_volume_created("").is_err());
    assert!(parse_volume_created("2026-05-30 12:00:00").is_err());
}

#[test]
fn volume_list_is_read_line_by_line() {
    assert_eq!(
        parse_volume_list("a--warp--main\r\n  b--warp--x  \n\n \nc"),
        vec!["a--warp--main", "b--warp--x", "c"]
    );
    assert!(parse_volume_list("").is_empty());
    assert!(parse_volume_list("\n \n").is_empty());
}

// ── Cache GC ─────────────────────────────────────────────────────────────────────────────

#[test]
fn gc_evicts_old_cache_entries() {
    let old = item(Some(last_used_mark(days_ago(30))));
    let new = item(Some(last_used_mark(days_ago(1))));

    let (stats, kept) = walk(&[old, new], 7, false);

    assert_eq!(stats.cache_scanned, 2);
    assert_eq!(stats.cache_evicted, 1);
    assert!(stats.cache_bytes_freed > 0);
    assert_eq!(stats.cache_bytes_freed, 15);
    // The old entry is gone, the fresh one remains.
    assert_eq!(kept, vec![1]);
}

#[test]
fn gc_dry_run_doesnt_delete() {
    let (stats, kept) = walk(&[item(Some(last_used_mark(days_ago(30))))], 7, true);
    assert_eq!(stats.cache_evicted, 1);
    assert_eq!(stats.cache_bytes_freed, 0);
    assert_eq!(kept, vec![0]);
}

#[test]
fn gc_empty_cache() {
    let (stats, _) = walk(&[], 7, false);
    assert_eq!(stats.cache_scanned, 0);
    assert_eq!(stats.cache_evicted, 0);
}

#[test]
fn gc_never_evicts_an_entry_in_use() {
    for last_used in [None, Some(last_used_mark(days_ago(300)))] {
        let entry = CacheItem::Entry {
            last_used,
            in_use: true,
        };
        let (stats, kept) = walk(&[entry], 7, false);
        assert_eq!(kept, vec![0]);
        assert_eq!(stats.cache_scanned, 1);
        assert_eq!(stats.cache_evicted, 0);
        assert_eq!(stats.skipped, 1);
    }
}

#[test]
fn gc_skips_what_it_cannot_read() {
    let (stats, _) = walk(&[CacheItem::Unreadable, CacheItem::NoDirectory], 7, false);
    assert_eq!(stats.cache_scanned, 0);
    assert_eq!(stats.skipped, 1);
}

#[test]
fn gc_counts_failed_evictions_as_skipped() {
    let mut stats = GcStats::default();
    let step = visit_cache_item(&mut stats, &item(None), days_ago(7), false);
    assert!(matches!(step, CacheStep::Evict(_)));
    cache_entry_removed(&mut stats, Eviction::Failed);
    assert_eq!(stats.cache_scanned, 1);
    assert_eq!(stats.cache_evicted, 0);
    assert_eq!(stats.skipped, 1);
}

#[test]
fn gc_limit_is_exact() {
    let cutoff = days_ago(7);
    let just_before = Timestamp {
        secs: cutoff.secs,
        nanos: cutoff.nanos - 1,
    };
    assert_eq!(
        judge_entry(Some(cutoff), false, cutoff, false),
        CacheStep::KeepFresh(cutoff)
    );
    assert_eq!(
        judge_entry(Some(just_before), false, cutoff, false),
        CacheStep::Evict(just_before)
    );
    assert_eq!(
        judge_entry(Some(just_before), false, cutoff, true),
        CacheStep::Report(just_before)
    );
    assert_eq!(
        judge_entry(Some(just_before), true, cutoff, true),
        CacheStep::KeepInUse(just_before)
    );
}

#[test]
fn dry_run_reports_what_a_run_removes() {
    let items = [
        item(None),
        item(Some(last_used_mark(days_ago(8)))),
        item(Some(last_used_mark(days_ago(6)))),
        CacheItem::Entry {
            last_used: None,
            in_use: true,
        },
        CacheItem::NoDirectory,
    ];
    let (real, _) = walk(&items, 7, false);
    let (dry, kept) = walk(&items, 7, true);
    assert_eq!(real.cache_evicted, 2);
    assert_eq!(dry.cache_evicted, 2);
    assert_eq!(dry.cache_scanned, 4);
    assert_eq!(dry.cache_bytes_freed, 0);
    assert_eq!(kept.len(), items.len());
}

#[test]
fn later_limit_removes_more() {
    let items: Vec<CacheItem> = (0..10)
        .map(|d| item(Some(last_used_mark(days_ago(d)))))
        .collect();
    let mut evicted = 0;
    for days in (0..12).rev() {
        let (stats, _) = walk(&items, days, false);
        assert!(stats.cache_evicted >= evicted);
        assert_eq!(stats.cache_evicted as u64, 9u64.saturating_sub(days));
        evicted = stats.cache_evicted;
    }
}

// ── Shadow volumes ───────────────────────────────────────────────────────────────────────

#[test]
fn gc_removes_stale_volumes() {
    let mut stats = GcStats::default();
    let cutoff = days_ago(7);
    assert_eq!(
        visit_volume(&mut stats, Some(days_ago(8)), cutoff, false),
        RemovalStep::Remove
    );
    volume_removed(&mut stats, true);
    assert_eq!(
        visit_volume(&mut stats, Some(days_ago(8)), cutoff, false),
        RemovalStep::Remove
    );
    volume_removed(&mut stats, false);
    assert_eq!(
        visit_volume(&mut stats, Some(days_ago(6)), cutoff, false),
        RemovalStep::Keep
    );
    assert_eq!(
        visit_volume(&mut stats, None, cutoff, false),
        RemovalStep::Ignore
    );
    assert_eq!(
        visit_volume(&mut stats, Some(days_ago(8)), cutoff, true),
        RemovalStep::Report
    );
    assert_eq!(stats.volumes_scanned, 5);
    assert_eq!(stats.volumes_removed, 1);
    assert_eq!(stats.skipped, 2);
}

#[test]
fn docker_is_asked_about_volumes() {
    assert_eq!(
        docker_arguments(&VolumeQuery::List),
        vec!["volume", "ls", "--filter", "name=--warp--", "--format", "{{.Name}}"]
    );
    assert_eq!(
        docker_arguments(&VolumeQuery::Created("a--warp--b".to_string())),
        vec!["volume", "inspect", "a--warp--b", "--format", "{{.CreatedAt}}"]
    );
    assert_eq!(
        docker_arguments(&VolumeQuery::Remove("a--warp--b".to_string())),
        vec!["volume", "rm", "a--warp--b"]
    );
}

// ── Compose files ────────────────────────────────────────────────────────────────────────

#[test]
fn gc_compose_files_cleaned() {
    let mut stats = GcStats::default();
    let name = "docker-compose--main--abc123.yml";
    let earlier = Timestamp {
        secs: NOW.secs,
        nanos: NOW.nanos - 1,
    };
    // With a limit of no days everything that is there is stale.
    let step = visit_compose_file(&mut stats, name, Some(earlier), days_ago(0), false);
    assert_eq!(step, RemovalStep::Remove);
    compose_file_removed(&mut stats, true);
    assert_eq!(stats.compose_files_removed, 1);

    assert_eq!(
        visit_compose_file(&mut stats, name, Some(earlier), days_ago(0), true),
        RemovalStep::Report
    );
    assert_eq!(stats.compose_files_removed, 2);
    assert_eq!(
        visit_compose_file(&mut stats, name, Some(earlier), days_ago(7), false),
        RemovalStep::Keep
    );
    assert_eq!(
        visit_compose_file(&mut stats, name, None, days_ago(7), false),
        RemovalStep::Ignore
    );
    assert_eq!(
        visit_compose_file(&mut stats, "notes.txt", Some(days_ago(90)), days_ago(7), false),
        RemovalStep::Ignore
    );
    compose_file_removed(&mut stats, false);
    assert_eq!(stats.compose_files_removed, 2);
    assert_eq!(stats.skipped, 0);
}

#[test]
fn dry_pass_foretells_a_pass() {
    let limit = days_ago(7);
    let cache = [
        item(None),
        item(Some(last_used_mark(days_ago(8)))),
        item(Some(last_used_mark(days_ago(6)))),
    ];
    let volumes = [Some(days_ago(9)), None, Some(days_ago(1))];
    let files = [("a.yml", days_ago(8)), ("b.yml", days_ago(1)), ("c.txt", days_ago(8))];
    let pass = |dry_run: bool| {
        let mut stats = GcStats::default();
        for item in &cache {
            if let CacheStep::Evict(_) = visit_cache_item(&mut stats, item, limit, dry_run) {
                cache_entry_removed(&mut stats, Eviction::Freed(15));
            }
        }
        for created in volumes {
            if visit_volume(&mut stats, created, limit, dry_run) == RemovalStep::Remove {
                volume_removed(&mut stats, true);
            }
        }
        for (name, modified) in files {
            let step = visit_compose_file(&mut stats, name, Some(modified), limit, dry_run);
            if step == RemovalStep::Remove {
                compose_file_removed(&mut stats, true);
            }
        }
        stats
    };
    let (dry, real) = (pass(true), pass(false));
    assert_eq!(dry.cache_evicted, 2);
    assert_eq!(dry.cache_evicted, real.cache_evicted);
    assert_eq!(dry.compose_files_removed, 1);
    assert_eq!(dry.compose_files_removed, real.compose_files_removed);
    assert_eq!(dry.cache_bytes_freed, 0);
    assert_eq!(dry.volumes_removed, 0);
    assert_eq!(real.cache_bytes_freed, 30);
    assert_eq!(real.volumes_removed, 1);
}

#[test]
fn compose_files_are_told_by_their_extension() {
    for name in ["a.yml", "a.b.yml", "..yml", "x--y.yml"] {
        assert!(is_compose_name(name));
        assert_eq!(
            std::path::Path::new(name).extension().and_then(|e| e.to_str()),
            Some("yml")
        );
    }
    for name in [".yml", "yml", "a.yaml", "a.YML", "a.yml.bak", "", "ayml"] {
        assert!(!is_compose_name(name));
        assert_ne!(
            std::path::Path::new(name).extension().and_then(|e| e.to_str()),
            Some("yml")
        );
    }
}

// ── Phases ───────────────────────────────────────────────────────────────────────────────

#[test]
fn phases_differ_in_what_is_fatal() {
    for phase in [Phase::Cache, Phase::Volumes, Phase::ComposeFiles] {
        assert_eq!(begin_phase(phase, Listing::Listed), PhaseStep::Walk);
        assert_eq!(begin_phase(phase, Listing::Missing), PhaseStep::Skip);
    }
    assert_eq!(begin_phase(Phase::Cache, Listing::Failed), PhaseStep::Abort);
    assert_eq!(begin_phase(Phase::Volumes, Listing::Failed), PhaseStep::Skip);
    assert_eq!(
        begin_phase(Phase::ComposeFiles, Listing::Failed),
        PhaseStep::Abort
    );
}

// ── Sizes and statistics ─────────────────────────────────────────────────────────────────

#[test]
fn format_bytes() {
    assert_eq!(human_bytes(0), "0 B");
    assert_eq!(human_bytes(500), "500 B");
    assert_eq!(human_bytes(1024), "1.0 KB");
    assert_eq!(human_bytes(1_500_000), "1.4 MB");
    assert_eq!(human_bytes(2_500_000_000), "2.3 GB");
}

#[test]
fn bytes_are_rounded_like_doubles() {
    fn by_doubles(bytes: u64) -> String {
        const KB: u64 = 1024;
        const MB: u64 = KB * 1024;
        const GB: u64 = MB * 1024;
        if bytes >= GB {
            format!("{:.1} GB", bytes as f64 / GB as f64)
        } else if bytes >= MB {
            format!("{:.1} MB", bytes as f64 / MB as f64)
        } else if bytes >= KB {
            format!("{:.1} KB", bytes as f64 / KB as f64)
        } else {
            format!("{} B", bytes)
        }
    }
    // Ties, borders of units, borders of what a double holds, and the largest number.
    let mut samples = vec![
        1023, 1024, 1075, 1076, 1280, 1331, 1332, 1434, 1536, 1792, 1_048_575, 1_048_576,
        1_073_741_823, 1_073_741_824, 1_342_177_280, 1_610_612_736, u64::MAX, u64::MAX - 1024,
        1 << 53, (1 << 53) + 1, (1 << 53) + 3, (1 << 54) + 2, (1 << 54) + 6, (1 << 63) + 1024,
        (1 << 63) + 3072,
    ];
    for k in 0..64 {
        samples.push(1u64 << k);
        samples.push((1u64 << k).wrapping_add(1u64 << (k / 2)));
        samples.push((1u64 << k) - 1);
    }
    let mut x: u64 = 0x9e37_79b9_7f4a_7c15;
    for k in 0..2000 {
        x = x.wrapping_mul(6_364_136_223_846_793_005).wrapping_add(1_442_695_040_888_963_407);
        samples.push(x >> (k % 64));
        samples.push((x >> 44) * 64 + 1024);
    }
    for bytes in samples {
        assert_eq!(human_bytes(bytes), by_doubles(bytes), "{}", bytes);
    }
}

#[test]
fn dir_size_computes_recursive() {
    let tree = FileTree::Directory(vec![
        FileTree::File(5),
        FileTree::Directory(vec![FileTree::File(6)]),
    ]);
    assert_eq!(dir_size_bytes(&tree), Some(11));
    assert_eq!(dir_size_bytes(&FileTree::Directory(vec![])), Some(0));
    assert_eq!(dir_size_bytes(&FileTree::File(7)), Some(7));
}

#[test]
fn dir_size_beyond_the_largest_number() {
    let tree = FileTree::Directory(vec![FileTree::File(u64::MAX), FileTree::File(1)]);
    assert_eq!(dir_size_bytes(&tree), None);
    let tree = FileTree::Directory(vec![FileTree::File(u64::MAX), FileTree::File(0)]);
    assert_eq!(dir_size_bytes(&tree), Some(u64::MAX));
}

#[test]
fn stats_on_one_line() {
    let stats = GcStats {
        cache_scanned: 12,
        cache_evicted: 3,
        cache_bytes_freed: 1_500_000,
        volumes_scanned: 5,
        volumes_removed: 4,
        compose_files_removed: 2,
        skipped: 1,
    };
    assert_eq!(
        stats.display(),
        "cache: 3/12 evicted (1.4 MB freed) | volumes: 4/5 removed | compose: 2 removed | 1 skipped"
    );
    assert_eq!(
        GcStats::default().display(),
        "cache: 0/0 evicted (0 B freed) | volumes: 0/0 removed | compose: 0 removed | 0 skipped"
    );
}

#[test]
fn stats_know_whether_anything_was_cleaned() {
    let mut stats = GcStats::default();
    stats.cache_scanned = 9;
    stats.skipped = 9;
    assert!(!stats.cleaned_anything());
    stats.compose_files_removed = 1;
    assert!(stats.cleaned_anything());
    stats.skipped = usize::MAX;
    assert!(!stats.has_room());
}

#[test]
fn day_of_a_time() {
    let t = Timestamp { secs: 1_780_142_400, nanos: 0 };
    assert_eq!(t.day().unwrap(), "2026-05-30");
    let before = Timestamp { secs: 1_780_099_199, nanos: 999_999_999 };
    assert_eq!(before.day().unwrap(), "2026-05-29");
    assert_eq!(Timestamp { secs: 0, nanos: 0 }.day().unwrap(), "1970-01-01");
    assert!(Timestamp { secs: i64::MAX, nanos: 0 }.day().is_none());
    assert!(Timestamp { secs: i64::MIN, nanos: 0 }.day().is_none());
    assert_eq!(Timestamp::earliest().day().unwrap(), "-262143-01-01");
}
