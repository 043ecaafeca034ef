use careen_ledger::lines::{collect_lines, LineRead};
use careen_ledger::text::{text_eq, text_less, trim_text};
use careen_ledger::clock::{rfc3339_days_before, seconds_days_before, span_seconds};
use careen_ledger::entry::{
    bits_as_i64, rebuild_entry_at, record_rebuild, record_sweep, sweep_entry_at, sweep_entry_stamped, LedgerEntry,
};
use careen_ledger::error::LedgerError;
use careen_ledger::rank::{hot_repos, rank_by_rebuilds};
use careen_ledger::report::{report, report_at, report_rows, Verdict};
use careen_ledger::select::{
    filter_entries_for_repo, filter_entries_since, filter_entries_since_at, filter_entries_since_cutoff,
};
use careen_ledger::stats::{aggregate_entries, RepoStats};

fn sweep(entries: &mut Vec<LedgerEntry>, repo: &str, target: &str, bytes: u64) {
    entries.push(record_sweep(repo, target, bytes).expect("clock"));
}

fn rebuild(entries: &mut Vec<LedgerEntry>, repo: &str, wall_secs: u64, bytes_written: u64) {
    let e = record_rebuild(entries, repo, wall_secs, bytes_written).expect("rebuild");
    entries.push(e);
}

fn stats_of<'a>(v: &'a [(String, RepoStats)], repo: &str) -> &'a RepoStats {
    &v.iter().find(|(name, _)| name == repo).expect("repo").1
}

#[test]
fn test_sweep_rebuild_net_bytes() {
    let mut entries = Vec::new();
    sweep(&mut entries, "my-repo", "/target", 10_000_000);
    rebuild(&mut entries, "my-repo", 120, 3_000_000);
    let rebuild = entries.iter().find(|e| e.event == "rebuild").expect("rebuild entry");
    assert_eq!(rebuild.net_bytes, Some(10_000_000 - 3_000_000));
}

#[test]
fn test_report_aggregation() {
    let mut entries = Vec::new();
    sweep(&mut entries, "repo-a", "/a/target", 5_000_000);
    sweep(&mut entries, "repo-a", "/a/target", 3_000_000);
    rebuild(&mut entries, "repo-a", 60, 1_000_000);
    let map = aggregate_entries(&entries).expect("totals");
    let stats = stats_of(&map, "repo-a");
    assert_eq!(stats.sweeps, 2);
    assert_eq!(stats.total_reclaimed, 8_000_000);
    assert_eq!(stats.total_rebuild_cost, 1_000_000);
    assert!(stats.net_bytes > 0);
}

#[test]
fn test_hot_repos_order() {
    let mut entries = Vec::new();
    for _ in 0..3 {
        sweep(&mut entries, "repo-frequent", "/t", 1_000);
        rebuild(&mut entries, "repo-frequent", 10, 500);
    }
    sweep(&mut entries, "repo-rare", "/t", 1_000);
    rebuild(&mut entries, "repo-rare", 10, 500);
    let repos = hot_repos(&entries, u64::MAX).expect("ranking");
    assert_eq!(repos[0].0, "repo-rare");
}

#[test]
fn sweep_entry_fields() {
    let e = sweep_entry_at("2026-01-01T00:00:00+00:00".to_string(), "r", "/r/target", 42);
    assert_eq!(e.ts, "2026-01-01T00:00:00+00:00");
    assert_eq!(e.event, "sweep");
    assert_eq!(e.repo, "r");
    assert_eq!(e.target_dir.as_deref(), Some("/r/target"));
    assert_eq!(e.bytes_reclaimed, Some(42));
    assert_eq!(e.rebuild_cost_bytes, None);
    assert_eq!(e.rebuild_wall_secs, None);
    assert_eq!(e.net_bytes, None);
}

#[test]
fn rebuild_without_prior_sweep_has_no_net() {
    let mut entries = Vec::new();
    sweep(&mut entries, "other", "/o", 9);
    let e = record_rebuild(&entries, "lonely", 7, 100).expect("rebuild");
    assert_eq!(e.event, "rebuild");
    assert_eq!(e.net_bytes, None);
    assert_eq!(e.rebuild_cost_bytes, Some(100));
    assert_eq!(e.rebuild_wall_secs, Some(7));
    assert_eq!(e.target_dir, None);
}

#[test]
fn rebuild_uses_most_recent_sweep() {
    let mut entries = Vec::new();
    sweep(&mut entries, "r", "/t", 100);
    sweep(&mut entries, "r", "/t", 40);
    let e = record_rebuild(&entries, "r", 1, 50).expect("rebuild");
    assert_eq!(e.net_bytes, Some(-10));
}

#[test]
fn rebuild_net_wraps_like_a_cast_and_overflow_is_refused() {
    let mut entries = Vec::new();
    sweep(&mut entries, "big", "/t", u64::MAX);
    // u64::MAX reads as -1 as an i64
    let e = record_rebuild(&entries, "big", 1, 1).expect("rebuild");
    assert_eq!(e.net_bytes, Some(-2));
    let mut entries = Vec::new();
    sweep(&mut entries, "edge", "/t", 0);
    // 0 - i64::MIN overflows
    assert_eq!(record_rebuild(&entries, "edge", 1, 1u64 << 63).err(), Some(LedgerError::NetOverflow));
}

#[test]
fn aggregate_orders_by_first_appearance_and_counts() {
    let mut entries = Vec::new();
    sweep(&mut entries, "b", "/b", 10);
    sweep(&mut entries, "a", "/a", 5);
    rebuild(&mut entries, "b", 3, 4);
    let v = aggregate_entries(&entries).expect("totals");
    assert_eq!(v.len(), 2);
    assert_eq!(v[0].0, "b");
    assert_eq!(v[1].0, "a");
    assert_eq!(v[0].1.sweeps, 1);
    assert_eq!(v[0].1.rebuild_count, 1);
    assert_eq!(v[0].1.total_rebuild_cost, 4);
    assert_eq!(v[0].1.net_bytes, 6);
    assert_eq!(v[1].1.rebuild_count, 0);
    assert_eq!(v[1].1.total_reclaimed, 5);
}

#[test]
fn aggregate_overflow_is_reported() {
    let mut entries = Vec::new();
    sweep(&mut entries, "x", "/x", u64::MAX);
    sweep(&mut entries, "x", "/x", 1);
    assert!(aggregate_entries(&entries).is_none());
    assert_eq!(report_rows(&entries).is_none(), true);
    assert_eq!(hot_repos(&entries, 10).err(), Some(LedgerError::TotalsOverflow));
}

#[test]
fn report_sorts_by_name_and_judges() {
    let mut entries = Vec::new();
    sweep(&mut entries, "zeta", "/z", 100);
    rebuild(&mut entries, "zeta", 1, 10);
    sweep(&mut entries, "alpha", "/a", 5);
    sweep(&mut entries, "mid", "/m", 5);
    rebuild(&mut entries, "mid", 1, 50);
    let rows = report(entries, None, None).expect("report");
    let names: Vec<&str> = rows.iter().map(|r| r.repo.as_str()).collect();
    assert_eq!(names, vec!["alpha", "mid", "zeta"]);
    assert_eq!(rows[0].verdict, Verdict::NoRebuilds);
    assert_eq!(rows[1].verdict, Verdict::NotWorthIt);
    assert_eq!(rows[2].verdict, Verdict::WorthIt);
    assert_eq!(rows[2].stats.net_bytes, 90);
}

#[test]
fn report_filters_by_repo() {
    let mut entries = Vec::new();
    sweep(&mut entries, "a", "/a", 1);
    sweep(&mut entries, "b", "/b", 2);
    let rows = report(entries, Some("b"), None).expect("report");
    assert_eq!(rows.len(), 1);
    assert_eq!(rows[0].repo, "b");
    assert_eq!(rows[0].stats.total_reclaimed, 2);
}

#[test]
fn report_since_keeps_recent_entries() {
    let mut entries = Vec::new();
    let old = sweep_entry_at("2000-01-01T00:00:00+00:00".to_string(), "old", "/o", 1);
    entries.push(old);
    sweep(&mut entries, "new", "/n", 2);
    let rows = report(entries, None, Some(7)).expect("report");
    assert_eq!(rows.len(), 1);
    assert_eq!(rows[0].repo, "new");
}

#[test]
fn since_out_of_range_is_an_error() {
    let mut entries = Vec::new();
    sweep(&mut entries, "a", "/a", 1);
    assert_eq!(report(entries, None, Some(u64::MAX / 2)).err(), Some(LedgerError::SinceOutOfRange));
}

#[test]
fn filter_since_cutoff_compares_as_text() {
    let entries = vec![
        sweep_entry_at("2024-05-01T00:00:00+00:00".to_string(), "a", "/a", 1),
        sweep_entry_at("2024-04-30T23:59:59+00:00".to_string(), "b", "/b", 1),
        sweep_entry_at("2024-05-01T00:00:00.5+00:00".to_string(), "c", "/c", 1),
    ];
    let kept = filter_entries_since_cutoff(entries, "2024-05-01T00:00:00+00:00");
    let names: Vec<&str> = kept.iter().map(|e| e.repo.as_str()).collect();
    assert_eq!(names, vec!["a", "c"]);
}

#[test]
fn filter_since_none_keeps_all_and_repo_none_keeps_all() {
    let entries = vec![
        sweep_entry_at("1".to_string(), "a", "/a", 1),
        sweep_entry_at("2".to_string(), "b", "/b", 1),
    ];
    let kept = filter_entries_since(entries, None).expect("kept");
    assert_eq!(kept.len(), 2);
    let kept = filter_entries_for_repo(kept, None);
    assert_eq!(kept.len(), 2);
    let kept = filter_entries_for_repo(kept, Some("a"));
    assert_eq!(kept.len(), 1);
}

#[test]
fn hot_repos_takes_top_fewest_rebuilds() {
    let mut entries = Vec::new();
    for (repo, n) in [("three", 3), ("none", 0), ("one", 1), ("two", 2)] {
        sweep(&mut entries, repo, "/t", 10);
        for _ in 0..n {
            rebuild(&mut entries, repo, 1, 1);
        }
    }
    let top = hot_repos(&entries, 2).expect("ranking");
    let names: Vec<&str> = top.iter().map(|(r, _)| r.as_str()).collect();
    assert_eq!(names, vec!["none", "one"]);
    assert_eq!(top[1].1.rebuild_count, 1);
    assert_eq!(hot_repos(&entries, 0).expect("ranking").len(), 0);
    assert_eq!(hot_repos(&entries, 10).expect("ranking").len(), 4);
}

#[test]
fn rank_by_rebuilds_is_ascending() {
    let mut v = Vec::new();
    for (name, c) in [("a", 5u64), ("b", 1), ("c", 3)] {
        let mut s = RepoStats::new();
        s.rebuild_count = c;
        v.push((name.to_string(), s));
    }
    let r = rank_by_rebuilds(v, 3);
    let counts: Vec<u64> = r.iter().map(|(_, s)| s.rebuild_count).collect();
    assert_eq!(counts, vec![1, 3, 5]);
}

#[test]
fn repo_stats_new_is_zero() {
    let s = RepoStats::new();
    assert_eq!((s.sweeps, s.total_reclaimed, s.total_rebuild_cost, s.net_bytes, s.rebuild_count), (0, 0, 0, 0, 0));
}

#[test]
fn text_order_is_byte_order() {
    assert!(text_less("a", "b"));
    assert!(text_less("ab", "abc"));
    assert!(!text_less("abc", "ab"));
    assert!(!text_less("x", "x"));
    assert!(text_less("Z", "a"));
    assert!(text_less("é", "ê"));
    assert!(text_eq("same", "same"));
    assert!(!text_eq("same", "Same"));
}

#[test]
fn line_numbers_of_skipped_lines() {
    let lines: Vec<LineRead<u8>> = vec![
        LineRead::Blank,
        LineRead::Corrupt("bad".to_string()),
        LineRead::Parsed(7),
        LineRead::Corrupt("worse".to_string()),
        LineRead::Parsed(9),
    ];
    let read = collect_lines(lines);
    assert_eq!(read.records, vec![7, 9]);
    assert_eq!(read.skipped, vec![(2, "bad".to_string()), (4, "worse".to_string())]);
}

// 2024-05-08T00:00:00Z
const MAY_8_2024: i64 = 1_715_126_400;

fn fields(s: &RepoStats) -> (u64, u64, u64, i64, u64) {
    (s.sweeps, s.total_reclaimed, s.total_rebuild_cost, s.net_bytes, s.rebuild_count)
}

fn stamped(ts: &str, repo: &str, bytes: u64) -> LedgerEntry {
    sweep_entry_at(ts.to_string(), repo, "/t", bytes)
}

#[test]
fn cutoff_is_days_before_the_reading() {
    assert_eq!(span_seconds(7), Some(604_800));
    assert_eq!(span_seconds(106_751_991_167), Some(9_223_372_036_828_800));
    assert_eq!(span_seconds(106_751_991_168), None);
    // a count of days is read as an i64, so u64::MAX is one day ahead
    assert_eq!(span_seconds(u64::MAX), Some(-86_400));
    assert_eq!(seconds_days_before(MAY_8_2024, 7), Some(MAY_8_2024 - 604_800));
    assert_eq!(seconds_days_before(i64::MIN, 1), None);
    assert_eq!(
        rfc3339_days_before(MAY_8_2024, 0, 7).as_deref(),
        Some("2024-05-01T00:00:00+00:00")
    );
    assert_eq!(
        rfc3339_days_before(MAY_8_2024, 500_000_000, 0).as_deref(),
        Some("2024-05-08T00:00:00.500+00:00")
    );
    assert_eq!(rfc3339_days_before(MAY_8_2024, 0, u64::MAX / 2), None);
    assert_eq!(rfc3339_days_before(MAY_8_2024, 0, u64::MAX).as_deref(), Some("2024-05-09T00:00:00+00:00"));
}

#[test]
fn window_at_a_reading_keeps_entries_at_or_after_the_cutoff() {
    let entries = vec![
        stamped("2024-04-30T23:59:59+00:00", "old", 1),
        stamped("2024-05-01T00:00:00+00:00", "edge", 2),
        stamped("2024-05-07T12:00:00+00:00", "new", 3),
    ];
    let kept = filter_entries_since_at(entries.clone(), MAY_8_2024, 0, Some(7)).expect("cutoff");
    let names: Vec<&str> = kept.iter().map(|e| e.repo.as_str()).collect();
    assert_eq!(names, vec!["edge", "new"]);
    let kept = filter_entries_since_at(entries.clone(), MAY_8_2024, 0, Some(1)).expect("cutoff");
    let names: Vec<&str> = kept.iter().map(|e| e.repo.as_str()).collect();
    assert_eq!(names, vec!["new"]);
    let kept = filter_entries_since_at(entries.clone(), MAY_8_2024, 0, None).expect("all");
    assert_eq!(kept.len(), 3);
    assert!(filter_entries_since_at(entries, MAY_8_2024, 0, Some(u64::MAX / 2)).is_none());
}

#[test]
fn wider_window_keeps_a_superset() {
    let entries = vec![
        stamped("2024-04-01T00:00:00+00:00", "a", 1),
        stamped("2024-05-03T00:00:00+00:00", "b", 1),
        stamped("2024-05-07T00:00:00+00:00", "c", 1),
    ];
    let narrow = filter_entries_since_at(entries.clone(), MAY_8_2024, 0, Some(2)).expect("narrow");
    let wide = filter_entries_since_at(entries.clone(), MAY_8_2024, 0, Some(30)).expect("wide");
    let narrow: Vec<&str> = narrow.iter().map(|e| e.repo.as_str()).collect();
    let wide: Vec<&str> = wide.iter().map(|e| e.repo.as_str()).collect();
    assert_eq!(narrow, vec!["c"]);
    assert_eq!(wide, vec!["b", "c"]);
}

#[test]
fn report_at_a_reading_uses_the_window_and_the_repo() {
    let entries = vec![
        stamped("2024-04-01T00:00:00+00:00", "a", 100),
        stamped("2024-05-03T00:00:00+00:00", "a", 5),
        stamped("2024-05-04T00:00:00+00:00", "b", 7),
    ];
    let rows = report_at(entries.clone(), None, Some(7), MAY_8_2024, 0).expect("report");
    assert_eq!(rows.len(), 2);
    assert_eq!(rows[0].repo, "a");
    assert_eq!(rows[0].stats.total_reclaimed, 5);
    assert_eq!(rows[1].repo, "b");
    let own = report_at(entries.clone(), Some("a"), Some(7), MAY_8_2024, 0).expect("report");
    assert_eq!(own.len(), 1);
    assert_eq!(own[0].repo, rows[0].repo);
    assert_eq!(fields(&own[0].stats), fields(&rows[0].stats));
    assert_eq!(own[0].verdict, rows[0].verdict);
    assert_eq!(
        report_at(entries, None, Some(u64::MAX / 2), MAY_8_2024, 0).err(),
        Some(LedgerError::SinceOutOfRange)
    );
}

#[test]
fn filter_since_out_of_range_is_an_error() {
    let entries = vec![stamped("2024-05-01T00:00:00+00:00", "a", 1)];
    assert_eq!(filter_entries_since(entries, Some(u64::MAX / 2)).err(), Some(LedgerError::SinceOutOfRange));
}

#[test]
fn stamped_entries_carry_the_reading_as_text() {
    let e = sweep_entry_stamped(MAY_8_2024, 0, "r", "/t", 3).expect("in range");
    assert_eq!(e.ts, "2024-05-08T00:00:00+00:00");
    assert_eq!(e.event, "sweep");
    assert_eq!(e.bytes_reclaimed, Some(3));
    assert!(sweep_entry_stamped(i64::MAX, 0, "r", "/t", 3).is_none());
    let live = record_sweep("r", "/t", 3).expect("clock");
    assert!(live.ts.starts_with("20"));
    let entries = vec![e];
    let r = rebuild_entry_at("2024-05-09T00:00:00+00:00".to_string(), &entries, "r", 2, 1).expect("net");
    assert_eq!(r.ts, "2024-05-09T00:00:00+00:00");
    assert_eq!(r.net_bytes, Some(2));
}

#[test]
fn byte_counts_read_as_signed_like_a_cast() {
    assert_eq!(bits_as_i64(5), 5);
    assert_eq!(bits_as_i64(u64::MAX), -1);
    assert_eq!(bits_as_i64(1u64 << 63), i64::MIN);
}

#[test]
fn totals_do_not_depend_on_order_or_other_repos() {
    let a = vec![stamped("1", "x", 4), stamped("2", "y", 6), stamped("3", "x", 5)];
    let b = vec![stamped("3", "x", 5), stamped("1", "x", 4), stamped("2", "y", 6)];
    let ta = aggregate_entries(&a).expect("totals");
    let tb = aggregate_entries(&b).expect("totals");
    assert_eq!(fields(stats_of(&ta, "x")), fields(stats_of(&tb, "x")));
    assert_eq!(fields(stats_of(&ta, "y")), fields(stats_of(&tb, "y")));
    let own = filter_entries_for_repo(a.clone(), Some("x"));
    let to = aggregate_entries(&own).expect("totals");
    assert_eq!(to.len(), 1);
    assert_eq!(fields(&to[0].1), fields(stats_of(&ta, "x")));
    let mut joined = a.clone();
    joined.extend(b.clone());
    let tj = aggregate_entries(&joined).expect("totals");
    assert_eq!(stats_of(&tj, "x").total_reclaimed, 18);
    assert_eq!(stats_of(&tj, "x").sweeps, 4);
    assert_eq!(stats_of(&tj, "y").total_reclaimed, 12);
}

#[test]
fn windows_reaching_before_1970_still_filter() {
    assert_eq!(rfc3339_days_before(MAY_8_2024, 0, 20_000).as_deref(), Some("1969-08-05T00:00:00+00:00"));
    assert_eq!(rfc3339_days_before(MAY_8_2024, 0, 800_000).as_deref(), Some("-0166-01-10T00:00:00+00:00"));
    assert_eq!(
        rfc3339_days_before(MAY_8_2024, 0, 90_000_000).as_deref(),
        Some("-244388-09-20T00:00:00+00:00")
    );
    let entries = vec![stamped("1960-01-01T00:00:00+00:00", "old", 1), stamped("2024-05-01T00:00:00+00:00", "new", 2)];
    let kept = filter_entries_since_at(entries.clone(), MAY_8_2024, 0, Some(20_000)).expect("cutoff");
    let names: Vec<&str> = kept.iter().map(|e| e.repo.as_str()).collect();
    assert_eq!(names, vec!["new"]);
    let kept = filter_entries_since_at(entries.clone(), MAY_8_2024, 0, Some(90_000_000)).expect("cutoff");
    assert_eq!(kept.len(), 2);
    let rows = report_at(entries, None, Some(90_000_000), MAY_8_2024, 0).expect("report");
    assert_eq!(rows.len(), 2);
    // past chrono's first date there is no cutoff
    assert_eq!(rfc3339_days_before(MAY_8_2024, 0, 100_000_000), None);
}

#[test]
fn trim_removes_unicode_white_space() {
    assert_eq!(trim_text("  a b \t\n"), "a b");
    assert_eq!(trim_text("\u{a0}\u{3000}x\u{2028}"), "x");
    assert_eq!(trim_text(" \r\n "), "");
    assert_eq!(trim_text("x"), "x");
    assert_eq!(trim_text(""), "");
}

#[test]
fn chrono_date_range_ends() {
    let first = sweep_entry_stamped(-8_334_601_228_800, 0, "r", "/t", 1).expect("first date");
    assert_eq!(first.ts, "-262143-01-01T00:00:00+00:00");
    assert!(sweep_entry_stamped(-8_334_601_228_801, 0, "r", "/t", 1).is_none());
    let last = sweep_entry_stamped(8_210_266_876_799, 999_999_999, "r", "/t", 1).expect("last date");
    assert_eq!(last.ts, "+262142-12-31T23:59:59.999999999+00:00");
    assert!(sweep_entry_stamped(8_210_266_876_800, 0, "r", "/t", 1).is_none());
}
