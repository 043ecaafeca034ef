use careen_ledger::lines::{collect_lines, LineRead};
use careen_ledger::paired::{
    attribute, attribute_at, attribute_from_build_log, attribution_at, build_log_reasons, count_compiler_artifacts, fresh_id,
    rebuild_cost_bytes_equivalent, record_summary, record_summary_at, sweep_record_at, verdict, Attribution,
    AttributeError, LedgerRecord, SweepRecord, SweepSummary, VerdictStatus,
};
use careen_ledger::path::ledger_path;

fn summary(repo: &str, removed_bytes: u64, removed_entries: u64, classes: Option<&str>) -> SweepSummary {
    SweepSummary {
        repo: repo.to_string(),
        removed_bytes,
        removed_entries,
        classes: classes.map(|c| c.to_string()),
        ts: None,
    }
}

fn record(records: &mut Vec<LedgerRecord>, s: SweepSummary) -> String {
    let sweep = record_summary(records, s).expect("clock");
    let id = sweep.id.clone();
    records.push(LedgerRecord::Sweep(sweep));
    id
}

fn record_and_attribute(
    records: &mut Vec<LedgerRecord>,
    repo: &str,
    removed_bytes: u64,
    rebuilt_crates: u64,
    wall_secs: f64,
) {
    let sweep_id = record(records, summary(repo, removed_bytes, 1, Some("{}")));
    let a = attribute(records, &sweep_id, rebuilt_crates, wall_secs as u64).expect("attribute");
    records.push(LedgerRecord::Attribution(a));
}

fn get_worth_careening(records: &Vec<LedgerRecord>, repo: &str) -> bool {
    verdict(records, repo).expect("verdict").worth_careening
}

#[test]
fn cold_win_repo_worth_careening() {
    let mut records = Vec::new();
    record_and_attribute(&mut records, "cold-repo", 500_000_000, 1, 0.0);
    let result = get_worth_careening(&records, "cold-repo");
    assert!(result, "cold-win repo should be worth careening");
}

#[test]
fn hot_thrash_repo_not_worth_careening() {
    let mut records = Vec::new();
    record_and_attribute(&mut records, "hot-repo", 5_000_000, 50, 0.0);
    let result = get_worth_careening(&records, "hot-repo");
    assert!(!result, "hot-thrash repo should NOT be worth careening");
}

#[test]
fn two_fixtures_classify_oppositely() {
    let mut records = Vec::new();
    record_and_attribute(&mut records, "cold-repo2", 500_000_000, 1, 0.0);
    record_and_attribute(&mut records, "hot-repo2", 5_000_000, 50, 0.0);
    let cold_verdict = get_worth_careening(&records, "cold-repo2");
    let hot_verdict = get_worth_careening(&records, "hot-repo2");
    assert_ne!(cold_verdict, hot_verdict, "cold and hot repos must classify oppositely");
}

#[test]
fn record_appends_one_line_with_required_fields() {
    let mut records = Vec::new();
    let printed_id = record(&mut records, summary("my-repo", 9_000_000, 10, Some("{\"debug\":3}")));
    assert!(!printed_id.is_empty(), "should print entry id");
    assert_eq!(records.len(), 1, "exactly one record should be appended");
    match &records[0] {
        LedgerRecord::Sweep(s) => {
            assert_eq!(s.repo, "my-repo");
            assert_eq!(s.removed_bytes, 9_000_000);
            assert!(!s.ts.is_empty(), "ts field required");
            assert_eq!(s.classes, "{\"debug\":3}");
            assert_eq!(s.id, printed_id);
        }
        LedgerRecord::Attribution(_) => panic!("expected a sweep"),
    }
}

#[test]
fn attribute_appends_paired_record_original_unchanged() {
    let mut records = Vec::new();
    let sweep_id = record(&mut records, summary("cold-repo", 5_000_000, 5, Some("{}")));
    let a = attribute(&records, &sweep_id, 3, 15).expect("attribute should succeed");
    assert!(!a.id.is_empty(), "should print attribution id");
    assert_ne!(a.id, sweep_id);
    records.push(LedgerRecord::Attribution(a));
    assert_eq!(records.len(), 2, "should have 2 records after attribute");
    match &records[1] {
        LedgerRecord::Attribution(a) => {
            assert_eq!(a.sweep_id, sweep_id);
            assert!(a.rebuild_cost_bytes > 0);
            assert_eq!(a.rebuild_cost_bytes, 3 * 10_000_000 + 15 * 1_000_000);
        }
        LedgerRecord::Sweep(_) => panic!("expected an attribution"),
    }
}

#[test]
fn verdict_produces_required_fields() {
    let mut records = Vec::new();
    let sweep_id = record(&mut records, summary("analyze-repo", 12_000_000, 20, Some("{\"fingerprint\":10}")));
    let a = attribute(&records, &sweep_id, 1, 5).expect("attribute");
    records.push(LedgerRecord::Attribution(a));
    let v = verdict(&records, "analyze-repo").expect("verdict");
    assert_eq!(v.reclaimed_bytes_total, 12_000_000);
    assert_eq!(v.rebuild_cost_total, 15_000_000);
    assert!(!v.worth_careening);
    assert_eq!(v.status, VerdictStatus::Judged);
    assert_eq!(v.repo, "analyze-repo");
}

#[test]
fn attribute_derives_cost_from_build_log() {
    let mut records = Vec::new();
    let sweep_id = record(&mut records, summary("log-repo", 8_000_000, 8, Some("{}")));
    let mut log: Vec<String> = (0..7)
        .map(|i| format!("{{\"reason\":\"compiler-artifact\",\"package_id\":\"pkg-{}\"}}", i))
        .collect();
    log.push("{\"reason\":\"build-script-executed\",\"package_id\":\"build\"}".to_string());
    let a = attribute_from_build_log(&records, &sweep_id, &log, 0).expect("attribute --build-log should succeed");
    assert_eq!(a.rebuild_cost_bytes, 70_000_000, "expected 7 crates * 10MB = 70MB");
    assert_eq!(a.rebuilt_crates, 7);
}

#[test]
fn corrupt_line_is_skipped_not_crash() {
    let sweep = SweepRecord {
        id: "abc".to_string(),
        ts: "2026-01-01T00:00:00Z".to_string(),
        repo: "old-repo".to_string(),
        removed_bytes: 1000,
        removed_entries: 1,
        classes: "{}".to_string(),
    };
    let lines = vec![
        LineRead::Parsed(LedgerRecord::Sweep(sweep)),
        LineRead::Corrupt("expected value".to_string()),
        LineRead::Blank,
    ];
    let read = collect_lines(lines);
    assert_eq!(read.records.len(), 1);
    assert_eq!(read.skipped.len(), 1);
    assert_eq!(read.skipped[0].0, 2);
    assert_eq!(read.skipped[0].1, "expected value");
    let v = verdict(&read.records, "old-repo").expect("verdict should succeed despite corrupt line");
    assert_eq!(v.reclaimed_bytes_total, 1000);
    assert_eq!(v.status, VerdictStatus::Judged);
}

#[test]
fn verdict_no_history_insufficient_data() {
    let records: Vec<LedgerRecord> = Vec::new();
    let v = verdict(&records, "never-swept-repo").expect("verdict");
    assert_eq!(v.status, VerdictStatus::InsufficientData);
    assert!(!v.worth_careening);
    assert_eq!(v.reclaimed_bytes_total, 0);
    assert_eq!(v.rebuild_cost_total, 0);
}

#[test]
fn ledger_override_is_respected() {
    assert_eq!(ledger_path(Some("/x/custom.jsonl"), Some("/home/u")), "/x/custom.jsonl");
    assert_eq!(ledger_path(None, Some("/home/u")), "/home/u/.local/state/careen/ledger.jsonl");
    assert_eq!(ledger_path(None, Some("/home/u/")), "/home/u/.local/state/careen/ledger.jsonl");
    assert_eq!(ledger_path(None, None), "/tmp/.local/state/careen/ledger.jsonl");
    assert_eq!(ledger_path(None, Some("")), ".local/state/careen/ledger.jsonl");
}

#[test]
fn cost_rule_exact_values() {
    assert_eq!(rebuild_cost_bytes_equivalent(42, 120), Some(420_000_000 + 120_000_000));
    assert_eq!(rebuild_cost_bytes_equivalent(0, 0), Some(0));
    assert_eq!(rebuild_cost_bytes_equivalent(u64::MAX, 0), None);
    assert_eq!(rebuild_cost_bytes_equivalent(0, u64::MAX / 1_000_000 + 1), None);
}

#[test]
fn verdict_boundary_is_strict() {
    // reclaimed exactly twice the cost is not a win
    let mut records = Vec::new();
    record_and_attribute(&mut records, "even", 20_000_000, 1, 0.0);
    assert!(!get_worth_careening(&records, "even"));
    let mut records = Vec::new();
    record_and_attribute(&mut records, "just", 20_000_001, 1, 0.0);
    assert!(get_worth_careening(&records, "just"));
}

#[test]
fn verdict_only_counts_attributions_paired_to_the_repo() {
    let mut records = Vec::new();
    record_and_attribute(&mut records, "a", 100_000_000, 1, 0.0);
    record_and_attribute(&mut records, "b", 1_000, 9, 9.0);
    let v = verdict(&records, "a").expect("verdict");
    assert_eq!(v.reclaimed_bytes_total, 100_000_000);
    assert_eq!(v.rebuild_cost_total, 10_000_000);
}

#[test]
fn attribute_errors() {
    let mut records = Vec::new();
    assert_eq!(attribute(&records, "nope", 1, 1).err(), Some(AttributeError::UnknownSweep));
    let id = record(&mut records, summary("r", 1, 1, None));
    assert_eq!(attribute(&records, &id, u64::MAX, 0).err(), Some(AttributeError::CostOverflow));
    let a = attribution_at(&records, &id, 2, 3, "x".to_string(), "t".to_string()).expect("ok");
    assert_eq!((a.id.as_str(), a.ts.as_str(), a.rebuild_cost_bytes), ("x", "t", 23_000_000));
}

#[test]
fn fresh_ids_avoid_collisions() {
    let mut records = Vec::new();
    records.push(LedgerRecord::Sweep(sweep_record_at(summary("r", 1, 1, None), "id-1".to_string(), "t".to_string())));
    assert_eq!(fresh_id(&records, "id-2".to_string()), "id-2");
    let other = fresh_id(&records, "id-1".to_string());
    assert_ne!(other, "id-1");
    assert!(other.starts_with("id-1"));
    assert!(!fresh_id(&records, String::new()).is_empty());
}

#[test]
fn sweep_record_defaults() {
    let r = sweep_record_at(summary("r", 5, 2, None), "i".to_string(), "now".to_string());
    assert_eq!(r.classes, "{}");
    assert_eq!(r.ts, "now");
    let mut s = summary("r", 5, 2, Some("{\"a\":1}"));
    s.ts = Some("then".to_string());
    let r = sweep_record_at(s, "i".to_string(), "now".to_string());
    assert_eq!((r.ts.as_str(), r.classes.as_str(), r.removed_entries), ("then", "{\"a\":1}", 2));
}

#[test]
fn counts_only_compiler_artifacts() {
    let reasons = vec![
        Some("compiler-artifact".to_string()),
        None,
        Some("compiler-message".to_string()),
        Some("compiler-artifact".to_string()),
    ];
    assert_eq!(count_compiler_artifacts(&reasons), 2);
}

#[test]
fn other_repo_sweep_leaves_verdict_unchanged() {
    let mut records = Vec::new();
    record_and_attribute(&mut records, "mine", 50_000_000, 2, 3.0);
    let before = verdict(&records, "mine").expect("verdict");
    record(&mut records, summary("theirs", 7, 1, None));
    let after = verdict(&records, "mine").expect("verdict");
    assert_eq!(before.reclaimed_bytes_total, after.reclaimed_bytes_total);
    assert_eq!(before.rebuild_cost_total, after.rebuild_cost_total);
    assert_eq!(before.worth_careening, after.worth_careening);
    assert_eq!(before.status, after.status);
}

#[test]
fn sweep_and_attribution_add_to_totals() {
    let mut records = Vec::new();
    let first = record(&mut records, summary("r", 1_000, 1, None));
    let v = verdict(&records, "r").expect("verdict");
    assert_eq!((v.reclaimed_bytes_total, v.rebuild_cost_total), (1_000, 0));
    record(&mut records, summary("r", 2_000, 1, None));
    let v = verdict(&records, "r").expect("verdict");
    assert_eq!((v.reclaimed_bytes_total, v.rebuild_cost_total), (3_000, 0));
    let a = attribute(&records, &first, 1, 2).expect("attribute");
    records.push(LedgerRecord::Attribution(a));
    let v = verdict(&records, "r").expect("verdict");
    assert_eq!(v.rebuild_cost_total, 12_000_000);
    assert_eq!(v.reclaimed_bytes_total, 3_000);
}

// 2024-05-08T00:00:00Z
const MAY_8_2024: i64 = 1_715_126_400;

fn sweep_line(id: &str, repo: &str, removed_bytes: u64) -> LedgerRecord {
    LedgerRecord::Sweep(SweepRecord {
        id: id.to_string(),
        ts: "2024-05-01T00:00:00+00:00".to_string(),
        repo: repo.to_string(),
        removed_bytes,
        removed_entries: 1,
        classes: "{}".to_string(),
    })
}

fn attribution_line(id: &str, sweep_id: &str, crates: u64, wall_secs: u64, stored_cost: u64) -> LedgerRecord {
    LedgerRecord::Attribution(Attribution {
        id: id.to_string(),
        ts: "2024-05-02T00:00:00+00:00".to_string(),
        sweep_id: sweep_id.to_string(),
        rebuilt_crates: crates,
        wall_secs,
        rebuild_cost_bytes: stored_cost,
    })
}

#[test]
fn verdict_applies_the_cost_rule_not_the_stored_cost() {
    let records = vec![sweep_line("s1", "r", 100), attribution_line("a1", "s1", 1, 0, 0)];
    let v = verdict(&records, "r").expect("verdict");
    assert_eq!(v.reclaimed_bytes_total, 100);
    assert_eq!(v.rebuild_cost_total, 10_000_000);
    assert!(!v.worth_careening);
    assert_eq!(v.status, VerdictStatus::Judged);
    let records = vec![sweep_line("s1", "r", 100_000_000), attribution_line("a1", "s1", 1, 2, 999_999_999)];
    let v = verdict(&records, "r").expect("verdict");
    assert_eq!(v.rebuild_cost_total, 12_000_000);
    assert!(v.worth_careening);
}

#[test]
fn unpaired_attribution_costs_nothing() {
    let records = vec![sweep_line("s1", "r", 100), attribution_line("a1", "missing", 5, 5, 55_000_000)];
    let v = verdict(&records, "r").expect("verdict");
    assert_eq!(v.rebuild_cost_total, 0);
    assert!(v.worth_careening);
}

#[test]
fn other_repo_attribution_leaves_verdict_unchanged() {
    let mut records = vec![sweep_line("s1", "mine", 30_000_000), attribution_line("a1", "s1", 1, 0, 10_000_000)];
    let before = verdict(&records, "mine").expect("verdict");
    records.push(sweep_line("s2", "theirs", 5));
    records.push(attribution_line("a2", "s2", 50, 0, 500_000_000));
    let after = verdict(&records, "mine").expect("verdict");
    assert_eq!(before.reclaimed_bytes_total, after.reclaimed_bytes_total);
    assert_eq!(before.rebuild_cost_total, after.rebuild_cost_total);
    assert_eq!(before.worth_careening, after.worth_careening);
    assert!(before.worth_careening);
    assert!(!verdict(&records, "theirs").expect("verdict").worth_careening);
}

#[test]
fn record_and_attribute_at_a_reading() {
    let records: Vec<LedgerRecord> = vec![sweep_line("2024-05-08T00:00:00+00:00", "r", 1)];
    let rec = record_summary_at(&records, summary("r", 9, 3, None), MAY_8_2024, 0).expect("in range");
    assert_eq!(rec.ts, "2024-05-08T00:00:00+00:00");
    assert_ne!(rec.id, "2024-05-08T00:00:00+00:00");
    assert!(rec.id.starts_with("2024-05-08T00:00:00+00:00"));
    assert_eq!((rec.removed_bytes, rec.removed_entries, rec.classes.as_str()), (9, 3, "{}"));
    assert!(record_summary_at(&records, summary("r", 9, 3, None), i64::MAX, 0).is_none());
    let a = attribute_at(&records, "2024-05-08T00:00:00+00:00", 2, 1, MAY_8_2024 + 60, 0).expect("attribute");
    assert_eq!(a.ts, "2024-05-08T00:01:00+00:00");
    assert_eq!(a.id, "2024-05-08T00:01:00+00:00");
    assert_eq!(a.rebuild_cost_bytes, 21_000_000);
    assert_eq!(
        attribute_at(&records, "2024-05-08T00:00:00+00:00", 2, 1, i64::MAX, 0).err(),
        Some(AttributeError::ClockUnavailable)
    );
    assert_eq!(attribute_at(&records, "nope", 2, 1, MAY_8_2024, 0).err(), Some(AttributeError::UnknownSweep));
}

#[test]
fn build_log_reasons_read_each_line() {
    let log = vec![
        "{\"reason\":\"compiler-artifact\"}".to_string(),
        "not json".to_string(),
        "{\"package_id\":\"x\"}".to_string(),
        "{\"reason\":7}".to_string(),
        "  {\"reason\": \"compiler-message\"}  ".to_string(),
    ];
    let reasons = build_log_reasons(&log);
    assert_eq!(
        reasons,
        vec![Some("compiler-artifact".to_string()), None, None, None, Some("compiler-message".to_string())]
    );
    assert_eq!(count_compiler_artifacts(&reasons), 1);
}

#[test]
fn attribute_at_a_reading_before_1970() {
    let records: Vec<LedgerRecord> = vec![sweep_line("s1", "r", 1)];
    let a = attribute_at(&records, "s1", 1, 0, -86_400, 0).expect("attribute");
    assert_eq!(a.ts, "1969-12-31T00:00:00+00:00");
    assert_eq!(a.id, "1969-12-31T00:00:00+00:00");
    assert_eq!(a.rebuild_cost_bytes, 10_000_000);
    assert_eq!(attribute_at(&records, "s1", u64::MAX, 0, -86_400, 0).err(), Some(AttributeError::CostOverflow));
    assert_eq!(
        attribute_at(&records, "s1", 1, 0, i64::MIN, 0).err(),
        Some(AttributeError::ClockUnavailable)
    );
}
