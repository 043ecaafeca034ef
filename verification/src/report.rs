//! The per-repository report: totals sorted by repository name, each with
//! its verdict.
use vstd::prelude::*;

use crate::clock::{clock_reading, cutoff_in_range, cutoff_text, span_seconds, span_too_long};
use crate::error::LedgerError;
use crate::entry::LedgerEntry;
use crate::select::{entries_for, entries_since, filter_entries_for_repo, filter_entries_since_at, opt_view};
use crate::stats::{aggregate_entries, aggregate_fits, keys_of, lemma_repo_order, repo_order, stats_match, RepoStats};
use crate::text::{lemma_text_lt_total, lemma_text_lt_transitive, text_less, text_lt};

verus! {

/// Whether sweeping a repository paid off, by its totals.
#[derive(Debug, PartialEq, Eq, Structural, Clone, Copy)]
pub enum Verdict {
    WorthIt,
    NoRebuilds,
    NotWorthIt,
}

/// Worth it when the net is positive; otherwise no verdict without a
/// rebuild; otherwise not worth it.
pub open spec fn verdict_of(st: RepoStats) -> Verdict {
    if st.net_bytes > 0 {
        Verdict::WorthIt
    } else if st.rebuild_count == 0 {
        Verdict::NoRebuilds
    } else {
        Verdict::NotWorthIt
    }
}

/// The verdict for a repository's totals.
pub fn verdict_for(st: &RepoStats) -> (r: Verdict)
    ensures
        r == verdict_of(*st),
{
    if st.net_bytes > 0 {
        Verdict::WorthIt
    } else if st.rebuild_count == 0 {
        Verdict::NoRebuilds
    } else {
        Verdict::NotWorthIt
    }
}

/// One line of the report.
pub struct ReportRow {
    pub repo: String,
    pub stats: RepoStats,
    pub verdict: Verdict,
}

/// The keys of `v` are strictly increasing.
pub open spec fn sorted_by_key(v: Seq<(String, RepoStats)>) -> bool {
    forall|i: int, j: int| 0 <= i < j < v.len() ==> text_lt(#[trigger] v[i].0@, #[trigger] v[j].0@)
}

proof fn lemma_insert_keeps_sorted(s: Seq<(String, RepoStats)>, p: int, x: (String, RepoStats))
    requires
        0 <= p <= s.len(),
        sorted_by_key(s),
        forall|i: int| 0 <= i < p ==> text_lt(#[trigger] s[i].0@, x.0@),
        p < s.len() ==> text_lt(x.0@, s[p].0@),
    ensures
        sorted_by_key(s.insert(p, x)),
{
    let t = s.insert(p, x);
    assert(t.len() == s.len() + 1);
    assert forall|i: int, j: int| 0 <= i < j < t.len() implies text_lt(
        #[trigger] t[i].0@,
        #[trigger] t[j].0@,
    ) by {
        if j < p {
            assert(t[i] == s[i] && t[j] == s[j]);
        } else if j == p {
            assert(t[i] == s[i] && t[j] == x);
            assert(text_lt(s[i].0@, x.0@));
        } else if i < p {
            assert(t[i] == s[i] && t[j] == s[j - 1]);
            assert(text_lt(s[i].0@, x.0@));
            if j - 1 > p {
                assert(text_lt(s[p].0@, s[j - 1].0@));
                lemma_text_lt_transitive(x.0@, s[p].0@, s[j - 1].0@);
            }
            lemma_text_lt_transitive(s[i].0@, x.0@, s[j - 1].0@);
        } else if i == p {
            assert(t[i] == x && t[j] == s[j - 1]);
            if j - 1 > p {
                assert(text_lt(s[p].0@, s[j - 1].0@));
                lemma_text_lt_transitive(x.0@, s[p].0@, s[j - 1].0@);
            }
        } else {
            assert(t[i] == s[i - 1] && t[j] == s[j - 1]);
            assert(text_lt(s[i - 1].0@, s[j - 1].0@));
        }
    }
}

/// Sorts per-repository totals by repository name.
pub fn sort_by_repo(v: Vec<(String, RepoStats)>) -> (r: Vec<(String, RepoStats)>)
    requires
        keys_of(v@).no_duplicates(),
    ensures
        r@.len() == v@.len(),
        forall|x: (String, RepoStats)| r@.contains(x) <==> v@.contains(x),
        sorted_by_key(r@),
{
    let ghost orig = v@;
    let n = v.len();
    let mut rest = v;
    let mut out: Vec<(String, RepoStats)> = Vec::new();
    while rest.len() > 0
        invariant
            orig.len() == n,
            keys_of(orig).no_duplicates(),
            rest@ == orig.take(rest@.len() as int),
            out@.len() + rest@.len() == n,
            sorted_by_key(out@),
            forall|x: (String, RepoStats)|
                out@.contains(x) <==> exists|m: int| rest@.len() <= m < n && orig[m] == x,
        decreases rest@.len(),
    {
        let ghost k = (rest@.len() - 1) as int;
        let x = rest.pop().unwrap();
        assert(x == orig[k]);
        assert(rest@ =~= orig.take(k));
        let mut p: usize = 0;
        while p < out.len() && text_less(out[p].0.as_str(), x.0.as_str())
            invariant
                p <= out@.len(),
                forall|i: int| 0 <= i < p ==> text_lt(#[trigger] out@[i].0@, x.0@),
            decreases out@.len() - p,
        {
            p = p + 1;
        }
        proof {
            if p < out@.len() {
                let y = out@[p as int];
                assert(out@.contains(y));
                let m = choose|m: int| k + 1 <= m < n && orig[m] == y;
                assert(keys_of(orig)[m] == y.0@);
                assert(keys_of(orig)[k] == x.0@);
                lemma_text_lt_total(x.0@, y.0@);
            }
            lemma_insert_keeps_sorted(out@, p as int, x);
        }
        let ghost before = out@;
        out.insert(p, x);
        proof {
            assert forall|z: (String, RepoStats)| out@.contains(z) <==> exists|m: int|
                k <= m < n && orig[m] == z by {
                if out@.contains(z) {
                    let i = choose|i: int| 0 <= i < out@.len() && out@[i] == z;
                    if i < p {
                        assert(before[i] == z);
                        assert(before.contains(z));
                    } else if i == p {
                        assert(orig[k] == z);
                    } else {
                        assert(before[i - 1] == z);
                        assert(before.contains(z));
                    }
                }
                if exists|m: int| k <= m < n && orig[m] == z {
                    let m = choose|m: int| k <= m < n && orig[m] == z;
                    if m == k {
                        assert(out@[p as int] == z);
                    } else {
                        assert(before.contains(z));
                        let i = choose|i: int| 0 <= i < before.len() && before[i] == z;
                        if i < p {
                            assert(out@[i] == z);
                        } else {
                            assert(out@[i + 1] == z);
                        }
                    }
                }
            }
        }
    }
    proof {
        assert forall|x: (String, RepoStats)| out@.contains(x) <==> orig.contains(x) by {
            if orig.contains(x) {
                let m = choose|m: int| 0 <= m < n && orig[m] == x;
                assert(exists|m: int| 0 <= m < n && orig[m] == x);
            }
        }
    }
    out
}

/// `rows` is the report of `s`: one row per repository of `s`, in strictly
/// increasing name order, each with the repository's totals and verdict.
pub open spec fn is_report_of(rows: Seq<ReportRow>, s: Seq<LedgerEntry>) -> bool {
    &&& forall|i: int, j: int|
        0 <= i < j < rows.len() ==> text_lt(#[trigger] rows[i].repo@, #[trigger] rows[j].repo@)
    &&& forall|r: Seq<char>|
        (exists|i: int| 0 <= i < rows.len() && #[trigger] rows[i].repo@ == r) <==> repo_order(
            s,
        ).contains(r)
    &&& forall|i: int|
        0 <= i < rows.len() ==> stats_match(#[trigger] rows[i].stats, s, rows[i].repo@)
            && rows[i].verdict == verdict_of(rows[i].stats)
}

/// The report of `entries`; `None` exactly when their totals overflow.
pub fn report_rows(entries: &Vec<LedgerEntry>) -> (r: Option<Vec<ReportRow>>)
    ensures
        r is Some <==> aggregate_fits(entries@),
        r matches Some(rows) ==> is_report_of(rows@, entries@),
{
    let totals = match aggregate_entries(entries) {
        Some(t) => t,
        None => return None,
    };
    proof {
        lemma_repo_order(entries@);
    }
    let ghost agg = totals@;
    let sorted = sort_by_repo(totals);
    let mut rows: Vec<ReportRow> = Vec::new();
    let mut i: usize = 0;
    while i < sorted.len()
        invariant
            i <= sorted@.len(),
            rows@.len() == i,
            sorted_by_key(sorted@),
            forall|x: (String, RepoStats)| sorted@.contains(x) <==> agg.contains(x),
            sorted@.len() == agg.len(),
            keys_of(agg) == repo_order(entries@),
            forall|j: int| 0 <= j < agg.len() ==> stats_match(#[trigger] agg[j].1, entries@, agg[j].0@),
            forall|j: int|
                0 <= j < i ==> {
                    &&& (#[trigger] rows@[j]).repo@ == sorted@[j].0@
                    &&& rows@[j].stats == sorted@[j].1
                    &&& rows@[j].verdict == verdict_of(sorted@[j].1)
                },
        decreases sorted@.len() - i,
    {
        let (name, st) = (&sorted[i].0, &sorted[i].1);
        rows.push(ReportRow { repo: name.clone(), stats: st.duplicate(), verdict: verdict_for(st) });
        i = i + 1;
    }
    proof {
        let rs = rows@;
        assert forall|a: int, b: int| 0 <= a < b < rs.len() implies text_lt(
            #[trigger] rs[a].repo@,
            #[trigger] rs[b].repo@,
        ) by {
            assert(rs[a].repo@ == sorted@[a].0@);
            assert(rs[b].repo@ == sorted@[b].0@);
        }
        assert forall|r: Seq<char>|
            (exists|i: int| 0 <= i < rs.len() && #[trigger] rs[i].repo@ == r) <==> repo_order(
                entries@,
            ).contains(r) by {
            if exists|i: int| 0 <= i < rs.len() && #[trigger] rs[i].repo@ == r {
                let i = choose|i: int| 0 <= i < rs.len() && #[trigger] rs[i].repo@ == r;
                assert(sorted@.contains(sorted@[i]));
                assert(agg.contains(sorted@[i]));
                let j = choose|j: int| 0 <= j < agg.len() && agg[j] == sorted@[i];
                assert(keys_of(agg)[j] == r);
            }
            if repo_order(entries@).contains(r) {
                let j = choose|j: int| 0 <= j < keys_of(agg).len() && keys_of(agg)[j] == r;
                assert(agg.contains(agg[j]));
                assert(sorted@.contains(agg[j]));
                let i = choose|i: int| 0 <= i < sorted@.len() && sorted@[i] == agg[j];
                assert(rs[i].repo@ == r);
            }
        }
        assert forall|i: int| 0 <= i < rs.len() implies stats_match(
            #[trigger] rs[i].stats,
            entries@,
            rs[i].repo@,
        ) && rs[i].verdict == verdict_of(rs[i].stats) by {
            assert(sorted@.contains(sorted@[i]));
            assert(agg.contains(sorted@[i]));
            let j = choose|j: int| 0 <= j < agg.len() && agg[j] == sorted@[i];
            assert(stats_match(agg[j].1, entries@, agg[j].0@));
        }
    }
    Some(rows)
}

/// A report result with its rows seen as a sequence.
pub open spec fn rows_view(r: Result<Vec<ReportRow>, LedgerError>) -> Result<Seq<ReportRow>, LedgerError> {
    match r {
        Ok(rows) => Ok(rows@),
        Err(e) => Err(e),
    }
}

/// `r` is what reporting over `s` gives: the report of `s`, or
/// `TotalsOverflow` exactly when the totals of `s` overflow.
pub open spec fn is_report_outcome(r: Result<Seq<ReportRow>, LedgerError>, s: Seq<LedgerEntry>) -> bool {
    &&& r is Ok <==> aggregate_fits(s)
    &&& r matches Ok(rows) ==> is_report_of(rows, s)
    &&& r matches Err(e) ==> e == LedgerError::TotalsOverflow
}

/// `r` is the report over the entries of `s` stamped in the last `since`
/// days before the clock reading `(secs, nanos)` (all, when no bound is
/// given) that belong to `repo` (all, when none is given); or
/// `SinceOutOfRange` where the cutoff cannot be represented.
pub open spec fn is_report_at(
    r: Result<Seq<ReportRow>, LedgerError>,
    s: Seq<LedgerEntry>,
    repo: Option<Seq<char>>,
    since: Option<u64>,
    secs: i64,
    nanos: u32,
) -> bool {
    match since {
        None => is_report_outcome(r, entries_for(s, repo)),
        Some(d) => {
            &&& span_too_long(d) ==> r == Err::<Seq<ReportRow>, LedgerError>(
                LedgerError::SinceOutOfRange,
            )
            &&& cutoff_in_range(secs, nanos, d) ==> r != Err::<Seq<ReportRow>, LedgerError>(
                LedgerError::SinceOutOfRange,
            )
            &&& nanos < 1_000_000_000 ==> (r == Err::<Seq<ReportRow>, LedgerError>(
                LedgerError::SinceOutOfRange,
            ) <==> !cutoff_in_range(secs, nanos, d))
            &&& r == Err::<Seq<ReportRow>, LedgerError>(LedgerError::SinceOutOfRange) || (
            cutoff_text(secs, nanos, d) matches Some(c) && is_report_outcome(
                r,
                entries_for(entries_since(s, c), repo),
            ))
        },
    }
}

/// `r` is the report as `is_report_at` gives it for a clock reading taken
/// now: with a bound, either the clock could not be read, or `r` is the
/// report at some reading of at least 0 seconds and under a second of
/// nanoseconds. Where the span is too long the clock is not read.
pub open spec fn is_report_now(
    r: Result<Seq<ReportRow>, LedgerError>,
    s: Seq<LedgerEntry>,
    repo: Option<Seq<char>>,
    since: Option<u64>,
) -> bool {
    match since {
        None => is_report_outcome(r, entries_for(s, repo)),
        Some(d) => {
            &&& span_too_long(d) ==> r == Err::<Seq<ReportRow>, LedgerError>(
                LedgerError::SinceOutOfRange,
            )
            &&& r == Err::<Seq<ReportRow>, LedgerError>(LedgerError::ClockUnavailable) || exists|
                secs: i64,
                nanos: u32,
            |
                #![trigger is_report_at(r, s, repo, since, secs, nanos)]
                0 <= secs && nanos < 1_000_000_000 && is_report_at(r, s, repo, since, secs, nanos)
        },
    }
}

/// The report over the entries stamped in the last `since` days before the
/// clock reading `(secs, nanos)` (all, when no bound is given) that belong to
/// `repo` (all, when none is given). `SinceOutOfRange` when the cutoff cannot
/// be represented as a date.
pub fn report_at(
    entries: Vec<LedgerEntry>,
    repo: Option<&str>,
    since: Option<u64>,
    secs: i64,
    nanos: u32,
) -> (r: Result<Vec<ReportRow>, LedgerError>)
    ensures
        is_report_at(rows_view(r), entries@, opt_view(repo), since, secs, nanos),
{
    let recent = match filter_entries_since_at(entries, secs, nanos, since) {
        Some(v) => v,
        None => return Err(LedgerError::SinceOutOfRange),
    };
    let selected = filter_entries_for_repo(recent, repo);
    match report_rows(&selected) {
        Some(rows) => Ok(rows),
        None => Err(LedgerError::TotalsOverflow),
    }
}

/// The report over the entries recorded in the last `since` days before now
/// (all, when no bound is given; the clock is then not read) that belong to
/// `repo` (all, when none is given). `SinceOutOfRange` when the span or the
/// cutoff cannot be represented, `ClockUnavailable` when the clock cannot be
/// read.
pub fn report(entries: Vec<LedgerEntry>, repo: Option<&str>, since: Option<u64>) -> (r: Result<
    Vec<ReportRow>,
    LedgerError,
>)
    ensures
        is_report_now(rows_view(r), entries@, opt_view(repo), since),
{
    match since {
        None => report_at(entries, repo, since, 0, 0),
        Some(days) => {
            if span_seconds(days).is_none() {
                let r = Err(LedgerError::SinceOutOfRange);
                assert(is_report_at(rows_view(r), entries@, opt_view(repo), since, 0, 0));
                return r;
            }
            match clock_reading() {
                Some((secs, nanos)) => {
                    let ghost all = entries@;
                    let r = report_at(entries, repo, since, secs, nanos);
                    assert(is_report_at(rows_view(r), all, opt_view(repo), since, secs, nanos));
                    r
                },
                None => Err(LedgerError::ClockUnavailable),
            }
        },
    }
}

} // verus!
