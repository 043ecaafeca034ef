//! Sweep records, the attributions paired to them by id, and the verdict
//! that rolls a repository's history into one boolean:
//!
//! `worth_careening = reclaimed_bytes_total > 2 * rebuild_cost_total`, where
//! each attribution costs `rebuilt_crates * 10_000_000 + wall_secs * 1_000_000`
//! bytes.
use vstd::prelude::*;
use vstd::string::*;

use crate::clock::{clock_reading, is_date_reading, rfc3339_at, rfc3339_text, FIRST_DATE_SECS, LAST_DATE_SECS};
use crate::text::text_eq;

verus! {

/// What one sweep reclaimed.
pub struct SweepRecord {
    pub id: String,
    pub ts: String,
    pub repo: String,
    pub removed_bytes: u64,
    pub removed_entries: u64,
    /// The reclaimed classes, as JSON object text.
    pub classes: String,
}

/// The rebuild cost paired to a prior sweep by its id.
pub struct Attribution {
    pub id: String,
    pub ts: String,
    pub sweep_id: String,
    pub rebuilt_crates: u64,
    pub wall_secs: u64,
    pub rebuild_cost_bytes: u64,
}

/// One line of the paired ledger.
pub enum LedgerRecord {
    Sweep(SweepRecord),
    Attribution(Attribution),
}

/// A sweep summary, as a sweeper writes it.
pub struct SweepSummary {
    pub repo: String,
    pub removed_bytes: u64,
    pub removed_entries: u64,
    /// The reclaimed classes, as JSON object text, when given.
    pub classes: Option<String>,
    /// When the sweep happened, when given.
    pub ts: Option<String>,
}

/// Why an attribution could not be made.
#[derive(Debug, PartialEq, Eq, Structural, Clone, Copy)]
pub enum AttributeError {
    /// No sweep in the ledger has the given id.
    UnknownSweep,
    /// The cost does not fit in a `u64`.
    CostOverflow,
    /// The system clock could not be read as a date.
    ClockUnavailable,
}

/// Whether a repository's history has anything to judge.
#[derive(Debug, PartialEq, Eq, Structural, Clone, Copy)]
pub enum VerdictStatus {
    Judged,
    InsufficientData,
}

/// A repository's history rolled into one verdict.
pub struct RepoVerdict {
    pub repo: String,
    pub reclaimed_bytes_total: u64,
    pub rebuild_cost_total: u64,
    pub worth_careening: bool,
    pub status: VerdictStatus,
}

/// Bytes charged for each rebuilt crate.
pub const BYTES_PER_CRATE: u64 = 10_000_000;

/// Bytes charged for each second of rebuild wall time.
pub const BYTES_PER_WALL_SEC: u64 = 1_000_000;

/// The rebuild cost in bytes: `crates * 10_000_000 + wall_secs * 1_000_000`.
pub open spec fn cost_equivalent(crates: u64, wall_secs: u64) -> int {
    crates * BYTES_PER_CRATE + wall_secs * BYTES_PER_WALL_SEC
}

/// The verdict rule: reclaimed more than twice what the rebuilds cost.
pub open spec fn worth_careening(reclaimed: int, cost: int) -> bool {
    reclaimed > 2 * cost
}

/// The rebuild cost of `crates` rebuilt crates and `wall_secs` seconds;
/// `None` exactly when it does not fit in a `u64`.
pub fn rebuild_cost_bytes_equivalent(crates: u64, wall_secs: u64) -> (r: Option<u64>)
    ensures
        r is Some <==> cost_equivalent(crates, wall_secs) <= u64::MAX,
        r matches Some(c) ==> c == cost_equivalent(crates, wall_secs),
{
    let a = crates.checked_mul(BYTES_PER_CRATE)?;
    let b = wall_secs.checked_mul(BYTES_PER_WALL_SEC)?;
    a.checked_add(b)
}

/// The id of a record.
pub open spec fn record_id(r: LedgerRecord) -> Seq<char> {
    match r {
        LedgerRecord::Sweep(s) => s.id@,
        LedgerRecord::Attribution(a) => a.id@,
    }
}

/// The ids of the records of `s`.
pub open spec fn ids_of(s: Seq<LedgerRecord>) -> Seq<Seq<char>> {
    Seq::new(s.len(), |i: int| record_id(s[i]))
}

/// The record is a sweep of `repo`.
pub open spec fn is_sweep_of(r: LedgerRecord, repo: Seq<char>) -> bool {
    r matches LedgerRecord::Sweep(sw) && sw.repo@ == repo
}

/// `s` holds a sweep with id `id`.
pub open spec fn has_sweep_id(s: Seq<LedgerRecord>, id: Seq<char>) -> bool {
    exists|k: int| 0 <= k < s.len() && (#[trigger] s[k] matches LedgerRecord::Sweep(sw) && sw.id@ == id)
}

/// `s` holds a sweep of `repo` with id `id`.
pub open spec fn has_sweep_of(s: Seq<LedgerRecord>, id: Seq<char>, repo: Seq<char>) -> bool {
    exists|k: int|
        0 <= k < s.len() && (#[trigger] s[k] matches LedgerRecord::Sweep(sw) && sw.id@ == id && sw.repo@
            == repo)
}

/// The number of sweeps of `repo` in `s`.
pub open spec fn sweeps_of(s: Seq<LedgerRecord>, repo: Seq<char>) -> nat
    decreases s.len(),
{
    if s.len() == 0 {
        0
    } else {
        sweeps_of(s.drop_last(), repo) + if is_sweep_of(s.last(), repo) {
            1nat
        } else {
            0nat
        }
    }
}

/// The bytes reclaimed by the sweeps of `repo` in `s`.
pub open spec fn reclaimed_of(s: Seq<LedgerRecord>, repo: Seq<char>) -> nat
    decreases s.len(),
{
    if s.len() == 0 {
        0
    } else {
        reclaimed_of(s.drop_last(), repo) + match s.last() {
            LedgerRecord::Sweep(sw) => if sw.repo@ == repo {
                sw.removed_bytes as nat
            } else {
                0nat
            },
            _ => 0nat,
        }
    }
}

/// The cost of the attributions in `part` that are paired to a sweep of
/// `repo` in `all`, each costed by the rule from its crates and seconds (the
/// cost an attribution stores is not read).
pub open spec fn attributed_cost(part: Seq<LedgerRecord>, all: Seq<LedgerRecord>, repo: Seq<char>) -> nat
    decreases part.len(),
{
    if part.len() == 0 {
        0
    } else {
        attributed_cost(part.drop_last(), all, repo) + match part.last() {
            LedgerRecord::Attribution(a) => if has_sweep_of(all, a.sweep_id@, repo) {
                cost_equivalent(a.rebuilt_crates, a.wall_secs) as nat
            } else {
                0nat
            },
            _ => 0nat,
        }
    }
}

/// The rebuild cost paired to the sweeps of `repo` in `s`.
pub open spec fn cost_of(s: Seq<LedgerRecord>, repo: Seq<char>) -> nat {
    attributed_cost(s, s, repo)
}

proof fn lemma_prefix_totals(s: Seq<LedgerRecord>, all: Seq<LedgerRecord>, repo: Seq<char>, i: int)
    requires
        0 <= i <= s.len(),
    ensures
        reclaimed_of(s.take(i), repo) <= reclaimed_of(s, repo),
        attributed_cost(s.take(i), all, repo) <= attributed_cost(s, all, repo),
    decreases s.len(),
{
    if i < s.len() {
        assert(s.drop_last().take(i) =~= s.take(i));
        lemma_prefix_totals(s.drop_last(), all, repo, i);
    } else {
        assert(s.take(i) =~= s);
    }
}

/// Whether `records` hold a sweep of `repo` with id `id`.
fn find_sweep_of(records: &Vec<LedgerRecord>, id: &str, repo: &str) -> (r: bool)
    ensures
        r == has_sweep_of(records@, id@, repo@),
{
    let mut k: usize = 0;
    while k < records.len()
        invariant
            k <= records@.len(),
            forall|j: int|
                0 <= j < k ==> !(#[trigger] records@[j] matches LedgerRecord::Sweep(sw) && sw.id@ == id@
                    && sw.repo@ == repo@),
        decreases records@.len() - k,
    {
        match &records[k] {
            LedgerRecord::Sweep(sw) => {
                if text_eq(sw.id.as_str(), id) && text_eq(sw.repo.as_str(), repo) {
                    return true;
                }
            },
            LedgerRecord::Attribution(_) => {},
        }
        k = k + 1;
    }
    false
}

/// Whether `records` hold a sweep with id `id`.
fn find_sweep_id(records: &Vec<LedgerRecord>, id: &str) -> (r: bool)
    ensures
        r == has_sweep_id(records@, id@),
{
    let mut k: usize = 0;
    while k < records.len()
        invariant
            k <= records@.len(),
            forall|j: int|
                0 <= j < k ==> !(#[trigger] records@[j] matches LedgerRecord::Sweep(sw) && sw.id@ == id@),
        decreases records@.len() - k,
    {
        match &records[k] {
            LedgerRecord::Sweep(sw) => {
                if text_eq(sw.id.as_str(), id) {
                    return true;
                }
            },
            LedgerRecord::Attribution(_) => {},
        }
        k = k + 1;
    }
    false
}

/// `v` is the verdict on `repo` over `s`.
pub open spec fn is_verdict_of(v: RepoVerdict, s: Seq<LedgerRecord>, repo: Seq<char>) -> bool {
    &&& v.repo@ == repo
    &&& v.reclaimed_bytes_total == reclaimed_of(s, repo)
    &&& v.rebuild_cost_total == cost_of(s, repo)
    &&& v.worth_careening == worth_careening(reclaimed_of(s, repo) as int, cost_of(s, repo) as int)
    &&& v.status == if sweeps_of(s, repo) > 0 {
        VerdictStatus::Judged
    } else {
        VerdictStatus::InsufficientData
    }
}

/// The verdict on `repo`: what its sweeps reclaimed, what the rebuilds
/// paired to them cost, and whether that was worth it. A repository without
/// sweeps gets `InsufficientData`. `None` exactly when
/// a total does not fit in a `u64`.
pub fn verdict(records: &Vec<LedgerRecord>, repo: &str) -> (r: Option<RepoVerdict>)
    ensures
        r is Some <==> (reclaimed_of(records@, repo@) <= u64::MAX && cost_of(records@, repo@)
            <= u64::MAX),
        r matches Some(v) ==> is_verdict_of(v, records@, repo@),
{
    let ghost all = records@;
    let n = records.len();
    let mut reclaimed: u64 = 0;
    let mut cost: u64 = 0;
    let mut swept = false;
    let mut i: usize = 0;
    assert(all.take(0) =~= Seq::<LedgerRecord>::empty());
    while i < n
        invariant
            n == all.len(),
            all == records@,
            i <= n,
            reclaimed == reclaimed_of(all.take(i as int), repo@),
            cost == attributed_cost(all.take(i as int), all, repo@),
            swept == (sweeps_of(all.take(i as int), repo@) > 0),
        decreases n - i,
    {
        proof {
            assert(all.take(i + 1).drop_last() =~= all.take(i as int));
            assert(all.take(i + 1).last() == all[i as int]);
        }
        match &records[i] {
            LedgerRecord::Sweep(sw) => {
                if text_eq(sw.repo.as_str(), repo) {
                    swept = true;
                    reclaimed = match reclaimed.checked_add(sw.removed_bytes) {
                        Some(x) => x,
                        None => {
                            proof {
                                lemma_prefix_totals(all, all, repo@, i + 1);
                            }
                            return None;
                        },
                    };
                }
            },
            LedgerRecord::Attribution(a) => {
                if find_sweep_of(records, a.sweep_id.as_str(), repo) {
                    let this = match rebuild_cost_bytes_equivalent(a.rebuilt_crates, a.wall_secs) {
                        Some(c) => c,
                        None => {
                            proof {
                                lemma_prefix_totals(all, all, repo@, i + 1);
                            }
                            return None;
                        },
                    };
                    cost = match cost.checked_add(this) {
                        Some(x) => x,
                        None => {
                            proof {
                                lemma_prefix_totals(all, all, repo@, i + 1);
                            }
                            return None;
                        },
                    };
                }
            },
        }
        i = i + 1;
    }
    assert(all.take(n as int) =~= all);
    let worth = (reclaimed as u128) > 2 * (cost as u128);
    let status = if swept {
        VerdictStatus::Judged
    } else {
        VerdictStatus::InsufficientData
    };
    Some(
        RepoVerdict {
            repo: String::from_str(repo),
            reclaimed_bytes_total: reclaimed,
            rebuild_cost_total: cost,
            worth_careening: worth,
            status,
        },
    )
}

/// The number of lines of a build log whose `reason` is `compiler-artifact`.
pub open spec fn artifact_count(reasons: Seq<Option<String>>) -> nat
    decreases reasons.len(),
{
    if reasons.len() == 0 {
        0
    } else {
        artifact_count(reasons.drop_last()) + match reasons.last() {
            Some(r) => if r@ == "compiler-artifact"@ {
                1nat
            } else {
                0nat
            },
            None => 0nat,
        }
    }
}

/// Counts the `compiler-artifact` lines of a `cargo --message-format=json`
/// build log, given each line's `reason` (absent where the line has none).
pub fn count_compiler_artifacts(reasons: &Vec<Option<String>>) -> (r: u64)
    ensures
        r == artifact_count(reasons@),
{
    let mut count: u64 = 0;
    let mut i: usize = 0;
    assert(reasons@.take(0) =~= Seq::<Option<String>>::empty());
    while i < reasons.len()
        invariant
            i <= reasons@.len(),
            count == artifact_count(reasons@.take(i as int)),
            count <= i,
        decreases reasons@.len() - i,
    {
        proof {
            assert(reasons@.take(i + 1).drop_last() =~= reasons@.take(i as int));
            assert(reasons@.take(i + 1).last() == reasons@[i as int]);
        }
        match &reasons[i] {
            Some(reason) => {
                if text_eq(reason.as_str(), "compiler-artifact") {
                    count = count + 1;
                }
            },
            None => {},
        }
        i = i + 1;
    }
    assert(reasons@.take(reasons@.len() as int) =~= reasons@);
    count
}

/// `a` is the attribution of `crates` rebuilt crates and `wall_secs` seconds
/// to the sweep `sweep_id`.
pub open spec fn is_attribution_for(a: Attribution, sweep_id: Seq<char>, crates: u64, wall_secs: u64) -> bool {
    &&& a.sweep_id@ == sweep_id
    &&& a.rebuilt_crates == crates
    &&& a.wall_secs == wall_secs
    &&& a.rebuild_cost_bytes == cost_equivalent(crates, wall_secs)
}

/// Pairs a rebuild cost to the sweep `sweep_id`, as the record `id` stamped
/// `ts`. Fails when no sweep has that id, else when the cost overflows.
pub fn attribution_at(
    records: &Vec<LedgerRecord>,
    sweep_id: &str,
    crates: u64,
    wall_secs: u64,
    id: String,
    ts: String,
) -> (r: Result<Attribution, AttributeError>)
    ensures
        !has_sweep_id(records@, sweep_id@) ==> r == Err::<Attribution, AttributeError>(
            AttributeError::UnknownSweep,
        ),
        has_sweep_id(records@, sweep_id@) && cost_equivalent(crates, wall_secs) > u64::MAX ==> r
            == Err::<Attribution, AttributeError>(AttributeError::CostOverflow),
        has_sweep_id(records@, sweep_id@) && cost_equivalent(crates, wall_secs) <= u64::MAX ==> (
        r matches Ok(a) && a.id == id && a.ts == ts && is_attribution_for(
            a,
            sweep_id@,
            crates,
            wall_secs,
        )),
{
    if !find_sweep_id(records, sweep_id) {
        return Err(AttributeError::UnknownSweep);
    }
    let cost = match rebuild_cost_bytes_equivalent(crates, wall_secs) {
        Some(c) => c,
        None => return Err(AttributeError::CostOverflow),
    };
    Ok(
        Attribution {
            id,
            ts,
            sweep_id: String::from_str(sweep_id),
            rebuilt_crates: crates,
            wall_secs,
            rebuild_cost_bytes: cost,
        },
    )
}

/// The length of the longest id among the records of `s` (0 when none).
pub open spec fn longest_id(s: Seq<LedgerRecord>) -> nat
    decreases s.len(),
{
    if s.len() == 0 {
        0
    } else {
        let prev = longest_id(s.drop_last());
        let here = record_id(s.last()).len();
        if here > prev {
            here
        } else {
            prev
        }
    }
}

/// The id `fresh_id` gives for `base` among the records of `s`: `base` when
/// it is not empty and not yet taken; else `base` followed by just enough
/// `-` to be longer than every id in use.
pub open spec fn fresh_id_text(s: Seq<LedgerRecord>, base: Seq<char>) -> Seq<char> {
    if base.len() > 0 && !ids_of(s).contains(base) {
        base
    } else {
        let n: int = if base.len() > longest_id(s) {
            base.len() as int
        } else {
            longest_id(s) + 1int
        };
        base + Seq::new((n - base.len()) as nat, |i: int| '-')
    }
}

/// An id for a new record: `base` when it is not empty and not yet taken;
/// else `base` followed by just enough `-` to be longer than every id in
/// use.
pub fn fresh_id(records: &Vec<LedgerRecord>, base: String) -> (r: String)
    ensures
        !ids_of(records@).contains(r@),
        r@.len() > 0,
        base@.len() > 0 && !ids_of(records@).contains(base@) ==> r@ == base@,
        r@.len() >= base@.len(),
        r@.subrange(0, base@.len() as int) == base@,
        forall|i: int| base@.len() <= i < r@.len() ==> r@[i] == '-',
        !(base@.len() > 0 && !ids_of(records@).contains(base@)) ==> r@.len() == if base@.len()
            > longest_id(records@) {
            base@.len()
        } else {
            longest_id(records@) + 1
        },
        r@ == fresh_id_text(records@, base@),
{
    let mut longest: usize = 0;
    let mut taken = false;
    let mut k: usize = 0;
    while k < records.len()
        invariant
            k <= records@.len(),
            forall|j: int| 0 <= j < k ==> record_id(#[trigger] records@[j]).len() <= longest,
            longest == longest_id(records@.take(k as int)),
            taken == exists|j: int| 0 <= j < k && record_id(#[trigger] records@[j]) == base@,
        decreases records@.len() - k,
    {
        let id: &str = match &records[k] {
            LedgerRecord::Sweep(sw) => sw.id.as_str(),
            LedgerRecord::Attribution(a) => a.id.as_str(),
        };
        proof {
            assert(records@.take(k + 1).drop_last() =~= records@.take(k as int));
            assert(records@.take(k + 1).last() == records@[k as int]);
        }
        let len = id.unicode_len();
        if len > longest {
            longest = len;
        }
        if text_eq(id, base.as_str()) {
            taken = true;
        }
        k = k + 1;
    }
    proof {
        assert(records@.take(records@.len() as int) =~= records@);
        if taken {
            let j = choose|j: int| 0 <= j < records@.len() && record_id(#[trigger] records@[j]) == base@;
            assert(ids_of(records@)[j] == base@);
        }
        if ids_of(records@).contains(base@) {
            let j = choose|j: int| 0 <= j < ids_of(records@).len() && ids_of(records@)[j] == base@;
            assert(record_id(records@[j]) == base@);
        }
    }
    if !taken && base.unicode_len() > 0 {
        return base;
    }
    let ghost start = base@;
    let mut id = base;
    assert(id@.subrange(0, start.len() as int) =~= start);
    while id.unicode_len() <= longest
        invariant
            forall|j: int| 0 <= j < records@.len() ==> record_id(#[trigger] records@[j]).len() <= longest,
            id@.len() >= start.len(),
            id@.len() <= if start.len() > longest {
                start.len() as int
            } else {
                longest + 1
            },
            id@.subrange(0, start.len() as int) == start,
            forall|i: int| start.len() <= i < id@.len() ==> id@[i] == '-',
        decreases longest + 1 - id@.len(),
    {
        let ghost prev = id@;
        id.append("-");
        proof {
            reveal_strlit("-");
            assert(id@ == prev + seq!['-']);
            assert(id@.subrange(0, start.len() as int) =~= prev.subrange(0, start.len() as int));
        }
    }
    proof {
        assert forall|j: int| 0 <= j < ids_of(records@).len() implies ids_of(records@)[j] != id@ by {
            assert(record_id(records@[j]).len() <= longest);
        }
        let n: int = if start.len() > longest_id(records@) {
            start.len() as int
        } else {
            longest_id(records@) + 1int
        };
        assert(id@.len() == n);
        assert(id@ =~= start + Seq::new((n - start.len()) as nat, |i: int| '-'));
    }
    id
}

/// The sweep record for `summary`, with id `id`; stamped with the summary's
/// own time when it has one, else `now`; with no classes given, `{}`.
pub fn sweep_record_at(summary: SweepSummary, id: String, now: String) -> (r: SweepRecord)
    ensures
        r.id == id,
        r.repo == summary.repo,
        r.removed_bytes == summary.removed_bytes,
        r.removed_entries == summary.removed_entries,
        r.ts == match summary.ts {
            Some(t) => t,
            None => now,
        },
        r.classes@ == match summary.classes {
            Some(c) => c@,
            None => "{}"@,
        },
{
    let SweepSummary { repo, removed_bytes, removed_entries, classes, ts } = summary;
    let ts = match ts {
        Some(t) => t,
        None => now,
    };
    let classes = match classes {
        Some(c) => c,
        None => String::from_str("{}"),
    };
    SweepRecord { id, ts, repo, removed_bytes, removed_entries, classes }
}

/// `r` is what recording `summary` over the records `s` gives at the clock
/// reading `(secs, nanos)`: a record whenever the reading is a date, none
/// when it is out of chrono's range; the record carries the summary's
/// figures, its own time or else the reading's text, `{}` for absent
/// classes, and the fresh id built from the reading's text.
pub open spec fn is_summary_record_at(
    r: Option<SweepRecord>,
    s: Seq<LedgerRecord>,
    summary: SweepSummary,
    secs: i64,
    nanos: u32,
) -> bool {
    &&& is_date_reading(secs, nanos) ==> r is Some
    &&& !(FIRST_DATE_SECS <= secs <= LAST_DATE_SECS) ==> r is None
    &&& r matches Some(rec) ==> {
        &&& rec.id@ == fresh_id_text(s, rfc3339_text(secs, nanos))
        &&& !ids_of(s).contains(rec.id@)
        &&& rec.id@.len() > 0
        &&& rec.repo == summary.repo
        &&& rec.removed_bytes == summary.removed_bytes
        &&& rec.removed_entries == summary.removed_entries
        &&& summary.ts matches Some(t) ==> rec.ts == t
        &&& summary.ts is None ==> rec.ts@ == rfc3339_text(secs, nanos)
        &&& rec.classes@ == match summary.classes {
            Some(c) => c@,
            None => "{}"@,
        }
    }
}

/// The record that `record` appends for a sweep summary, stamped with the
/// clock reading `(secs, nanos)` unless the summary has its own time, under
/// an id that no record of `records` has, built from the reading's text.
/// `None` when the reading cannot be written as a date.
pub fn record_summary_at(records: &Vec<LedgerRecord>, summary: SweepSummary, secs: i64, nanos: u32) -> (r:
    Option<SweepRecord>)
    ensures
        is_summary_record_at(r, records@, summary, secs, nanos),
{
    let now = rfc3339_at(secs, nanos)?;
    let id = fresh_id(records, now.clone());
    Some(sweep_record_at(summary, id, now))
}

/// The record that `record` appends for a sweep summary, stamped with the
/// current time unless the summary has its own, under an id no record of
/// `records` has: `record_summary_at` at the reading taken. `None` when the
/// clock cannot be read as a date.
pub fn record_summary(records: &Vec<LedgerRecord>, summary: SweepSummary) -> (r: Option<SweepRecord>)
    ensures
        r is None || exists|secs: i64, nanos: u32|
            #![trigger is_summary_record_at(r, records@, summary, secs, nanos)]
            0 <= secs && nanos < 1_000_000_000 && is_summary_record_at(r, records@, summary, secs, nanos),
{
    let (secs, nanos) = clock_reading()?;
    let ghost given = summary;
    let r = record_summary_at(records, summary, secs, nanos);
    assert(is_summary_record_at(r, records@, given, secs, nanos));
    r
}

/// `r` is what attributing `crates` rebuilt crates and `wall_secs` seconds
/// to the sweep `sweep_id` over the records `s` gives at the clock reading
/// `(secs, nanos)`: `UnknownSweep` exactly when no sweep has that id;
/// otherwise `CostOverflow` exactly when the cost does not fit in a `u64`;
/// otherwise `ClockUnavailable` exactly when the reading cannot be written as
/// a date (always when it is out of chrono's range, never when it is a date
/// reading); otherwise the attribution, stamped with the reading's text and
/// under the fresh id built from it.
pub open spec fn is_attribution_outcome_at(
    r: Result<Attribution, AttributeError>,
    s: Seq<LedgerRecord>,
    sweep_id: Seq<char>,
    crates: u64,
    wall_secs: u64,
    secs: i64,
    nanos: u32,
) -> bool {
    let paired = has_sweep_id(s, sweep_id);
    let fits = cost_equivalent(crates, wall_secs) <= u64::MAX;
    &&& (r == Err::<Attribution, AttributeError>(AttributeError::UnknownSweep)) <==> !paired
    &&& (r == Err::<Attribution, AttributeError>(AttributeError::CostOverflow)) <==> (paired && !fits)
    &&& r == Err::<Attribution, AttributeError>(AttributeError::ClockUnavailable) ==> (paired && fits
        && !is_date_reading(secs, nanos))
    &&& paired && fits && !(FIRST_DATE_SECS <= secs <= LAST_DATE_SECS) ==> r
        == Err::<Attribution, AttributeError>(AttributeError::ClockUnavailable)
    &&& paired && fits && is_date_reading(secs, nanos) ==> r is Ok
    &&& r matches Ok(a) ==> {
        &&& paired
        &&& a.id@ == fresh_id_text(s, rfc3339_text(secs, nanos))
        &&& !ids_of(s).contains(a.id@)
        &&& a.ts@ == rfc3339_text(secs, nanos)
        &&& is_attribution_for(a, sweep_id, crates, wall_secs)
    }
}

/// `r` is what attributing gives with the clock read now: either the clock
/// could not be read, or `r` is the outcome at some reading of at least 0
/// seconds and under a second of nanoseconds. No sweep with the id, or a
/// cost that overflows, fails before the clock is read.
pub open spec fn is_attribution_outcome_now(
    r: Result<Attribution, AttributeError>,
    s: Seq<LedgerRecord>,
    sweep_id: Seq<char>,
    crates: u64,
    wall_secs: u64,
) -> bool {
    &&& (r == Err::<Attribution, AttributeError>(AttributeError::UnknownSweep)) <==> !has_sweep_id(
        s,
        sweep_id,
    )
    &&& (r == Err::<Attribution, AttributeError>(AttributeError::CostOverflow)) <==> (has_sweep_id(
        s,
        sweep_id,
    ) && cost_equivalent(crates, wall_secs) > u64::MAX)
    &&& r == Err::<Attribution, AttributeError>(AttributeError::ClockUnavailable) || exists|
        secs: i64,
        nanos: u32,
    |
        #![trigger is_attribution_outcome_at(r, s, sweep_id, crates, wall_secs, secs, nanos)]
        0 <= secs && nanos < 1_000_000_000 && is_attribution_outcome_at(
            r,
            s,
            sweep_id,
            crates,
            wall_secs,
            secs,
            nanos,
        )
}

/// The record that `attribute` appends, stamped with the clock reading
/// `(secs, nanos)`: the cost of `crates` rebuilt crates and `wall_secs`
/// seconds paired to the sweep `sweep_id`, under an id no record of
/// `records` has. Fails when no sweep has that id, else when the cost
/// overflows, else when the reading cannot be written as a date.
pub fn attribute_at(
    records: &Vec<LedgerRecord>,
    sweep_id: &str,
    crates: u64,
    wall_secs: u64,
    secs: i64,
    nanos: u32,
) -> (r: Result<Attribution, AttributeError>)
    ensures
        is_attribution_outcome_at(r, records@, sweep_id@, crates, wall_secs, secs, nanos),
{
    if !find_sweep_id(records, sweep_id) {
        return Err(AttributeError::UnknownSweep);
    }
    if rebuild_cost_bytes_equivalent(crates, wall_secs).is_none() {
        return Err(AttributeError::CostOverflow);
    }
    let now = match rfc3339_at(secs, nanos) {
        Some(t) => t,
        None => return Err(AttributeError::ClockUnavailable),
    };
    let id = fresh_id(records, now.clone());
    attribution_at(records, sweep_id, crates, wall_secs, id, now)
}

/// The record that `attribute` appends: the cost of `crates` rebuilt crates
/// and `wall_secs` seconds paired to the sweep `sweep_id`, stamped with the
/// current time, under an id no record of `records` has. Fails when no sweep
/// has that id, else when the cost overflows (the clock is not read in
/// either case), else when the clock cannot be read as a date; otherwise it
/// is `attribute_at` at the reading taken.
pub fn attribute(records: &Vec<LedgerRecord>, sweep_id: &str, crates: u64, wall_secs: u64) -> (r:
    Result<Attribution, AttributeError>)
    ensures
        is_attribution_outcome_now(r, records@, sweep_id@, crates, wall_secs),
{
    if !find_sweep_id(records, sweep_id) {
        let r = Err(AttributeError::UnknownSweep);
        assert(is_attribution_outcome_at(r, records@, sweep_id@, crates, wall_secs, 0, 0));
        return r;
    }
    if rebuild_cost_bytes_equivalent(crates, wall_secs).is_none() {
        let r = Err(AttributeError::CostOverflow);
        assert(is_attribution_outcome_at(r, records@, sweep_id@, crates, wall_secs, 0, 0));
        return r;
    }
    match clock_reading() {
        Some((secs, nanos)) => {
            let r = attribute_at(records, sweep_id, crates, wall_secs, secs, nanos);
            assert(is_attribution_outcome_at(r, records@, sweep_id@, crates, wall_secs, secs, nanos));
            r
        },
        None => Err(AttributeError::ClockUnavailable),
    }
}

/// The `reason` field of one line of a build log, when the line is a JSON
/// object whose `reason` is a string.
pub uninterp spec fn json_line_reason(line: Seq<char>) -> Option<Seq<char>>;

/// Calls serde_json's `from_str` on the line into a `serde_json::Value` and
/// takes its `reason` field where that is a string. The contract claims only
/// that the result is `json_line_reason` of the line's text: how JSON is
/// parsed is serde_json's and is not stated.
#[verifier::external_body]
fn line_reason(line: &str) -> (r: Option<String>)
    ensures
        r is Some <==> json_line_reason(line@) is Some,
        r matches Some(t) ==> json_line_reason(line@) == Some(t@),
{
    let value: serde_json::Value = serde_json::from_str(line).ok()?;
    value.get("reason").and_then(|v| v.as_str()).map(|t| t.to_string())
}

/// The view of an optional owned text.
pub open spec fn reason_view(r: Option<String>) -> Option<Seq<char>> {
    match r {
        Some(t) => Some(t@),
        None => None,
    }
}

/// The number of lines of a build log whose `reason` is
/// `compiler-artifact`.
pub open spec fn log_artifact_count(lines: Seq<String>) -> nat
    decreases lines.len(),
{
    if lines.len() == 0 {
        0
    } else {
        log_artifact_count(lines.drop_last()) + if json_line_reason(lines.last()@) == Some(
            "compiler-artifact"@,
        ) {
            1nat
        } else {
            0nat
        }
    }
}

proof fn lemma_artifact_count_of_reasons(reasons: Seq<Option<String>>, lines: Seq<String>)
    requires
        reasons.len() == lines.len(),
        forall|i: int| 0 <= i < lines.len() ==> reason_view(#[trigger] reasons[i]) == json_line_reason(lines[i]@),
    ensures
        artifact_count(reasons) == log_artifact_count(lines),
    decreases lines.len(),
{
    if lines.len() > 0 {
        lemma_artifact_count_of_reasons(reasons.drop_last(), lines.drop_last());
        assert(reason_view(reasons[lines.len() - 1]) == json_line_reason(lines[lines.len() - 1]@));
    }
}

/// The `reason` of each line of a build log, where it has one.
pub fn build_log_reasons(lines: &Vec<String>) -> (r: Vec<Option<String>>)
    ensures
        r@.len() == lines@.len(),
        forall|i: int| 0 <= i < lines@.len() ==> reason_view(#[trigger] r@[i]) == json_line_reason(lines@[i]@),
{
    let mut out: Vec<Option<String>> = Vec::new();
    let mut i: usize = 0;
    while i < lines.len()
        invariant
            i <= lines@.len(),
            out@.len() == i,
            forall|j: int| 0 <= j < i ==> reason_view(#[trigger] out@[j]) == json_line_reason(lines@[j]@),
        decreases lines@.len() - i,
    {
        out.push(line_reason(lines[i].as_str()));
        i = i + 1;
    }
    out
}

/// The attribution of a rebuild read from the lines of a
/// `cargo build --message-format=json` log: the crates are its lines whose
/// `reason` is `compiler-artifact`; otherwise as `attribute`.
pub fn attribute_from_build_log(
    records: &Vec<LedgerRecord>,
    sweep_id: &str,
    log_lines: &Vec<String>,
    wall_secs: u64,
) -> (r: Result<Attribution, AttributeError>)
    ensures
        is_attribution_outcome_now(
            r,
            records@,
            sweep_id@,
            log_artifact_count(log_lines@) as u64,
            wall_secs,
        ),
{
    let reasons = build_log_reasons(log_lines);
    let crates = count_compiler_artifacts(&reasons);
    proof {
        lemma_artifact_count_of_reasons(reasons@, log_lines@);
    }
    attribute(records, sweep_id, crates, wall_secs)
}

} // verus!
