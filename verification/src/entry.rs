//! Ledger entries recorded by `record-sweep` and `record-rebuild`.
use vstd::prelude::*;
use vstd::string::*;

use crate::clock::{clock_reading, is_date_reading, rfc3339_at, rfc3339_text};
use crate::error::LedgerError;
use crate::text::text_eq;

verus! {

/// One line of the sweep/rebuild ledger.
#[derive(Debug, Clone)]
pub struct LedgerEntry {
    pub ts: String,
    pub event: String,
    pub repo: String,
    pub target_dir: Option<String>,
    pub bytes_reclaimed: Option<u64>,
    pub rebuild_cost_bytes: Option<u64>,
    pub rebuild_wall_secs: Option<u64>,
    pub net_bytes: Option<i64>,
}

/// The entry records a sweep.
pub open spec fn is_sweep(e: LedgerEntry) -> bool {
    e.event@ == "sweep"@
}

/// The entry records a rebuild.
pub open spec fn is_rebuild(e: LedgerEntry) -> bool {
    e.event@ == "rebuild"@
}

/// No entry records both a sweep and a rebuild.
pub proof fn lemma_sweep_is_not_rebuild(e: LedgerEntry)
    ensures
        !(is_sweep(e) && is_rebuild(e)),
{
    reveal_strlit("sweep");
    reveal_strlit("rebuild");
    assert("sweep"@.len() != "rebuild"@.len());
}

/// A copy of an optional text with the same content.
pub fn copy_text_option(t: &Option<String>) -> (r: Option<String>)
    ensures
        r == *t,
{
    match t {
        Some(s) => Some(s.clone()),
        None => None,
    }
}

impl LedgerEntry {
    /// A field-by-field copy.
    pub fn duplicate(&self) -> (r: LedgerEntry)
        ensures
            r == *self,
    {
        LedgerEntry {
            ts: self.ts.clone(),
            event: self.event.clone(),
            repo: self.repo.clone(),
            target_dir: copy_text_option(&self.target_dir),
            bytes_reclaimed: self.bytes_reclaimed,
            rebuild_cost_bytes: self.rebuild_cost_bytes,
            rebuild_wall_secs: self.rebuild_wall_secs,
            net_bytes: self.net_bytes,
        }
    }

    /// Whether this entry records a sweep.
    pub fn records_sweep(&self) -> (r: bool)
        ensures
            r == is_sweep(*self),
    {
        text_eq(self.event.as_str(), "sweep")
    }

    /// Whether this entry records a rebuild.
    pub fn records_rebuild(&self) -> (r: bool)
        ensures
            r == is_rebuild(*self),
    {
        text_eq(self.event.as_str(), "rebuild")
    }
}

/// The sweep entry for `repo` stamped `ts`: `bytes` reclaimed from `target`.
pub open spec fn is_sweep_entry_for(
    e: LedgerEntry,
    repo: Seq<char>,
    target: Seq<char>,
    bytes: u64,
) -> bool {
    &&& is_sweep(e)
    &&& e.repo@ == repo
    &&& e.target_dir is Some
    &&& e.target_dir.unwrap()@ == target
    &&& e.bytes_reclaimed == Some(bytes)
    &&& e.rebuild_cost_bytes is None
    &&& e.rebuild_wall_secs is None
    &&& e.net_bytes is None
}

/// Builds the sweep entry for `repo` at time `ts`.
pub fn sweep_entry_at(ts: String, repo: &str, target: &str, bytes: u64) -> (e: LedgerEntry)
    ensures
        e.ts == ts,
        is_sweep_entry_for(e, repo@, target@, bytes),
{
    LedgerEntry {
        ts,
        event: String::from_str("sweep"),
        repo: String::from_str(repo),
        target_dir: Some(String::from_str(target)),
        bytes_reclaimed: Some(bytes),
        rebuild_cost_bytes: None,
        rebuild_wall_secs: None,
        net_bytes: None,
    }
}

/// The sweep entry stamped with the clock reading `(secs, nanos)`; `None`
/// when that instant cannot be written as a date.
pub fn sweep_entry_stamped(secs: i64, nanos: u32, repo: &str, target: &str, bytes: u64) -> (r: Option<
    LedgerEntry,
>)
    ensures
        r matches Some(e) ==> e.ts@ == rfc3339_text(secs, nanos) && is_sweep_entry_for(
            e,
            repo@,
            target@,
            bytes,
        ),
        is_date_reading(secs, nanos) ==> r is Some,
        !(crate::clock::FIRST_DATE_SECS <= secs <= crate::clock::LAST_DATE_SECS) ==> r is None,
{
    let ts = rfc3339_at(secs, nanos)?;
    Some(sweep_entry_at(ts, repo, target, bytes))
}

/// The entry that `record-sweep` appends: a sweep of `target` in `repo`
/// that reclaimed `bytes`, stamped with the current time. `None` when the
/// clock cannot be read as a date.
pub fn record_sweep(repo: &str, target: &str, bytes: u64) -> (r: Option<LedgerEntry>)
    ensures
        r matches Some(e) ==> is_sweep_entry_for(e, repo@, target@, bytes) && exists|secs: i64, nanos: u32|
            e.ts@ == rfc3339_text(secs, nanos),
{
    let (secs, nanos) = clock_reading()?;
    sweep_entry_stamped(secs, nanos, repo, target, bytes)
}

/// The index of the most recent sweep of `repo`, if any.
pub open spec fn last_sweep_index(s: Seq<LedgerEntry>, repo: Seq<char>) -> Option<int>
    decreases s.len(),
{
    if s.len() == 0 {
        None
    } else if is_sweep(s.last()) && s.last().repo@ == repo {
        Some(s.len() - 1)
    } else {
        last_sweep_index(s.drop_last(), repo)
    }
}

/// What the most recent sweep of `repo` reclaimed: `None` when there is no
/// sweep of `repo`, or when that sweep carries no byte count.
pub open spec fn last_sweep_reclaimed(s: Seq<LedgerEntry>, repo: Seq<char>) -> Option<u64> {
    match last_sweep_index(s, repo) {
        Some(i) => s[i].bytes_reclaimed,
        None => None,
    }
}

/// What the most recent sweep of `repo` in `entries` reclaimed.
pub fn find_last_sweep_reclaimed(entries: &Vec<LedgerEntry>, repo: &str) -> (r: Option<u64>)
    ensures
        r == last_sweep_reclaimed(entries@, repo@),
{
    let mut i = entries.len();
    assert(entries@.take(i as int) =~= entries@);
    while i > 0
        invariant
            i <= entries@.len(),
            last_sweep_index(entries@, repo@) == last_sweep_index(entries@.take(i as int), repo@),
        decreases i,
    {
        let e = &entries[i - 1];
        assert(entries@.take(i as int).last() == entries@[i - 1]);
        assert(entries@.take(i as int).drop_last() =~= entries@.take(i - 1));
        if e.records_sweep() && text_eq(e.repo.as_str(), repo) {
            return e.bytes_reclaimed;
        }
        i = i - 1;
    }
    assert(entries@.take(0).len() == 0);
    None
}

/// `x as i64`: the two's complement reading of the 64 bits of `x`.
pub open spec fn as_i64_bits(x: u64) -> int {
    if x <= i64::MAX {
        x as int
    } else {
        x - 0x1_0000_0000_0000_0000
    }
}

/// The net of a rebuild, `reclaimed as i64 - written as i64`, taken over the
/// integers.
pub open spec fn net_of(reclaimed: u64, written: u64) -> int {
    as_i64_bits(reclaimed) - as_i64_bits(written)
}

/// The net fits in an `i64`, so its subtraction does not overflow.
pub open spec fn net_fits(reclaimed: u64, written: u64) -> bool {
    i64::MIN <= net_of(reclaimed, written) <= i64::MAX
}

/// The rebuild entry for `repo` stamped `ts`, with its net taken against
/// `reclaimed`, what the latest sweep of `repo` reclaimed.
pub open spec fn is_rebuild_entry_for(
    e: LedgerEntry,
    repo: Seq<char>,
    wall_secs: u64,
    bytes_written: u64,
    reclaimed: Option<u64>,
) -> bool {
    &&& is_rebuild(e)
    &&& e.repo@ == repo
    &&& e.target_dir is None
    &&& e.bytes_reclaimed is None
    &&& e.rebuild_cost_bytes == Some(bytes_written)
    &&& e.rebuild_wall_secs == Some(wall_secs)
    &&& match reclaimed {
        Some(r) => e.net_bytes matches Some(n) && n == net_of(r, bytes_written),
        None => e.net_bytes is None,
    }
}

/// `x as i64`.
pub fn bits_as_i64(x: u64) -> (r: i64)
    ensures
        r == as_i64_bits(x),
{
    if x <= 0x7fff_ffff_ffff_ffff {
        x as i64
    } else {
        let low = (x - 0x8000_0000_0000_0000) as i64;
        low + i64::MIN
    }
}

/// The net that a rebuild of `repo` writing `bytes_written` records:
/// `Some(None)` when `repo` was never swept (or its latest sweep carries no
/// count), `Some(Some(n))` with the net otherwise, and `None` exactly when
/// the net overflows an `i64`.
pub fn rebuild_net(entries: &Vec<LedgerEntry>, repo: &str, bytes_written: u64) -> (r: Option<
    Option<i64>,
>)
    ensures
        r is None <==> (last_sweep_reclaimed(entries@, repo@) matches Some(x) && !net_fits(
            x,
            bytes_written,
        )),
        r matches Some(n) ==> match last_sweep_reclaimed(entries@, repo@) {
            Some(x) => n matches Some(v) && v == net_of(x, bytes_written),
            None => n is None,
        },
{
    match find_last_sweep_reclaimed(entries, repo) {
        Some(x) => {
            let a = bits_as_i64(x);
            let b = bits_as_i64(bytes_written);
            match a.checked_sub(b) {
                Some(n) => Some(Some(n)),
                None => None,
            }
        },
        None => Some(None),
    }
}

/// The rebuild entry for `repo` at time `ts` with the given net.
pub fn rebuild_entry_with(
    ts: String,
    repo: &str,
    wall_secs: u64,
    bytes_written: u64,
    net_bytes: Option<i64>,
) -> (e: LedgerEntry)
    ensures
        e.ts == ts,
        e.net_bytes == net_bytes,
        is_rebuild(e),
        e.repo@ == repo@,
        e.target_dir is None,
        e.bytes_reclaimed is None,
        e.rebuild_cost_bytes == Some(bytes_written),
        e.rebuild_wall_secs == Some(wall_secs),
{
    LedgerEntry {
        ts,
        event: String::from_str("rebuild"),
        repo: String::from_str(repo),
        target_dir: None,
        bytes_reclaimed: None,
        rebuild_cost_bytes: Some(bytes_written),
        rebuild_wall_secs: Some(wall_secs),
        net_bytes,
    }
}

/// Builds the rebuild entry for `repo` at time `ts`; `None` exactly when the
/// net against the latest sweep would overflow an `i64`.
pub fn rebuild_entry_at(
    ts: String,
    entries: &Vec<LedgerEntry>,
    repo: &str,
    wall_secs: u64,
    bytes_written: u64,
) -> (r: Option<LedgerEntry>)
    ensures
        r is None <==> (last_sweep_reclaimed(entries@, repo@) matches Some(x) && !net_fits(
            x,
            bytes_written,
        )),
        r matches Some(e) ==> e.ts == ts && is_rebuild_entry_for(
            e,
            repo@,
            wall_secs,
            bytes_written,
            last_sweep_reclaimed(entries@, repo@),
        ),
{
    let net = rebuild_net(entries, repo, bytes_written)?;
    Some(rebuild_entry_with(ts, repo, wall_secs, bytes_written, net))
}

/// The entry that `record-rebuild` appends for `repo`, stamped with the
/// current time: its net is what the most recent sweep of `repo` reclaimed
/// minus `bytes_written`, and absent when there is no such sweep.
/// `NetOverflow` exactly when that net overflows an `i64` (the clock is not
/// read then); `ClockUnavailable` when the clock cannot be read as a date.
pub fn record_rebuild(entries: &Vec<LedgerEntry>, repo: &str, wall_secs: u64, bytes_written: u64) -> (r:
    Result<LedgerEntry, LedgerError>)
    ensures
        r == Err::<LedgerEntry, LedgerError>(LedgerError::NetOverflow) <==> (last_sweep_reclaimed(
            entries@,
            repo@,
        ) matches Some(x) && !net_fits(x, bytes_written)),
        r matches Err(e) ==> e == LedgerError::NetOverflow || e == LedgerError::ClockUnavailable,
        r matches Ok(e) ==> is_rebuild_entry_for(
            e,
            repo@,
            wall_secs,
            bytes_written,
            last_sweep_reclaimed(entries@, repo@),
        ) && exists|secs: i64, nanos: u32| e.ts@ == rfc3339_text(secs, nanos),
{
    let net = match rebuild_net(entries, repo, bytes_written) {
        Some(n) => n,
        None => return Err(LedgerError::NetOverflow),
    };
    let (secs, nanos) = match clock_reading() {
        Some(reading) => reading,
        None => return Err(LedgerError::ClockUnavailable),
    };
    let ts = match rfc3339_at(secs, nanos) {
        Some(t) => t,
        None => return Err(LedgerError::ClockUnavailable),
    };
    Ok(rebuild_entry_with(ts, repo, wall_secs, bytes_written, net))
}

} // verus!
