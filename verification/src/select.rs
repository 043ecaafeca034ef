//! Selecting ledger entries by repository and by age.
use vstd::prelude::*;

use crate::clock::{
    clock_reading, cutoff_in_range, cutoff_text, rfc3339_days_before, span_seconds, span_too_long,
};
use crate::error::LedgerError;
use crate::entry::LedgerEntry;
use crate::text::{text_eq, text_ge, text_less};

verus! {

broadcast use vstd::seq_lib::group_filter_ensures;

/// The entries of `s` stamped at or after `cutoff` (as text compares).
pub open spec fn entries_since(s: Seq<LedgerEntry>, cutoff: Seq<char>) -> Seq<LedgerEntry> {
    s.filter(|e: LedgerEntry| text_ge(e.ts@, cutoff))
}

/// The entries of `s` that belong to `repo`.
pub open spec fn entries_of_repo(s: Seq<LedgerEntry>, repo: Seq<char>) -> Seq<LedgerEntry> {
    s.filter(|e: LedgerEntry| e.repo@ == repo)
}

/// The entries of `s` that belong to `repo` where one is given, else all.
pub open spec fn entries_for(s: Seq<LedgerEntry>, repo: Option<Seq<char>>) -> Seq<LedgerEntry> {
    match repo {
        Some(r) => entries_of_repo(s, r),
        None => s,
    }
}

/// The entries of `s` inside the window of `since` days before the clock
/// reading `(secs, nanos)`; all of them when no bound is given or no cutoff
/// can be formed.
pub open spec fn entries_in_window(s: Seq<LedgerEntry>, since: Option<u64>, secs: i64, nanos: u32) -> Seq<
    LedgerEntry,
> {
    match since {
        Some(d) => match cutoff_text(secs, nanos, d) {
            Some(c) => entries_since(s, c),
            None => s,
        },
        None => s,
    }
}

/// The view of an optional text.
pub open spec fn opt_view(t: Option<&str>) -> Option<Seq<char>> {
    match t {
        Some(s) => Some(s@),
        None => None,
    }
}

/// Keeps the entries whose timestamp is at or after `cutoff`, in order.
pub fn filter_entries_since_cutoff(entries: Vec<LedgerEntry>, cutoff: &str) -> (r: Vec<
    LedgerEntry,
>)
    ensures
        r@ == entries_since(entries@, cutoff@),
{
    let ghost pred = |e: LedgerEntry| text_ge(e.ts@, cutoff@);
    let mut out: Vec<LedgerEntry> = Vec::new();
    let mut i: usize = 0;
    assert(entries@.take(0).filter(pred) =~= Seq::<LedgerEntry>::empty()) by {
        reveal_with_fuel(Seq::<_>::filter, 1);
    }
    while i < entries.len()
        invariant
            i <= entries@.len(),
            out@ == entries@.take(i as int).filter(pred),
            pred == (|e: LedgerEntry| text_ge(e.ts@, cutoff@)),
        decreases entries@.len() - i,
    {
        let e = &entries[i];
        proof {
            reveal_with_fuel(Seq::<_>::filter, 1);
            assert(entries@.take(i + 1).drop_last() =~= entries@.take(i as int));
            assert(entries@.take(i + 1).last() == entries@[i as int]);
        }
        if !text_less(e.ts.as_str(), cutoff) {
            out.push(e.duplicate());
        }
        i = i + 1;
    }
    assert(entries@.take(entries@.len() as int) =~= entries@);
    out
}

/// Keeps the entries recorded in the last `since_days` days before the
/// clock reading `(secs, nanos)`; with no bound, all entries. `None` when the
/// cutoff cannot be represented as a date.
pub fn filter_entries_since_at(entries: Vec<LedgerEntry>, secs: i64, nanos: u32, since_days: Option<
    u64,
>) -> (r: Option<Vec<LedgerEntry>>)
    ensures
        since_days is None ==> r == Some(entries),
        since_days matches Some(d) ==> {
            &&& span_too_long(d) ==> r is None
            &&& cutoff_in_range(secs, nanos, d) ==> r is Some
            &&& nanos < 1_000_000_000 ==> (r is Some <==> cutoff_in_range(secs, nanos, d))
            &&& r matches Some(v) ==> (cutoff_text(secs, nanos, d) matches Some(c) && v@
                == entries_since(entries@, c))
        },
{
    match since_days {
        None => Some(entries),
        Some(days) => {
            let cutoff = rfc3339_days_before(secs, nanos, days)?;
            Some(filter_entries_since_cutoff(entries, cutoff.as_str()))
        },
    }
}

/// `r` is what keeping the entries of `s` recorded in the last `since` days
/// before the clock reading `(secs, nanos)` gives (all of them when no bound
/// is given): `None` where the span is too long, never where the cutoff is
/// one that can be formatted, and otherwise the entries at or after the
/// cutoff.
pub open spec fn is_window_at(
    r: Option<Seq<LedgerEntry>>,
    s: Seq<LedgerEntry>,
    since: Option<u64>,
    secs: i64,
    nanos: u32,
) -> bool {
    match since {
        None => r == Some(s),
        Some(d) => {
            &&& span_too_long(d) ==> r is None
            &&& cutoff_in_range(secs, nanos, d) ==> r is Some
            &&& nanos < 1_000_000_000 ==> (r is Some <==> cutoff_in_range(secs, nanos, d))
            &&& r matches Some(v) ==> (cutoff_text(secs, nanos, d) matches Some(c) && v
                == entries_since(s, c))
        },
    }
}

/// The entries kept, where some were.
pub open spec fn kept_view(r: Result<Vec<LedgerEntry>, LedgerError>) -> Option<Seq<LedgerEntry>> {
    match r {
        Ok(v) => Some(v@),
        Err(_) => None,
    }
}

/// Keeps the entries recorded in the last `since_days` days, as the clock
/// reads now; with no bound, all entries and the clock is not read.
/// `SinceOutOfRange` when the span or the cutoff cannot be represented (the
/// span is checked before the clock is read), `ClockUnavailable` when the
/// clock cannot be read. Otherwise the result is that of
/// `filter_entries_since_at` at the reading taken.
pub fn filter_entries_since(entries: Vec<LedgerEntry>, since_days: Option<u64>) -> (r: Result<
    Vec<LedgerEntry>,
    LedgerError,
>)
    ensures
        since_days is None ==> r == Ok::<Vec<LedgerEntry>, LedgerError>(entries),
        since_days matches Some(d) ==> {
            &&& span_too_long(d) ==> r == Err::<Vec<LedgerEntry>, LedgerError>(
                LedgerError::SinceOutOfRange,
            )
            &&& r == Err::<Vec<LedgerEntry>, LedgerError>(LedgerError::ClockUnavailable) || {
                &&& r matches Err(e) ==> e == LedgerError::SinceOutOfRange
                &&& exists|secs: i64, nanos: u32|
                    #![trigger is_window_at(kept_view(r), entries@, since_days, secs, nanos)]
                    0 <= secs && nanos < 1_000_000_000 && is_window_at(
                        kept_view(r),
                        entries@,
                        since_days,
                        secs,
                        nanos,
                    )
            }
        },
{
    match since_days {
        None => Ok(entries),
        Some(days) => {
            if span_seconds(days).is_none() {
                let r = Err(LedgerError::SinceOutOfRange);
                assert(is_window_at(kept_view(r), entries@, since_days, 0, 0));
                return r;
            }
            let (secs, nanos) = match clock_reading() {
                Some(reading) => reading,
                None => return Err(LedgerError::ClockUnavailable),
            };
            let ghost all = entries@;
            let r = match filter_entries_since_at(entries, secs, nanos, since_days) {
                Some(v) => Ok(v),
                None => Err(LedgerError::SinceOutOfRange),
            };
            assert(is_window_at(kept_view(r), all, since_days, secs, nanos));
            r
        },
    }
}

/// Keeps the entries of `repo` where one is given; else all entries.
pub fn filter_entries_for_repo(entries: Vec<LedgerEntry>, repo: Option<&str>) -> (r: Vec<
    LedgerEntry,
>)
    ensures
        r@ == entries_for(entries@, opt_view(repo)),
{
    match repo {
        None => entries,
        Some(name) => {
            let ghost pred = |e: LedgerEntry| e.repo@ == name@;
            let mut out: Vec<LedgerEntry> = Vec::new();
            let mut i: usize = 0;
            assert(entries@.take(0).filter(pred) =~= Seq::<LedgerEntry>::empty()) by {
                reveal_with_fuel(Seq::<_>::filter, 1);
            }
            while i < entries.len()
                invariant
                    i <= entries@.len(),
                    out@ == entries@.take(i as int).filter(pred),
                    pred == (|e: LedgerEntry| e.repo@ == name@),
                decreases entries@.len() - i,
            {
                let e = &entries[i];
                proof {
                    reveal_with_fuel(Seq::<_>::filter, 1);
                    assert(entries@.take(i + 1).drop_last() =~= entries@.take(i as int));
                    assert(entries@.take(i + 1).last() == entries@[i as int]);
                }
                if text_eq(e.repo.as_str(), name) {
                    out.push(e.duplicate());
                }
                i = i + 1;
            }
            assert(entries@.take(entries@.len() as int) =~= entries@);
            out
        },
    }
}

} // verus!
