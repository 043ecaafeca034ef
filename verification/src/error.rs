//! Why an operation on the ledger could not be completed.
use vstd::prelude::*;

verus! {

/// Why a ledger operation failed.
#[derive(Debug, PartialEq, Eq, Structural, Clone, Copy)]
pub enum LedgerError {
    /// The `since` bound reaches past the dates the clock can represent.
    SinceOutOfRange,
    /// A running total overflowed its machine type.
    TotalsOverflow,
    /// The net of a rebuild does not fit in an `i64`.
    NetOverflow,
    /// The system clock could not be read as a date.
    ClockUnavailable,
}

} // verus!
