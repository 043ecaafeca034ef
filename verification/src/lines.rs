//! Folding the lines of a ledger file into its records: blank lines are
//! ignored, and a line that does not parse is skipped with a warning rather
//! than failing the whole read.
use vstd::prelude::*;

verus! {

/// One line of a ledger file, as read.
pub enum LineRead<T> {
    /// Empty or whitespace only.
    Blank,
    /// A record.
    Parsed(T),
    /// Not a record; the text says why.
    Corrupt(String),
}

/// What reading a ledger yields: its records in file order, and the
/// 1-based number of each line that was skipped, with the reason.
pub struct LedgerRead<T> {
    pub records: Vec<T>,
    pub skipped: Vec<(usize, String)>,
}

/// The records among `lines`, in order.
pub open spec fn parsed_records<T>(lines: Seq<LineRead<T>>) -> Seq<T>
    decreases lines.len(),
{
    if lines.len() == 0 {
        seq![]
    } else {
        let prev = parsed_records(lines.drop_last());
        match lines.last() {
            LineRead::Parsed(t) => prev.push(t),
            _ => prev,
        }
    }
}

/// The 1-based numbers of the corrupt lines among `lines`, each with its
/// reason, in order.
pub open spec fn corrupt_lines<T>(lines: Seq<LineRead<T>>) -> Seq<(int, Seq<char>)>
    decreases lines.len(),
{
    if lines.len() == 0 {
        seq![]
    } else {
        let prev = corrupt_lines(lines.drop_last());
        match lines.last() {
            LineRead::Corrupt(why) => prev.push((lines.len() as int, why@)),
            _ => prev,
        }
    }
}

/// The 1-based numbers and reasons of skipped lines, as integers and texts.
pub open spec fn skipped_view(v: Seq<(usize, String)>) -> Seq<(int, Seq<char>)> {
    Seq::new(v.len(), |i: int| (v[i].0 as int, v[i].1@))
}

/// Keeps the records of a ledger's lines and notes which lines were skipped.
pub fn collect_lines<T>(lines: Vec<LineRead<T>>) -> (r: LedgerRead<T>)
    ensures
        r.records@ == parsed_records(lines@),
        skipped_view(r.skipped@) == corrupt_lines(lines@),
{
    let ghost all = lines@;
    let n = lines.len();
    let mut records: Vec<T> = Vec::new();
    let mut skipped: Vec<(usize, String)> = Vec::new();
    let mut number: usize = 0;
    assert(all.take(0) =~= Seq::<LineRead<T>>::empty());
    assert(skipped_view(skipped@) =~= Seq::<(int, Seq<char>)>::empty());
    for line in it: lines
        invariant
            n == all.len(),
            it.seq() == all,
            number == it.index(),
            number <= n,
            records@ == parsed_records(all.take(number as int)),
            skipped_view(skipped@) == corrupt_lines(all.take(number as int)),
    {
        proof {
            assert(all.take(number + 1).drop_last() =~= all.take(number as int));
            assert(all.take(number + 1).last() == line);
        }
        let ghost before = skipped@;
        match line {
            LineRead::Blank => {},
            LineRead::Parsed(t) => {
                records.push(t);
            },
            LineRead::Corrupt(why) => {
                skipped.push((number + 1, why));
                assert(skipped_view(skipped@) =~= skipped_view(before).push(
                    ((number + 1) as int, skipped@.last().1@),
                ));
            },
        }
        number = number + 1;
    }
    assert(all.take(n as int) =~= all);
    LedgerRead { records, skipped }
}

} // verus!
