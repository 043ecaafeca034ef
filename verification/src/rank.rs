//! Repositories ranked by how rarely they are rebuilt: the best candidates
//! for a sweep come first.
use vstd::prelude::*;

use crate::entry::LedgerEntry;
use crate::error::LedgerError;
use crate::stats::{aggregate_entries, aggregate_fits, keys_of, lemma_repo_order, repo_order, stats_match, RepoStats};

verus! {

/// The rebuild counts of `v` do not decrease.
pub open spec fn ascending_by_rebuilds(v: Seq<(String, RepoStats)>) -> bool {
    forall|i: int, j: int|
        0 <= i <= j < v.len() ==> (#[trigger] v[i]).1.rebuild_count <= (#[trigger] v[j]).1.rebuild_count
}

/// The smaller of `top` and `n`.
pub open spec fn min_len(top: u64, n: nat) -> nat {
    if top < n {
        top as nat
    } else {
        n
    }
}

/// `r` holds the `top` entries of `v` with the fewest rebuilds (all of them
/// when there are fewer), fewest first; entries with equal counts keep
/// their order in `v`.
pub open spec fn is_ranking_of(r: Seq<(String, RepoStats)>, v: Seq<(String, RepoStats)>, top: u64) -> bool {
    &&& r.len() == min_len(top, v.len())
    &&& ascending_by_rebuilds(r)
    &&& keys_of(r).no_duplicates()
    &&& forall|i: int| 0 <= i < r.len() ==> v.contains(#[trigger] r[i])
    &&& forall|i: int, j: int|
        #![trigger r[i], r[j]]
        0 <= i < j < r.len() && r[i].1.rebuild_count == r[j].1.rebuild_count ==> exists|
            m1: int,
            m2: int,
        | 0 <= m1 < m2 < v.len() && #[trigger] v[m1] == r[i] && #[trigger] v[m2] == r[j]
    &&& forall|x: (String, RepoStats), i: int|
        #![trigger v.contains(x), r[i]]
        v.contains(x) && !r.contains(x) && 0 <= i < r.len() ==> r[i].1.rebuild_count
            <= x.1.rebuild_count
}

/// Orders per-repository totals by rebuild count, fewest first, and keeps
/// the first `top`.
pub fn rank_by_rebuilds(v: Vec<(String, RepoStats)>, top: u64) -> (r: Vec<(String, RepoStats)>)
    requires
        keys_of(v@).no_duplicates(),
    ensures
        is_ranking_of(r@, v@, top),
{
    let ghost orig = v@;
    let n = v.len();
    let mut rest = v;
    let mut out: Vec<(String, RepoStats)> = Vec::new();
    while rest.len() > 0
        invariant
            orig.len() == n,
            keys_of(orig).no_duplicates(),
            rest@ == orig.take(rest@.len() as int),
            out@.len() + rest@.len() == n,
            ascending_by_rebuilds(out@),
            keys_of(out@).no_duplicates(),
            forall|i: int, j: int|
                #![trigger out@[i], out@[j]]
                0 <= i < j < out@.len() && out@[i].1.rebuild_count == out@[j].1.rebuild_count
                    ==> exists|m1: int, m2: int|
                    rest@.len() <= m1 < m2 < n && #[trigger] orig[m1] == out@[i] && #[trigger] orig[m2]
                        == out@[j],
            forall|x: (String, RepoStats)|
                out@.contains(x) <==> exists|m: int| rest@.len() <= m < n && orig[m] == x,
        decreases rest@.len(),
    {
        let ghost k = (rest@.len() - 1) as int;
        let x = rest.pop().unwrap();
        assert(x == orig[k]);
        assert(rest@ =~= orig.take(k));
        let mut p: usize = 0;
        while p < out.len() && out[p].1.rebuild_count < x.1.rebuild_count
            invariant
                p <= out@.len(),
                forall|i: int| 0 <= i < p ==> (#[trigger] out@[i]).1.rebuild_count < x.1.rebuild_count,
            decreases out@.len() - p,
        {
            p = p + 1;
        }
        let ghost before = out@;
        proof {
            // The name of `x` is not yet among the sorted ones.
            assert forall|i: int| 0 <= i < before.len() implies #[trigger] keys_of(before)[i]
                != x.0@ by {
                assert(before.contains(before[i]));
                let m = choose|m: int| k + 1 <= m < n && orig[m] == before[i];
                assert(keys_of(orig)[m] == before[i].0@);
                assert(keys_of(orig)[k] == x.0@);
            }
        }
        out.insert(p, x);
        proof {
            let t = out@;
            assert forall|i: int, j: int| 0 <= i <= j < t.len() implies (#[trigger] t[i]).1.rebuild_count
                <= (#[trigger] t[j]).1.rebuild_count by {
                if j < p {
                    assert(t[i] == before[i] && t[j] == before[j]);
                } else if j == p {
                    if i < p {
                        assert(t[i] == before[i]);
                    }
                } else if i < p {
                    assert(t[i] == before[i] && t[j] == before[j - 1]);
                    assert(before[p as int].1.rebuild_count <= before[j - 1].1.rebuild_count);
                } else if i == p {
                    assert(t[j] == before[j - 1]);
                    assert(before[p as int].1.rebuild_count <= before[j - 1].1.rebuild_count);
                } else {
                    assert(t[i] == before[i - 1] && t[j] == before[j - 1]);
                }
            }
            assert forall|i: int, j: int|
                0 <= i < keys_of(t).len() && 0 <= j < keys_of(t).len() && i != j implies keys_of(t)[i]
                != keys_of(t)[j] by {
                let bi = if i < p {
                    i
                } else {
                    i - 1
                };
                let bj = if j < p {
                    j
                } else {
                    j - 1
                };
                if i != p && j != p {
                    assert(t[i] == before[bi] && t[j] == before[bj]);
                    assert(keys_of(before)[bi] != keys_of(before)[bj]);
                } else if i == p {
                    assert(t[j] == before[bj]);
                    assert(keys_of(before)[bj] != x.0@);
                } else {
                    assert(t[i] == before[bi]);
                    assert(keys_of(before)[bi] != x.0@);
                }
            }
            assert forall|i: int, j: int|
                #![trigger t[i], t[j]]
                0 <= i < j < t.len() && t[i].1.rebuild_count == t[j].1.rebuild_count implies exists|
                    m1: int,
                    m2: int,
                | k <= m1 < m2 < n && #[trigger] orig[m1] == t[i] && #[trigger] orig[m2] == t[j] by {
                if i == p {
                    assert(t[j] == before[j - 1]);
                    assert(before.contains(before[j - 1]));
                    let m = choose|m: int| k + 1 <= m < n && orig[m] == before[j - 1];
                    assert(orig[k] == t[i] && orig[m] == t[j]);
                } else if j == p {
                    assert(t[i] == before[i]);
                } else {
                    let bi = if i < p {
                        i
                    } else {
                        i - 1
                    };
                    let bj = if j < p {
                        j
                    } else {
                        j - 1
                    };
                    assert(t[i] == before[bi] && t[j] == before[bj]);
                    assert(bi < bj);
                    assert(before[bi].1.rebuild_count == before[bj].1.rebuild_count);
                    let (m1, m2) = choose|m1: int, m2: int|
                        k + 1 <= m1 < m2 < n && #[trigger] orig[m1] == before[bi] && #[trigger] orig[m2]
                            == before[bj];
                    assert(orig[m1] == t[i] && orig[m2] == t[j]);
                }
            }
            assert forall|z: (String, RepoStats)| out@.contains(z) <==> exists|m: int|
                k <= m < n && orig[m] == z by {
                if out@.contains(z) {
                    let i = choose|i: int| 0 <= i < out@.len() && out@[i] == z;
                    if i < p {
                        assert(before[i] == z);
                        assert(before.contains(z));
                    } else if i == p {
                        assert(orig[k] == z);
                    } else {
                        assert(before[i - 1] == z);
                        assert(before.contains(z));
                    }
                }
                if exists|m: int| k <= m < n && orig[m] == z {
                    let m = choose|m: int| k <= m < n && orig[m] == z;
                    if m == k {
                        assert(out@[p as int] == z);
                    } else {
                        assert(before.contains(z));
                        let i = choose|i: int| 0 <= i < before.len() && before[i] == z;
                        if i < p {
                            assert(out@[i] == z);
                        } else {
                            assert(out@[i + 1] == z);
                        }
                    }
                }
            }
        }
    }
    let ghost full = out@;
    let keep: usize = if (n as u64) <= top {
        n
    } else {
        top as usize
    };
    out.truncate(keep);
    proof {
        let r = out@;
        assert(r =~= full.take(keep as int));
        assert(keys_of(r) =~= keys_of(full).take(keep as int));
        assert forall|i: int, j: int|
            #![trigger r[i], r[j]]
            0 <= i < j < r.len() && r[i].1.rebuild_count == r[j].1.rebuild_count implies exists|
                m1: int,
                m2: int,
            | 0 <= m1 < m2 < orig.len() && #[trigger] orig[m1] == r[i] && #[trigger] orig[m2] == r[j] by {
            assert(full[i] == r[i] && full[j] == r[j]);
        }
        assert forall|i: int| 0 <= i < r.len() implies orig.contains(#[trigger] r[i]) by {
            assert(full[i] == r[i]);
            assert(full.contains(r[i]));
            let m = choose|m: int| 0 <= m < n && orig[m] == r[i];
        }
        assert forall|x: (String, RepoStats), i: int|
            #![trigger orig.contains(x), r[i]]
            orig.contains(x) && !r.contains(x) && 0 <= i < r.len() implies r[i].1.rebuild_count
            <= x.1.rebuild_count by {
            let m0 = choose|m: int| 0 <= m < n && orig[m] == x;
            assert(exists|m: int| 0 <= m < n && orig[m] == x);
            assert(full.contains(x));
            let m = choose|m: int| 0 <= m < full.len() && full[m] == x;
            if m < keep {
                assert(r[m] == x);
            }
            assert(full[i] == r[i]);
        }
    }
    out
}

/// The ranking of the repositories of `s`: at most `top` pairs, each a
/// repository of `s` with its totals, fewest rebuilds first (repositories
/// with equal counts in the order they first appear in `s`), such that every
/// repository left out was rebuilt at least as often as every one kept.
pub open spec fn is_hot_repos_of(r: Seq<(String, RepoStats)>, s: Seq<LedgerEntry>, top: u64) -> bool {
    &&& r.len() == min_len(top, repo_order(s).len())
    &&& ascending_by_rebuilds(r)
    &&& keys_of(r).no_duplicates()
    &&& forall|i: int|
        0 <= i < r.len() ==> repo_order(s).contains(#[trigger] r[i].0@) && stats_match(
            r[i].1,
            s,
            r[i].0@,
        )
    &&& forall|i: int, j: int|
        #![trigger r[i], r[j]]
        0 <= i < j < r.len() && r[i].1.rebuild_count == r[j].1.rebuild_count ==> exists|
            m1: int,
            m2: int,
        | 0 <= m1 < m2 < repo_order(s).len() && #[trigger] repo_order(s)[m1] == r[i].0@
            && #[trigger] repo_order(s)[m2] == r[j].0@
    &&& forall|name: Seq<char>, st: RepoStats, i: int|
        #![trigger stats_match(st, s, name), r[i]]
        repo_order(s).contains(name) && stats_match(st, s, name) && !keys_of(r).contains(name) && 0
            <= i < r.len() ==> r[i].1.rebuild_count <= st.rebuild_count
}

/// The `top` repositories of `entries` with the fewest rebuilds; an error
/// exactly when the totals overflow.
pub fn hot_repos(entries: &Vec<LedgerEntry>, top: u64) -> (r: Result<Vec<(String, RepoStats)>, LedgerError>)
    ensures
        r is Ok <==> aggregate_fits(entries@),
        r matches Ok(v) ==> is_hot_repos_of(v@, entries@, top),
        r matches Err(e) ==> e == LedgerError::TotalsOverflow,
{
    let totals = match aggregate_entries(entries) {
        Some(t) => t,
        None => return Err(LedgerError::TotalsOverflow),
    };
    proof {
        lemma_repo_order(entries@);
    }
    let ghost agg = totals@;
    let ranked = rank_by_rebuilds(totals, top);
    proof {
        let r = ranked@;
        assert(agg.len() == keys_of(agg).len());
        assert forall|i: int| 0 <= i < r.len() implies repo_order(entries@).contains(
            #[trigger] r[i].0@,
        ) && stats_match(r[i].1, entries@, r[i].0@) by {
            assert(agg.contains(r[i]));
            let j = choose|j: int| 0 <= j < agg.len() && agg[j] == r[i];
            assert(keys_of(agg)[j] == r[i].0@);
        }
        assert forall|i: int, j: int|
            #![trigger r[i], r[j]]
            0 <= i < j < r.len() && r[i].1.rebuild_count == r[j].1.rebuild_count implies exists|
                m1: int,
                m2: int,
            | 0 <= m1 < m2 < repo_order(entries@).len() && #[trigger] repo_order(entries@)[m1]
                == r[i].0@ && #[trigger] repo_order(entries@)[m2] == r[j].0@ by {
            let (m1, m2) = choose|m1: int, m2: int|
                0 <= m1 < m2 < agg.len() && #[trigger] agg[m1] == r[i] && #[trigger] agg[m2] == r[j];
            assert(keys_of(agg)[m1] == r[i].0@);
            assert(keys_of(agg)[m2] == r[j].0@);
        }
        assert forall|name: Seq<char>, st: RepoStats, i: int|
            #![trigger stats_match(st, entries@, name), r[i]]
            repo_order(entries@).contains(name) && stats_match(st, entries@, name) && !keys_of(
                r,
            ).contains(name) && 0 <= i < r.len() implies r[i].1.rebuild_count
            <= st.rebuild_count by {
            let j = choose|j: int| 0 <= j < keys_of(agg).len() && keys_of(agg)[j] == name;
            let x = agg[j];
            assert(agg.contains(x));
            if r.contains(x) {
                let q = choose|q: int| 0 <= q < r.len() && r[q] == x;
                assert(keys_of(r)[q] == name);
            }
            assert(x.1.rebuild_count == st.rebuild_count);
        }
    }
    Ok(ranked)
}

} // verus!
