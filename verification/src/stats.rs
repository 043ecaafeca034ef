//! Per-repository totals over the sweep/rebuild ledger.
use vstd::prelude::*;

use crate::entry::{is_rebuild, is_sweep, lemma_sweep_is_not_rebuild, LedgerEntry};
use crate::text::text_eq;

verus! {

/// Totals of one repository's entries.
pub struct RepoStats {
    pub sweeps: u64,
    pub total_reclaimed: u64,
    pub total_rebuild_cost: u64,
    pub net_bytes: i64,
    pub rebuild_count: u64,
}

impl RepoStats {
    /// All totals zero.
    pub fn new() -> (r: RepoStats)
        ensures
            r.sweeps == 0,
            r.total_reclaimed == 0,
            r.total_rebuild_cost == 0,
            r.net_bytes == 0,
            r.rebuild_count == 0,
    {
        RepoStats { sweeps: 0, total_reclaimed: 0, total_rebuild_cost: 0, net_bytes: 0, rebuild_count: 0 }
    }

    /// A copy with the same totals.
    pub fn duplicate(&self) -> (r: RepoStats)
        ensures
            r == *self,
    {
        RepoStats {
            sweeps: self.sweeps,
            total_reclaimed: self.total_reclaimed,
            total_rebuild_cost: self.total_rebuild_cost,
            net_bytes: self.net_bytes,
            rebuild_count: self.rebuild_count,
        }
    }
}

/// The entry belongs to `repo`.
pub open spec fn of_repo(e: LedgerEntry, repo: Seq<char>) -> bool {
    e.repo@ == repo
}

/// The number of sweeps of `repo`.
pub open spec fn sweep_count(s: Seq<LedgerEntry>, repo: Seq<char>) -> nat
    decreases s.len(),
{
    if s.len() == 0 {
        0
    } else {
        sweep_count(s.drop_last(), repo) + if of_repo(s.last(), repo) && is_sweep(s.last()) {
            1nat
        } else {
            0nat
        }
    }
}

/// The bytes reclaimed by the sweeps of `repo` (a sweep without a count adds 0).
pub open spec fn reclaimed_total(s: Seq<LedgerEntry>, repo: Seq<char>) -> nat
    decreases s.len(),
{
    if s.len() == 0 {
        0
    } else {
        reclaimed_total(s.drop_last(), repo) + if of_repo(s.last(), repo) && is_sweep(s.last()) {
            match s.last().bytes_reclaimed {
                Some(b) => b as nat,
                None => 0nat,
            }
        } else {
            0nat
        }
    }
}

/// The number of rebuilds of `repo`.
pub open spec fn rebuild_count(s: Seq<LedgerEntry>, repo: Seq<char>) -> nat
    decreases s.len(),
{
    if s.len() == 0 {
        0
    } else {
        rebuild_count(s.drop_last(), repo) + if of_repo(s.last(), repo) && is_rebuild(s.last()) {
            1nat
        } else {
            0nat
        }
    }
}

/// The bytes written by the rebuilds of `repo` (a rebuild without a cost adds 0).
pub open spec fn rebuild_cost_total(s: Seq<LedgerEntry>, repo: Seq<char>) -> nat
    decreases s.len(),
{
    if s.len() == 0 {
        0
    } else {
        rebuild_cost_total(s.drop_last(), repo) + if of_repo(s.last(), repo) && is_rebuild(
            s.last(),
        ) {
            match s.last().rebuild_cost_bytes {
                Some(b) => b as nat,
                None => 0nat,
            }
        } else {
            0nat
        }
    }
}

/// The sum of the nets recorded by the rebuilds of `repo`.
pub open spec fn net_total(s: Seq<LedgerEntry>, repo: Seq<char>) -> int
    decreases s.len(),
{
    if s.len() == 0 {
        0
    } else {
        net_total(s.drop_last(), repo) + if of_repo(s.last(), repo) && is_rebuild(s.last()) {
            match s.last().net_bytes {
                Some(n) => n as int,
                None => 0int,
            }
        } else {
            0int
        }
    }
}

/// `st` holds the totals of `repo` over `s`.
pub open spec fn stats_match(st: RepoStats, s: Seq<LedgerEntry>, repo: Seq<char>) -> bool {
    &&& st.sweeps == sweep_count(s, repo)
    &&& st.total_reclaimed == reclaimed_total(s, repo)
    &&& st.total_rebuild_cost == rebuild_cost_total(s, repo)
    &&& st.net_bytes == net_total(s, repo)
    &&& st.rebuild_count == rebuild_count(s, repo)
}

/// The totals of `repo` over `s` fit their machine types.
pub open spec fn stats_fit(s: Seq<LedgerEntry>, repo: Seq<char>) -> bool {
    &&& sweep_count(s, repo) <= u64::MAX
    &&& reclaimed_total(s, repo) <= u64::MAX
    &&& rebuild_cost_total(s, repo) <= u64::MAX
    &&& rebuild_count(s, repo) <= u64::MAX
    &&& i64::MIN <= net_total(s, repo) <= i64::MAX
}

/// Adding the entries up one by one never overflows a running total.
pub open spec fn aggregate_fits(s: Seq<LedgerEntry>) -> bool {
    forall|i: int| 0 < i <= s.len() ==> #[trigger] stats_fit(s.take(i), s[i - 1].repo@)
}

/// The repositories of `s`, each once, in the order of first appearance.
pub open spec fn repo_order(s: Seq<LedgerEntry>) -> Seq<Seq<char>>
    decreases s.len(),
{
    if s.len() == 0 {
        seq![]
    } else {
        let prev = repo_order(s.drop_last());
        if prev.contains(s.last().repo@) {
            prev
        } else {
            prev.push(s.last().repo@)
        }
    }
}

/// The repository names of a list of per-repository totals.
pub open spec fn keys_of(v: Seq<(String, RepoStats)>) -> Seq<Seq<char>> {
    Seq::new(v.len(), |i: int| v[i].0@)
}

pub proof fn lemma_repo_order(s: Seq<LedgerEntry>)
    ensures
        repo_order(s).no_duplicates(),
        forall|r: Seq<char>|
            repo_order(s).contains(r) <==> exists|k: int| 0 <= k < s.len() && #[trigger] s[k].repo@ == r,
    decreases s.len(),
{
    if s.len() > 0 {
        let d = s.drop_last();
        lemma_repo_order(d);
        assert forall|r: Seq<char>|
            repo_order(s).contains(r) <==> exists|k: int| 0 <= k < s.len() && #[trigger] s[k].repo@ == r by {
            if repo_order(s).contains(r) {
                if repo_order(d).contains(r) {
                    let k = choose|k: int| 0 <= k < d.len() && #[trigger] d[k].repo@ == r;
                    assert(s[k].repo@ == r);
                } else {
                    assert(repo_order(s) == repo_order(d).push(s.last().repo@));
                    let j = choose|j: int| 0 <= j < repo_order(s).len() && repo_order(s)[j] == r;
                    if j < repo_order(d).len() {
                        assert(repo_order(d)[j] == r);
                    }
                    assert(s[s.len() - 1].repo@ == r);
                }
            }
            if exists|k: int| 0 <= k < s.len() && #[trigger] s[k].repo@ == r {
                let k = choose|k: int| 0 <= k < s.len() && #[trigger] s[k].repo@ == r;
                if k < s.len() - 1 {
                    assert(d[k].repo@ == r);
                    assert(repo_order(d).contains(r));
                    if !repo_order(d).contains(s.last().repo@) {
                        let j = choose|j: int| 0 <= j < repo_order(d).len() && repo_order(d)[j] == r;
                        assert(repo_order(s)[j] == r);
                    }
                } else {
                    if !repo_order(d).contains(s.last().repo@) {
                        assert(repo_order(s)[repo_order(d).len() as int] == r);
                    }
                }
            }
        }
    }
}

/// A repository without entries has all totals zero.
pub proof fn lemma_absent_repo_zero(s: Seq<LedgerEntry>, repo: Seq<char>)
    requires
        forall|k: int| 0 <= k < s.len() ==> #[trigger] s[k].repo@ != repo,
    ensures
        sweep_count(s, repo) == 0,
        reclaimed_total(s, repo) == 0,
        rebuild_cost_total(s, repo) == 0,
        net_total(s, repo) == 0,
        rebuild_count(s, repo) == 0,
    decreases s.len(),
{
    if s.len() > 0 {
        let d = s.drop_last();
        assert forall|k: int| 0 <= k < d.len() implies #[trigger] d[k].repo@ != repo by {
            assert(d[k] == s[k]);
        }
        lemma_absent_repo_zero(d, repo);
        assert(s[s.len() - 1].repo@ != repo);
    }
}

/// The position of `repo` in `v`, if it is there.
fn find_repo(v: &Vec<(String, RepoStats)>, repo: &str) -> (r: Option<usize>)
    ensures
        r matches Some(j) ==> j < v@.len() && v@[j as int].0@ == repo@,
        r is None ==> !keys_of(v@).contains(repo@),
{
    let mut j: usize = 0;
    while j < v.len()
        invariant
            j <= v@.len(),
            forall|k: int| 0 <= k < j ==> v@[k].0@ != repo@,
        decreases v@.len() - j,
    {
        if text_eq(v[j].0.as_str(), repo) {
            return Some(j);
        }
        j = j + 1;
    }
    assert forall|k: int| 0 <= k < keys_of(v@).len() implies keys_of(v@)[k] != repo@ by {}
    None
}

/// Adds one entry to the totals of its repository; `None` when a total
/// would overflow.
fn add_entry(st: &RepoStats, e: &LedgerEntry) -> (r: Option<RepoStats>)
    ensures
        ({
            let ds: int = if is_sweep(*e) { 1 } else { 0 };
            let dr: int = if is_sweep(*e) {
                match e.bytes_reclaimed {
                    Some(b) => b as int,
                    None => 0,
                }
            } else {
                0
            };
            let dn: int = if is_rebuild(*e) { 1 } else { 0 };
            let dc: int = if is_rebuild(*e) {
                match e.rebuild_cost_bytes {
                    Some(b) => b as int,
                    None => 0,
                }
            } else {
                0
            };
            let dt: int = if is_rebuild(*e) {
                match e.net_bytes {
                    Some(n) => n as int,
                    None => 0,
                }
            } else {
                0
            };
            let fits = st.sweeps + ds <= u64::MAX && st.total_reclaimed + dr <= u64::MAX
                && st.rebuild_count + dn <= u64::MAX && st.total_rebuild_cost + dc <= u64::MAX
                && i64::MIN <= st.net_bytes + dt <= i64::MAX;
            &&& r is Some <==> fits
            &&& r matches Some(n) ==> {
                &&& n.sweeps == st.sweeps + ds
                &&& n.total_reclaimed == st.total_reclaimed + dr
                &&& n.rebuild_count == st.rebuild_count + dn
                &&& n.total_rebuild_cost == st.total_rebuild_cost + dc
                &&& n.net_bytes == st.net_bytes + dt
            }
        }),
{
    proof {
        lemma_sweep_is_not_rebuild(*e);
    }
    let mut n = st.duplicate();
    if e.records_sweep() {
        n.sweeps = match n.sweeps.checked_add(1) {
            Some(x) => x,
            None => return None,
        };
        let b = match e.bytes_reclaimed {
            Some(b) => b,
            None => 0,
        };
        n.total_reclaimed = match n.total_reclaimed.checked_add(b) {
            Some(x) => x,
            None => return None,
        };
    } else if e.records_rebuild() {
        n.rebuild_count = match n.rebuild_count.checked_add(1) {
            Some(x) => x,
            None => return None,
        };
        let c = match e.rebuild_cost_bytes {
            Some(c) => c,
            None => 0,
        };
        n.total_rebuild_cost = match n.total_rebuild_cost.checked_add(c) {
            Some(x) => x,
            None => return None,
        };
        if let Some(t) = e.net_bytes {
            n.net_bytes = match n.net_bytes.checked_add(t) {
                Some(x) => x,
                None => return None,
            };
        }
    }
    Some(n)
}

/// The totals of every repository in `entries`, one pair per repository in
/// the order of first appearance. `None` exactly when adding the entries up
/// in order overflows a running total.
pub fn aggregate_entries(entries: &Vec<LedgerEntry>) -> (r: Option<Vec<(String, RepoStats)>>)
    ensures
        r is Some <==> aggregate_fits(entries@),
        r matches Some(v) ==> {
            &&& keys_of(v@) == repo_order(entries@)
            &&& forall|j: int| 0 <= j < v@.len() ==> stats_match(#[trigger] v@[j].1, entries@, v@[j].0@)
        },
{
    let mut v: Vec<(String, RepoStats)> = Vec::new();
    let mut i: usize = 0;
    assert(keys_of(v@) =~= repo_order(entries@.take(0)));
    while i < entries.len()
        invariant
            i <= entries@.len(),
            keys_of(v@) == repo_order(entries@.take(i as int)),
            forall|j: int|
                0 <= j < v@.len() ==> stats_match(#[trigger] v@[j].1, entries@.take(i as int), v@[j].0@),
            forall|k: int| 0 < k <= i ==> #[trigger] stats_fit(entries@.take(k), entries@[k - 1].repo@),
        decreases entries@.len() - i,
    {
        let e = &entries[i];
        let ghost pre = entries@.take(i as int);
        let ghost post = entries@.take(i + 1);
        assert(post.drop_last() =~= pre);
        assert(post.last() == *e);
        assert(post.len() == i + 1);
        assert(entries@[(i + 1) - 1] == *e);
        // Every other repository keeps its totals.
        assert forall|r: Seq<char>| r != e.repo@ implies {
            &&& sweep_count(post, r) == sweep_count(pre, r)
            &&& reclaimed_total(post, r) == reclaimed_total(pre, r)
            &&& rebuild_cost_total(post, r) == rebuild_cost_total(pre, r)
            &&& net_total(post, r) == net_total(pre, r)
            &&& rebuild_count(post, r) == rebuild_count(pre, r)
        } by {}
        let found = find_repo(&v, e.repo.as_str());
        let ghost old_v = v@;
        match found {
            Some(j) => {
                let added = add_entry(&v[j].1, e);
                match added {
                    Some(n) => {
                        let key = v[j].0.clone();
                        v.set(j, (key, n));
                        proof {
                            assert(keys_of(v@) =~= keys_of(old_v));
                            assert(keys_of(old_v)[j as int] == e.repo@);
                            assert(repo_order(pre).contains(e.repo@));
                            assert(repo_order(post) == repo_order(pre));
                            assert forall|jj: int| 0 <= jj < v@.len() implies stats_match(
                                #[trigger] v@[jj].1,
                                post,
                                v@[jj].0@,
                            ) by {
                                if jj != j {
                                    assert(v@[jj] == old_v[jj]);
                                    lemma_repo_order(pre);
                                    assert(keys_of(old_v)[jj] == old_v[jj].0@);
                                    assert(keys_of(old_v)[j as int] == old_v[j as int].0@);
                                }
                            }
                            assert(stats_fit(post, e.repo@));
                            assert forall|k: int| 0 < k <= i + 1 implies #[trigger] stats_fit(
                                entries@.take(k),
                                entries@[k - 1].repo@,
                            ) by {}
                        }
                    },
                    None => {
                        proof {
                            assert(!stats_fit(post, e.repo@));
                            assert(!stats_fit(entries@.take(i + 1), entries@[(i + 1) - 1].repo@));
                        }
                        return None;
                    },
                }
            },
            None => {
                proof {
                    lemma_repo_order(pre);
                    assert forall|k: int| 0 <= k < pre.len() implies #[trigger] pre[k].repo@
                        != e.repo@ by {
                        if pre[k].repo@ == e.repo@ {
                            assert(repo_order(pre).contains(e.repo@));
                        }
                    }
                    lemma_absent_repo_zero(pre, e.repo@);
                }
                let zero = RepoStats::new();
                let added = add_entry(&zero, e);
                match added {
                    Some(n) => {
                        v.push((e.repo.clone(), n));
                        proof {
                            assert(repo_order(post) == repo_order(pre).push(e.repo@));
                            assert(keys_of(v@) =~= keys_of(old_v).push(e.repo@));
                            assert forall|jj: int| 0 <= jj < v@.len() implies stats_match(
                                #[trigger] v@[jj].1,
                                post,
                                v@[jj].0@,
                            ) by {
                                if jj < old_v.len() {
                                    assert(v@[jj] == old_v[jj]);
                                    assert(keys_of(old_v)[jj] == old_v[jj].0@);
                                    assert(repo_order(pre).contains(old_v[jj].0@));
                                }
                            }
                            assert(stats_fit(post, e.repo@));
                            assert forall|k: int| 0 < k <= i + 1 implies #[trigger] stats_fit(
                                entries@.take(k),
                                entries@[k - 1].repo@,
                            ) by {}
                        }
                    },
                    None => {
                        proof {
                            assert(!stats_fit(post, e.repo@));
                            assert(!stats_fit(entries@.take(i + 1), entries@[(i + 1) - 1].repo@));
                        }
                        return None;
                    },
                }
            },
        }
        i = i + 1;
    }
    assert(entries@.take(entries@.len() as int) =~= entries@);
    Some(v)
}

} // verus!
