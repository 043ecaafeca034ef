//! Properties that span several operations of the library.
use vstd::prelude::*;

use crate::entry::{
    as_i64_bits, last_sweep_index,
    is_rebuild_entry_for, is_sweep_entry_for, last_sweep_reclaimed, lemma_sweep_is_not_rebuild, net_of,
    LedgerEntry,
};
use crate::paired::{
    attributed_cost, cost_of, has_sweep_of, is_sweep_of, reclaimed_of, sweeps_of,
    worth_careening, is_verdict_of, Attribution, LedgerRecord, RepoVerdict, SweepRecord,
};
use crate::rank::is_hot_repos_of;
use crate::rpc::{is_step_for, LedgerQuery, RpcRequest, RpcStep};
use crate::stats::RepoStats;
use crate::clock::secs_days_before;
use crate::error::LedgerError;
use crate::report::{is_report_at, is_report_of, verdict_of, ReportRow, Verdict};
use crate::select::{entries_in_window, entries_of_repo, entries_since};
use crate::stats::{
    aggregate_fits, lemma_repo_order, net_total, reclaimed_total, rebuild_cost_total, rebuild_count, repo_order,
    stats_fit, stats_match, sweep_count,
};
use crate::text::{lemma_text_lt_irreflexive, lemma_text_lt_total, lemma_text_lt_transitive, text_ge, text_lt};

verus! {

/// Appending the entry that `record-sweep` builds counts one more sweep of
/// its repository and adds what it reclaimed; no rebuild total moves.
pub proof fn law_sweep_entry_adds_to_totals(
    s: Seq<LedgerEntry>,
    e: LedgerEntry,
    repo: Seq<char>,
    target: Seq<char>,
    bytes: u64,
)
    requires
        is_sweep_entry_for(e, repo, target, bytes),
    ensures
        sweep_count(s.push(e), repo) == sweep_count(s, repo) + 1,
        reclaimed_total(s.push(e), repo) == reclaimed_total(s, repo) + bytes,
        rebuild_count(s.push(e), repo) == rebuild_count(s, repo),
        rebuild_cost_total(s.push(e), repo) == rebuild_cost_total(s, repo),
        net_total(s.push(e), repo) == net_total(s, repo),
{
    lemma_sweep_is_not_rebuild(e);
    assert(s.push(e).drop_last() =~= s);
}

/// Appending the entry that `record-rebuild` builds counts one more
/// rebuild of its repository, adds the bytes it wrote to the rebuild cost,
/// and adds to the repository's net what the latest sweep reclaimed minus
/// those bytes (nothing when there was no sweep).
pub proof fn law_rebuild_entry_adds_net(
    s: Seq<LedgerEntry>,
    e: LedgerEntry,
    repo: Seq<char>,
    wall_secs: u64,
    bytes_written: u64,
)
    requires
        is_rebuild_entry_for(e, repo, wall_secs, bytes_written, last_sweep_reclaimed(s, repo)),
    ensures
        rebuild_count(s.push(e), repo) == rebuild_count(s, repo) + 1,
        rebuild_cost_total(s.push(e), repo) == rebuild_cost_total(s, repo) + bytes_written,
        sweep_count(s.push(e), repo) == sweep_count(s, repo),
        reclaimed_total(s.push(e), repo) == reclaimed_total(s, repo),
        net_total(s.push(e), repo) == net_total(s, repo) + match last_sweep_reclaimed(s, repo) {
            Some(r) => net_of(r, bytes_written),
            None => 0,
        },
{
    lemma_sweep_is_not_rebuild(e);
    assert(s.push(e).drop_last() =~= s);
}

/// Whether `s` holds a sweep with id `id` of `repo`, as seen through the
/// attributions' pairing, does not change when `x` is appended, provided `x`
/// is not a sweep of `repo`.
proof fn lemma_pairing_unchanged(s: Seq<LedgerRecord>, x: LedgerRecord, repo: Seq<char>, id: Seq<char>)
    requires
        !is_sweep_of(x, repo),
    ensures
        has_sweep_of(s.push(x), id, repo) == has_sweep_of(s, id, repo),
{
    let t = s.push(x);
    if has_sweep_of(t, id, repo) {
        let k = choose|k: int|
            0 <= k < t.len() && (#[trigger] t[k] matches LedgerRecord::Sweep(sw) && sw.id@ == id
                && sw.repo@ == repo);
        assert(k < s.len());
        assert(s[k] == t[k]);
    }
    if has_sweep_of(s, id, repo) {
        let k = choose|k: int|
            0 <= k < s.len() && (#[trigger] s[k] matches LedgerRecord::Sweep(sw) && sw.id@ == id
                && sw.repo@ == repo);
        assert(t[k] == s[k]);
    }
}

proof fn lemma_attributed_cost_same_pairing(
    part: Seq<LedgerRecord>,
    all1: Seq<LedgerRecord>,
    all2: Seq<LedgerRecord>,
    repo: Seq<char>,
)
    requires
        forall|id: Seq<char>| has_sweep_of(all1, id, repo) == has_sweep_of(all2, id, repo),
    ensures
        attributed_cost(part, all1, repo) == attributed_cost(part, all2, repo),
    decreases part.len(),
{
    if part.len() > 0 {
        lemma_attributed_cost_same_pairing(part.drop_last(), all1, all2, repo);
        match part.last() {
            LedgerRecord::Attribution(a) => {
                assert(has_sweep_of(all1, a.sweep_id@, repo) == has_sweep_of(all2, a.sweep_id@, repo));
            },
            _ => {},
        }
    }
}

/// Appending a record that is not a sweep of `repo` and not an attribution
/// (a sweep of another repository) leaves the verdict on `repo` unchanged.
pub proof fn law_other_repo_sweep_leaves_verdict(s: Seq<LedgerRecord>, sw: SweepRecord, repo: Seq<char>)
    requires
        sw.repo@ != repo,
    ensures
        reclaimed_of(s.push(LedgerRecord::Sweep(sw)), repo) == reclaimed_of(s, repo),
        cost_of(s.push(LedgerRecord::Sweep(sw)), repo) == cost_of(s, repo),
        sweeps_of(s.push(LedgerRecord::Sweep(sw)), repo) == sweeps_of(s, repo),
{
    let x = LedgerRecord::Sweep(sw);
    let t = s.push(x);
    assert(t.drop_last() =~= s);
    assert forall|id: Seq<char>| has_sweep_of(t, id, repo) == has_sweep_of(s, id, repo) by {
        lemma_pairing_unchanged(s, x, repo, id);
    }
    lemma_attributed_cost_same_pairing(s, t, s, repo);
}

/// Appending a sweep of `repo` adds what it removed to the bytes reclaimed,
/// gives the repository a history to judge, and leaves the rebuild cost
/// unchanged when no attribution already names the new sweep's id.
pub proof fn law_sweep_record_adds_reclaimed(s: Seq<LedgerRecord>, sw: SweepRecord, repo: Seq<char>)
    requires
        sw.repo@ == repo,
        forall|k: int|
            0 <= k < s.len() ==> !(#[trigger] s[k] matches LedgerRecord::Attribution(a) && a.sweep_id@
                == sw.id@),
    ensures
        reclaimed_of(s.push(LedgerRecord::Sweep(sw)), repo) == reclaimed_of(s, repo) + sw.removed_bytes,
        sweeps_of(s.push(LedgerRecord::Sweep(sw)), repo) > 0,
        cost_of(s.push(LedgerRecord::Sweep(sw)), repo) == cost_of(s, repo),
{
    let x = LedgerRecord::Sweep(sw);
    let t = s.push(x);
    assert(t.drop_last() =~= s);
    lemma_cost_ignores_unnamed_sweep(s, s, sw, repo);
}

proof fn lemma_cost_ignores_unnamed_sweep(
    part: Seq<LedgerRecord>,
    s: Seq<LedgerRecord>,
    sw: SweepRecord,
    repo: Seq<char>,
)
    requires
        forall|k: int|
            0 <= k < part.len() ==> !(#[trigger] part[k] matches LedgerRecord::Attribution(a)
                && a.sweep_id@ == sw.id@),
    ensures
        attributed_cost(part, s.push(LedgerRecord::Sweep(sw)), repo) == attributed_cost(part, s, repo),
    decreases part.len(),
{
    let t = s.push(LedgerRecord::Sweep(sw));
    if part.len() > 0 {
        let d = part.drop_last();
        assert forall|k: int|
            0 <= k < d.len() implies !(#[trigger] d[k] matches LedgerRecord::Attribution(a)
            && a.sweep_id@ == sw.id@) by {
            assert(d[k] == part[k]);
        }
        lemma_cost_ignores_unnamed_sweep(d, s, sw, repo);
        match part.last() {
            LedgerRecord::Attribution(a) => {
                assert(part[part.len() - 1] == part.last());
                assert(a.sweep_id@ != sw.id@);
                if has_sweep_of(t, a.sweep_id@, repo) {
                    let k = choose|k: int|
                        0 <= k < t.len() && (#[trigger] t[k] matches LedgerRecord::Sweep(w) && w.id@
                            == a.sweep_id@ && w.repo@ == repo);
                    assert(k < s.len());
                    assert(s[k] == t[k]);
                }
                if has_sweep_of(s, a.sweep_id@, repo) {
                    let k = choose|k: int|
                        0 <= k < s.len() && (#[trigger] s[k] matches LedgerRecord::Sweep(w) && w.id@
                            == a.sweep_id@ && w.repo@ == repo);
                    assert(t[k] == s[k]);
                }
            },
            _ => {},
        }
    }
}

/// Appending an attribution paired to a sweep of `repo` adds
/// `rebuilt_crates * 10_000_000 + wall_secs * 1_000_000` to the repository's
/// rebuild cost, and leaves what was reclaimed unchanged.
pub proof fn law_attribution_adds_cost(s: Seq<LedgerRecord>, a: Attribution, repo: Seq<char>)
    requires
        has_sweep_of(s, a.sweep_id@, repo),
    ensures
        cost_of(s.push(LedgerRecord::Attribution(a)), repo) == cost_of(s, repo) + a.rebuilt_crates
            * 10_000_000 + a.wall_secs * 1_000_000,
        reclaimed_of(s.push(LedgerRecord::Attribution(a)), repo) == reclaimed_of(s, repo),
        sweeps_of(s.push(LedgerRecord::Attribution(a)), repo) == sweeps_of(s, repo),
{
    let x = LedgerRecord::Attribution(a);
    let t = s.push(x);
    assert(t.drop_last() =~= s);
    assert forall|id: Seq<char>| has_sweep_of(t, id, repo) == has_sweep_of(s, id, repo) by {
        lemma_pairing_unchanged(s, x, repo, id);
    }
    lemma_attributed_cost_same_pairing(s, t, s, repo);
}

proof fn lemma_no_sweep_no_cost(part: Seq<LedgerRecord>, s: Seq<LedgerRecord>, repo: Seq<char>)
    requires
        sweeps_of(s, repo) == 0,
    ensures
        attributed_cost(part, s, repo) == 0,
    decreases part.len(),
{
    lemma_no_sweep_means_none(s, repo);
    if part.len() > 0 {
        lemma_no_sweep_no_cost(part.drop_last(), s, repo);
        match part.last() {
            LedgerRecord::Attribution(a) => {
                if has_sweep_of(s, a.sweep_id@, repo) {
                    let k = choose|k: int|
                        0 <= k < s.len() && (#[trigger] s[k] matches LedgerRecord::Sweep(w) && w.id@
                            == a.sweep_id@ && w.repo@ == repo);
                    assert(is_sweep_of(s[k], repo));
                }
            },
            _ => {},
        }
    }
}

proof fn lemma_no_sweep_means_none(s: Seq<LedgerRecord>, repo: Seq<char>)
    requires
        sweeps_of(s, repo) == 0,
    ensures
        forall|k: int| 0 <= k < s.len() ==> !is_sweep_of(#[trigger] s[k], repo),
        reclaimed_of(s, repo) == 0,
    decreases s.len(),
{
    if s.len() > 0 {
        let d = s.drop_last();
        lemma_no_sweep_means_none(d, repo);
        assert forall|k: int| 0 <= k < s.len() implies !is_sweep_of(#[trigger] s[k], repo) by {
            if k < d.len() {
                assert(s[k] == d[k]);
            }
        }
    }
}

/// A repository that was never swept reclaimed nothing, is charged no
/// rebuild cost, and is never judged worth careening.
pub proof fn law_no_history_no_verdict(s: Seq<LedgerRecord>, repo: Seq<char>)
    requires
        sweeps_of(s, repo) == 0,
    ensures
        reclaimed_of(s, repo) == 0,
        cost_of(s, repo) == 0,
        !worth_careening(reclaimed_of(s, repo) as int, cost_of(s, repo) as int),
{
    lemma_no_sweep_means_none(s, repo);
    lemma_no_sweep_no_cost(s, s, repo);
}

/// Records of other repositories leave the verdict on `repo` unchanged:
/// appending sweeps of other repositories and attributions that name no
/// sweep of `repo` changes neither what `repo` reclaimed, nor its rebuild
/// cost, nor whether it has a history.
pub proof fn law_other_records_leave_verdict(s: Seq<LedgerRecord>, extra: Seq<LedgerRecord>, repo: Seq<char>)
    requires
        forall|k: int| 0 <= k < extra.len() ==> !is_sweep_of(#[trigger] extra[k], repo),
        forall|k: int|
            0 <= k < extra.len() ==> (#[trigger] extra[k] matches LedgerRecord::Attribution(a)
                ==> !has_sweep_of(s + extra, a.sweep_id@, repo)),
    ensures
        reclaimed_of(s + extra, repo) == reclaimed_of(s, repo),
        cost_of(s + extra, repo) == cost_of(s, repo),
        sweeps_of(s + extra, repo) == sweeps_of(s, repo),
    decreases extra.len(),
{
    if extra.len() == 0 {
        assert(s + extra =~= s);
    } else {
        let e = extra.drop_last();
        let x = extra.last();
        let t = s + extra;
        let u = s + e;
        assert(t =~= u.push(x));
        assert(t.drop_last() =~= u);
        assert(!is_sweep_of(extra[extra.len() - 1], repo));
        assert forall|id: Seq<char>| has_sweep_of(t, id, repo) == has_sweep_of(u, id, repo) by {
            lemma_pairing_unchanged(u, x, repo, id);
        }
        assert forall|k: int| 0 <= k < e.len() implies !is_sweep_of(#[trigger] e[k], repo) by {
            assert(e[k] == extra[k]);
        }
        assert forall|k: int|
            0 <= k < e.len() implies (#[trigger] e[k] matches LedgerRecord::Attribution(a)
            ==> !has_sweep_of(u, a.sweep_id@, repo)) by {
            assert(e[k] == extra[k]);
        }
        law_other_records_leave_verdict(s, e, repo);
        lemma_attributed_cost_same_pairing(u, t, u, repo);
        match x {
            LedgerRecord::Attribution(a) => {
                assert(extra[extra.len() - 1] == x);
                assert(!has_sweep_of(t, a.sweep_id@, repo));
            },
            _ => {},
        }
    }
}

/// Each total of a repository over two lists joined is the sum of its
/// totals over each list.
pub proof fn law_totals_add_over_concat(a: Seq<LedgerEntry>, b: Seq<LedgerEntry>, repo: Seq<char>)
    ensures
        sweep_count(a + b, repo) == sweep_count(a, repo) + sweep_count(b, repo),
        reclaimed_total(a + b, repo) == reclaimed_total(a, repo) + reclaimed_total(b, repo),
        rebuild_count(a + b, repo) == rebuild_count(a, repo) + rebuild_count(b, repo),
        rebuild_cost_total(a + b, repo) == rebuild_cost_total(a, repo) + rebuild_cost_total(b, repo),
        net_total(a + b, repo) == net_total(a, repo) + net_total(b, repo),
    decreases b.len(),
{
    if b.len() == 0 {
        assert(a + b =~= a);
    } else {
        law_totals_add_over_concat(a, b.drop_last(), repo);
        assert((a + b).drop_last() =~= a + b.drop_last());
        assert((a + b).last() == b.last());
    }
}

/// The repositories of two lists joined are those of either list.
pub proof fn law_repos_of_concat(a: Seq<LedgerEntry>, b: Seq<LedgerEntry>)
    ensures
        forall|r: Seq<char>|
            #[trigger] repo_order(a + b).contains(r) <==> repo_order(a).contains(r) || repo_order(
                b,
            ).contains(r),
{
    lemma_repo_order(a + b);
    lemma_repo_order(a);
    lemma_repo_order(b);
    assert forall|r: Seq<char>|
        #[trigger] repo_order(a + b).contains(r) <==> repo_order(a).contains(r) || repo_order(
            b,
        ).contains(r) by {
        if repo_order(a + b).contains(r) {
            let k = choose|k: int| 0 <= k < (a + b).len() && #[trigger] (a + b)[k].repo@ == r;
            if k < a.len() {
                assert(a[k].repo@ == r);
            } else {
                assert(b[k - a.len()].repo@ == r);
            }
        }
        if repo_order(a).contains(r) {
            let k = choose|k: int| 0 <= k < a.len() && #[trigger] a[k].repo@ == r;
            assert((a + b)[k].repo@ == r);
        }
        if repo_order(b).contains(r) {
            let k = choose|k: int| 0 <= k < b.len() && #[trigger] b[k].repo@ == r;
            assert((a + b)[a.len() + k].repo@ == r);
        }
    }
}

/// Reordering the entries changes no total of any repository, nor which
/// repositories there are.
pub proof fn law_totals_ignore_order(a: Seq<LedgerEntry>, b: Seq<LedgerEntry>, repo: Seq<char>)
    requires
        a.to_multiset() == b.to_multiset(),
    ensures
        sweep_count(a, repo) == sweep_count(b, repo),
        reclaimed_total(a, repo) == reclaimed_total(b, repo),
        rebuild_count(a, repo) == rebuild_count(b, repo),
        rebuild_cost_total(a, repo) == rebuild_cost_total(b, repo),
        net_total(a, repo) == net_total(b, repo),
        repo_order(a).contains(repo) <==> repo_order(b).contains(repo),
    decreases a.len(),
{
    broadcast use vstd::seq_lib::group_to_multiset_ensures;
    broadcast use vstd::multiset::group_multiset_axioms;

    lemma_repo_order(a);
    lemma_repo_order(b);
    if a.len() == 0 {
        vstd::seq_lib::to_multiset_len(a);
        vstd::seq_lib::to_multiset_len(b);
        assert(b.len() == 0);
        assert(a =~= b);
    } else {
        let x = a.last();
        let a1 = a.drop_last();
        assert(a =~= a1.push(x));
        assert(a.to_multiset().count(x) > 0);
        assert(b.to_multiset().count(x) > 0);
        assert(b.contains(x));
        let j = choose|j: int| 0 <= j < b.len() && b[j] == x;
        let b1 = b.remove(j);
        assert(b1.to_multiset() == b.to_multiset().remove(x));
        assert(a1.to_multiset() =~= a.to_multiset().remove(x));
        law_totals_ignore_order(a1, b1, repo);
        let front = b.subrange(0, j);
        let back = b.subrange(j + 1, b.len() as int);
        assert(b =~= front + seq![x] + back);
        assert(b1 =~= front + back);
        law_totals_add_over_concat(front + seq![x], back, repo);
        law_totals_add_over_concat(front, seq![x], repo);
        law_totals_add_over_concat(front, back, repo);
        law_totals_add_over_concat(a1, seq![x], repo);
        assert(a =~= a1 + seq![x]);
        // which repositories there are
        lemma_repo_order(a1);
        lemma_repo_order(b1);
        if repo_order(a).contains(repo) {
            let k = choose|k: int| 0 <= k < a.len() && #[trigger] a[k].repo@ == repo;
            if k < a1.len() {
                assert(a1[k].repo@ == repo);
                let m = choose|m: int| 0 <= m < b1.len() && #[trigger] b1[m].repo@ == repo;
                if m < j {
                    assert(b[m] == b1[m]);
                } else {
                    assert(b[m + 1] == b1[m]);
                }
            } else {
                assert(b[j].repo@ == repo);
            }
        }
        if repo_order(b).contains(repo) {
            let k = choose|k: int| 0 <= k < b.len() && #[trigger] b[k].repo@ == repo;
            if k == j {
                assert(a[a.len() - 1].repo@ == repo);
            } else {
                let kk = if k < j {
                    k
                } else {
                    k - 1
                };
                assert(b1[kk] == b[k]);
                assert(b1[kk].repo@ == repo);
                let m = choose|m: int| 0 <= m < a1.len() && #[trigger] a1[m].repo@ == repo;
                assert(a[m] == a1[m]);
            }
        }
    }
}

/// A repository's totals depend only on its own entries: keeping only the
/// entries of `repo` leaves its totals as they were, and leaves `repo` the
/// only repository (when it has entries at all).
pub proof fn law_totals_of_own_entries(s: Seq<LedgerEntry>, repo: Seq<char>)
    ensures
        sweep_count(entries_of_repo(s, repo), repo) == sweep_count(s, repo),
        reclaimed_total(entries_of_repo(s, repo), repo) == reclaimed_total(s, repo),
        rebuild_count(entries_of_repo(s, repo), repo) == rebuild_count(s, repo),
        rebuild_cost_total(entries_of_repo(s, repo), repo) == rebuild_cost_total(s, repo),
        net_total(entries_of_repo(s, repo), repo) == net_total(s, repo),
        repo_order(entries_of_repo(s, repo)) == if repo_order(s).contains(repo) {
            seq![repo]
        } else {
            Seq::<Seq<char>>::empty()
        },
    decreases s.len(),
{
    reveal_with_fuel(Seq::<_>::filter, 1);
    let f = entries_of_repo(s, repo);
    if s.len() == 0 {
        assert(f =~= s);
        assert(repo_order(s) =~= Seq::<Seq<char>>::empty());
    } else {
        let d = s.drop_last();
        law_totals_of_own_entries(d, repo);
        let fd = entries_of_repo(d, repo);
        lemma_repo_order(s);
        lemma_repo_order(d);
        if s.last().repo@ == repo {
            assert(f == fd.push(s.last()));
            assert(f.drop_last() =~= fd);
            assert(repo_order(s).contains(repo)) by {
                assert(s[s.len() - 1].repo@ == repo);
            }
            if repo_order(d).contains(repo) {
                assert(repo_order(fd) == seq![repo]);
                assert(repo_order(fd)[0] == repo);
                assert(repo_order(fd).contains(repo));
            } else {
                assert(repo_order(fd) == Seq::<Seq<char>>::empty());
                assert(repo_order(f) =~= seq![repo]);
            }
        } else {
            assert(f == fd);
            if repo_order(s).contains(repo) {
                let k = choose|k: int| 0 <= k < s.len() && #[trigger] s[k].repo@ == repo;
                assert(d[k].repo@ == repo);
            }
            if repo_order(d).contains(repo) {
                let k = choose|k: int| 0 <= k < d.len() && #[trigger] d[k].repo@ == repo;
                assert(s[k].repo@ == repo);
            }
        }
    }
}

/// The report of one repository's entries is that repository's row of the
/// report of all entries: one row, with the same totals and verdict.
pub proof fn law_repo_report_is_its_row(
    all_rows: Seq<ReportRow>,
    own_rows: Seq<ReportRow>,
    s: Seq<LedgerEntry>,
    repo: Seq<char>,
)
    requires
        is_report_of(all_rows, s),
        is_report_of(own_rows, entries_of_repo(s, repo)),
        repo_order(s).contains(repo),
    ensures
        own_rows.len() == 1,
        own_rows[0].repo@ == repo,
        exists|i: int|
            0 <= i < all_rows.len() && #[trigger] all_rows[i].repo@ == repo && all_rows[i].stats
                == own_rows[0].stats && all_rows[i].verdict == own_rows[0].verdict,
{
    law_totals_of_own_entries(s, repo);
    let f = entries_of_repo(s, repo);
    assert(repo_order(f).contains(repo)) by {
        assert(repo_order(f)[0] == repo);
    }
    let k = choose|k: int| 0 <= k < own_rows.len() && #[trigger] own_rows[k].repo@ == repo;
    assert forall|j: int| 0 <= j < own_rows.len() implies #[trigger] own_rows[j].repo@ == repo by {
        assert(repo_order(f).contains(own_rows[j].repo@));
    }
    if own_rows.len() > 1 {
        assert(own_rows[0].repo@ == repo && own_rows[1].repo@ == repo);
        lemma_text_lt_irreflexive(repo);
        assert(text_lt(own_rows[0].repo@, own_rows[1].repo@));
    }
    let i = choose|i: int| 0 <= i < all_rows.len() && #[trigger] all_rows[i].repo@ == repo;
    assert(stats_match(all_rows[i].stats, s, repo));
    assert(stats_match(own_rows[0].stats, f, repo));
}

proof fn lemma_own_entries_fit(s: Seq<LedgerEntry>, repo: Seq<char>)
    requires
        aggregate_fits(s),
    ensures
        aggregate_fits(entries_of_repo(s, repo)),
    decreases s.len(),
{
    reveal_with_fuel(Seq::<_>::filter, 1);
    let f = entries_of_repo(s, repo);
    if s.len() > 0 {
        let d = s.drop_last();
        assert forall|i: int| 0 < i <= d.len() implies #[trigger] stats_fit(d.take(i), d[i - 1].repo@) by {
            assert(d.take(i) =~= s.take(i));
            assert(stats_fit(s.take(i), s[i - 1].repo@));
        }
        lemma_own_entries_fit(d, repo);
        let fd = entries_of_repo(d, repo);
        if s.last().repo@ == repo {
            assert(f == fd.push(s.last()));
            assert forall|i: int| 0 < i <= f.len() implies #[trigger] stats_fit(f.take(i), f[i - 1].repo@) by {
                if i < f.len() {
                    assert(f.take(i) =~= fd.take(i));
                    assert(stats_fit(fd.take(i), fd[i - 1].repo@));
                } else {
                    assert(f.take(i) =~= f);
                    assert(s.take(s.len() as int) =~= s);
                    assert(stats_fit(s.take(s.len() as int), s[s.len() - 1].repo@));
                    law_totals_of_own_entries(s, repo);
                }
            }
        } else {
            assert(f == fd);
        }
    }
}

/// With a bound of `since` days, the report of one repository at a clock
/// reading is that repository's row of the report of all repositories at the
/// same reading and bound, wherever the repository has an entry inside the
/// window: when the report of all repositories succeeds, so does the
/// repository's own, with one row equal to its row in the other.
pub proof fn law_repo_report_is_its_row_at(
    all_rows: Seq<ReportRow>,
    own: Result<Seq<ReportRow>, LedgerError>,
    s: Seq<LedgerEntry>,
    repo: Seq<char>,
    since: Option<u64>,
    secs: i64,
    nanos: u32,
)
    requires
        nanos < 1_000_000_000,
        is_report_at(Ok(all_rows), s, None, since, secs, nanos),
        is_report_at(own, s, Some(repo), since, secs, nanos),
        repo_order(entries_in_window(s, since, secs, nanos)).contains(repo),
    ensures
        own matches Ok(own_rows) && {
            &&& own_rows.len() == 1
            &&& own_rows[0].repo@ == repo
            &&& exists|i: int|
                0 <= i < all_rows.len() && #[trigger] all_rows[i].repo@ == repo && all_rows[i].stats
                    == own_rows[0].stats && all_rows[i].verdict == own_rows[0].verdict
        },
{
    let w = entries_in_window(s, since, secs, nanos);
    match since {
        Some(d) => {
            assert(Ok::<Seq<ReportRow>, LedgerError>(all_rows) != Err::<Seq<ReportRow>, LedgerError>(
                LedgerError::SinceOutOfRange,
            ));
        },
        None => {},
    }
    assert(aggregate_fits(w));
    lemma_own_entries_fit(w, repo);
    assert(own is Ok);
    let own_rows = own->Ok_0;
    assert(is_report_of(all_rows, w));
    assert(is_report_of(own_rows, entries_of_repo(w, repo)));
    law_repo_report_is_its_row(all_rows, own_rows, w, repo);
}

/// An earlier cutoff keeps every entry that a later one keeps: filtering
/// what the earlier cutoff `c2` keeps by the later cutoff `c1` gives exactly
/// what `c1` keeps of all entries.
pub proof fn law_earlier_cutoff_keeps_more(s: Seq<LedgerEntry>, c1: Seq<char>, c2: Seq<char>)
    requires
        text_ge(c1, c2),
    ensures
        entries_since(entries_since(s, c2), c1) == entries_since(s, c1),
        entries_since(s, c1).len() <= entries_since(s, c2).len(),
    decreases s.len(),
{
    reveal_with_fuel(Seq::<_>::filter, 1);
    if s.len() == 0 {
        assert(entries_since(s, c2) =~= s);
        assert(entries_since(s, c1) =~= s);
    } else {
        let d = s.drop_last();
        let x = s.last();
        law_earlier_cutoff_keeps_more(d, c1, c2);
        assert(entries_since(s, c1) == if text_ge(x.ts@, c1) {
            entries_since(d, c1).push(x)
        } else {
            entries_since(d, c1)
        });
        if text_ge(x.ts@, c1) && text_lt(x.ts@, c2) {
            lemma_text_lt_total(x.ts@, c1);
            if text_lt(c1, x.ts@) {
                lemma_text_lt_transitive(c1, x.ts@, c2);
            }
        }
        let w = entries_since(s, c2);
        if text_ge(x.ts@, c2) {
            assert(w == entries_since(d, c2).push(x));
            assert(w.drop_last() =~= entries_since(d, c2));
        } else {
            assert(w == entries_since(d, c2));
        }
    }
}

/// More days back gives an instant no later: where both instants exist,
/// the one `d2 >= d1` days before a reading is at or before the one `d1`
/// days before it, `d2 - d1` days apart. A count of days is read as an
/// `i64`, so this holds unless `d2` alone reads as negative.
pub proof fn law_more_days_reach_further_back(secs: i64, d1: u64, d2: u64)
    requires
        d1 <= d2,
        d2 <= i64::MAX || d1 > i64::MAX,
        secs_days_before(secs, d1) is Some,
        secs_days_before(secs, d2) is Some,
    ensures
        secs_days_before(secs, d2)->0 <= secs_days_before(secs, d1)->0,
        secs_days_before(secs, d1)->0 - secs_days_before(secs, d2)->0 == (d2 - d1) * 86_400,
{
    let a1 = as_i64_bits(d1);
    let a2 = as_i64_bits(d2);
    assert(a2 - a1 == d2 - d1);
    assert(a2 * 86_400 - a1 * 86_400 == (d2 - d1) * 86_400) by (nonlinear_arith)
        requires
            a2 - a1 == d2 - d1,
    ;
}

/// A `careen/hot-repos` request is answered by consulting the ledger for the
/// ranking under the request's id, taking `params.top` repositories when the
/// request gives it and ten when it does not.
pub proof fn law_hot_repos_request_takes_its_top(step: RpcStep, req: RpcRequest, version: Seq<char>)
    requires
        req.method@ == "careen/hot-repos"@,
        is_step_for(step, req, version),
    ensures
        step matches RpcStep::Consult { id, query: LedgerQuery::HotRepos { top } } && id@ == req.id@
            && (req.top matches Some(t) ==> top == t) && (req.top is None ==> top == 10),
{
    reveal_strlit("careen/hot-repos");
    reveal_strlit("initialize");
    reveal_strlit("shutdown");
    reveal_strlit("careen/report");
    assert("careen/hot-repos"@[0] != "initialize"@[0]);
    assert("careen/hot-repos"@[0] != "shutdown"@[0]);
    assert("careen/hot-repos"@.len() != "careen/report"@.len());
}

/// A `careen/report` request is answered by consulting the ledger for the
/// report under the request's id, with the request's `params.repo` and
/// `params.since`.
pub proof fn law_report_request_takes_its_params(step: RpcStep, req: RpcRequest, version: Seq<char>)
    requires
        req.method@ == "careen/report"@,
        is_step_for(step, req, version),
    ensures
        step matches RpcStep::Consult { id, query: LedgerQuery::Report { repo, since } } && id@
            == req.id@ && repo == req.repo && since == req.since,
{
    reveal_strlit("initialize");
    reveal_strlit("shutdown");
    reveal_strlit("careen/report");
    assert("careen/report"@[0] != "initialize"@[0]);
    assert("careen/report"@[0] != "shutdown"@[0]);
}

/// A repository's totals are worth it exactly when their net is positive;
/// with a net of zero or less they get no verdict exactly when there was no
/// rebuild, and are not worth it exactly when there was one.
pub proof fn law_verdict_follows_net(st: RepoStats)
    ensures
        (verdict_of(st) == Verdict::WorthIt) == (st.net_bytes > 0),
        (verdict_of(st) == Verdict::NoRebuilds) == (st.net_bytes <= 0 && st.rebuild_count == 0),
        (verdict_of(st) == Verdict::NotWorthIt) == (st.net_bytes <= 0 && st.rebuild_count > 0),
{
}

proof fn lemma_last_sweep_index_in_range(s: Seq<LedgerEntry>, repo: Seq<char>)
    ensures
        last_sweep_index(s, repo) matches Some(i) ==> 0 <= i < s.len(),
    decreases s.len(),
{
    if s.len() > 0 {
        lemma_last_sweep_index_in_range(s.drop_last(), repo);
    }
}

/// What the most recent sweep of `repo` reclaimed: nothing on an empty
/// ledger; after appending a sweep of `repo`, what that sweep reclaimed;
/// after appending any other entry (a rebuild, or an entry of another
/// repository), what it was before.
pub proof fn law_latest_sweep_after_append(s: Seq<LedgerEntry>, e: LedgerEntry, repo: Seq<char>)
    ensures
        last_sweep_reclaimed(Seq::<LedgerEntry>::empty(), repo) is None,
        e.event@ == "sweep"@ && e.repo@ == repo ==> last_sweep_reclaimed(s.push(e), repo)
            == e.bytes_reclaimed,
        !(e.event@ == "sweep"@ && e.repo@ == repo) ==> last_sweep_reclaimed(s.push(e), repo)
            == last_sweep_reclaimed(s, repo),
{
    let t = s.push(e);
    lemma_last_sweep_index_in_range(s, repo);
    assert(t.drop_last() =~= s);
    assert(t.last() == e);
    assert(forall|i: int| 0 <= i < s.len() ==> t[i] == s[i]);
}

/// A verdict says worth careening exactly when the bytes it reclaimed are
/// more than twice the rebuild cost it reports.
pub proof fn law_worth_careening_is_twice_the_cost(v: RepoVerdict, s: Seq<LedgerRecord>, repo: Seq<char>)
    requires
        is_verdict_of(v, s, repo),
    ensures
        v.worth_careening == (v.reclaimed_bytes_total > 2 * v.rebuild_cost_total),
{
}

/// The net of a rebuild is the bytes the sweep reclaimed minus the bytes the
/// rebuild wrote, for counts that fit in an `i64`.
pub proof fn law_net_is_reclaimed_minus_written(reclaimed: u64, written: u64)
    requires
        reclaimed <= i64::MAX,
        written <= i64::MAX,
    ensures
        net_of(reclaimed, written) == reclaimed - written,
{
}

/// The cutoff `days` days before a reading lies exactly `days * 86 400`
/// seconds before it, wherever the span fits and the instant is an `i64`.
pub proof fn law_cutoff_is_days_of_seconds_before(secs: i64, days: u64)
    requires
        days <= 106_751_991_167,
        i64::MIN <= secs - days * 86_400,
    ensures
        secs_days_before(secs, days) == Some((secs - days * 86_400) as i64),
{
    assert(days * 86_400 <= 9_223_372_036_828_800) by (nonlinear_arith)
        requires
            days <= 106_751_991_167,
    ;
}

/// The window keeps an entry stamped at or after the cutoff, after the ones
/// it kept before, and passes over one stamped before it.
pub proof fn law_window_keeps_from_the_cutoff(s: Seq<LedgerEntry>, e: LedgerEntry, cutoff: Seq<char>)
    ensures
        text_lt(e.ts@, cutoff) ==> entries_since(s.push(e), cutoff) == entries_since(s, cutoff),
        !text_lt(e.ts@, cutoff) ==> entries_since(s.push(e), cutoff) == entries_since(s, cutoff).push(e),
{
    reveal_with_fuel(Seq::<_>::filter, 1);
    assert(s.push(e).drop_last() =~= s);
}

/// The ranking lists `top` repositories, or every repository when there are
/// no more than `top`.
pub proof fn law_hot_repos_takes_top(r: Seq<(String, RepoStats)>, s: Seq<LedgerEntry>, top: u64)
    requires
        is_hot_repos_of(r, s, top),
    ensures
        r.len() <= top,
        r.len() <= repo_order(s).len(),
        r.len() == top || r.len() == repo_order(s).len(),
{
}

} // verus!
