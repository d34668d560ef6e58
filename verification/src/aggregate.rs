use vstd::prelude::*;

use crate::raw_sample::RawSample;
use crate::thread_sample::{
    chain, insert_repeated, lemma_counts_at_most_mono, lemma_same_path_repeated,
    lemma_tree_insert_wf, tree_insert, ThreadSample, Tree,
};
use crate::Tid;

verus! {

/// The samples of one thread, in capture order.
pub open spec fn samples_of(rs: Seq<RawSample>, tid: Tid) -> Seq<RawSample> {
    rs.filter(|s: RawSample| s.thread_id == tid)
}

/// The thread ids observed across a run.
pub open spec fn tid_set(rs: Seq<RawSample>) -> Set<Tid> {
    Set::new(|t: Tid| exists|i: int| 0 <= i < rs.len() && rs[i].thread_id == t)
}

pub open spec fn strictly_sorted(s: Seq<Tid>) -> bool {
    forall|i: int, j: int| 0 <= i < j < s.len() ==> s[i] < s[j]
}

/// The ascending enumeration of a set of thread ids.
pub open spec fn sorted_seq_of(s: Set<Tid>) -> Seq<Tid> {
    choose|q: Seq<Tid>| strictly_sorted(q) && q.to_set() == s
}

/// The ascending enumeration of the thread ids observed across a run.
pub open spec fn sorted_tids(rs: Seq<RawSample>) -> Seq<Tid> {
    sorted_seq_of(tid_set(rs))
}

pub open spec fn user_times(g: Seq<RawSample>) -> Seq<u64> {
    g.map_values(|s: RawSample| s.user_cpu_time)
}

pub open spec fn kernel_times(g: Seq<RawSample>) -> Seq<u64> {
    g.map_values(|s: RawSample| s.kernel_cpu_time)
}

pub open spec fn seq_max(s: Seq<u64>) -> u64
    recommends
        s.len() > 0,
    decreases s.len(),
{
    if s.len() <= 1 {
        s[0]
    } else {
        let m = seq_max(s.drop_last());
        if s.last() > m {
            s.last()
        } else {
            m
        }
    }
}

pub open spec fn seq_min(s: Seq<u64>) -> u64
    recommends
        s.len() > 0,
    decreases s.len(),
{
    if s.len() <= 1 {
        s[0]
    } else {
        let m = seq_min(s.drop_last());
        if s.last() < m {
            s.last()
        } else {
            m
        }
    }
}

/// The CPU-time delta of a group of readings: the range between the
/// extreme readings, which brackets first and last under a monotonically
/// non-decreasing counter.
pub open spec fn time_delta(times: Seq<u64>) -> int {
    seq_max(times) - seq_min(times)
}

/// The root-to-leaf insertion order of a sample's addresses: capture order
/// is innermost-first, so insertion reverses it.
pub open spec fn sample_path(s: RawSample) -> Seq<u64> {
    s.backtrace@.reverse()
}

/// The call tree that one thread's samples fold into: each sample bumps
/// the synthetic root once and merges its reversed backtrace.
pub open spec fn build_tree(g: Seq<RawSample>) -> Tree
    decreases g.len(),
{
    if g.len() == 0 {
        Tree::empty_root()
    } else {
        tree_insert(build_tree(g.drop_last()).bump(), sample_path(g.last()))
    }
}

/// What one aggregated thread result must hold for its group of samples.
pub open spec fn matches_group(ts: ThreadSample, tid: Tid, g: Seq<RawSample>) -> bool {
    &&& ts.thread_id == tid
    &&& ts.user_cpu_time == time_delta(user_times(g))
    &&& ts.kernel_cpu_time == time_delta(kernel_times(g))
    &&& ts.sample_tree@ == build_tree(g)
}

pub open spec fn group_model(tid: Tid, g: Seq<RawSample>) -> (Tid, int, int, Tree) {
    (tid, time_delta(user_times(g)), time_delta(kernel_times(g)), build_tree(g))
}

pub open spec fn thread_model(ts: ThreadSample) -> (Tid, int, int, Tree) {
    (ts.thread_id, ts.user_cpu_time as int, ts.kernel_cpu_time as int, ts.sample_tree@)
}

/// The whole result of aggregation: one entry per observed thread id, in
/// ascending id order, each determined by that thread's own samples alone.
pub open spec fn aggregate_model(rs: Seq<RawSample>) -> Seq<(Tid, int, int, Tree)> {
    Seq::new(
        sorted_tids(rs).len(),
        |i: int| group_model(sorted_tids(rs)[i], samples_of(rs, sorted_tids(rs)[i])),
    )
}

/// Two strictly ascending sequences over the same set are the same
/// sequence.
pub proof fn lemma_strictly_sorted_unique(s1: Seq<Tid>, s2: Seq<Tid>)
    requires
        strictly_sorted(s1),
        strictly_sorted(s2),
        s1.to_set() == s2.to_set(),
    ensures
        s1 =~= s2,
    decreases s1.len(),
{
    if s1.len() == 0 {
        if s2.len() > 0 {
            assert(s2.contains(s2[0]));
            assert(s1.to_set().contains(s2[0]));
        }
    } else {
        assert(s1.contains(s1[0]));
        assert(s2.to_set().contains(s1[0]));
        assert(s2.contains(s1[0]));
        assert(s2.contains(s2[0]));
        assert(s1.to_set().contains(s2[0]));
        assert(s1.contains(s2[0]));
        let a = s1[0];
        let b = s2[0];
        if a != b {
            let i = choose|i: int| 0 <= i < s2.len() && s2[i] == a;
            let j = choose|j: int| 0 <= j < s1.len() && s1[j] == b;
            assert(i > 0 && j > 0);
            assert(s2[0] < s2[i]);
            assert(s1[0] < s1[j]);
            assert(false);
        }
        let t1 = s1.drop_first();
        let t2 = s2.drop_first();
        assert(strictly_sorted(t1));
        assert(strictly_sorted(t2));
        assert(t1.to_set() =~= t2.to_set()) by {
            assert forall|x: Tid| t1.to_set().contains(x) implies t2.to_set().contains(x) by {
                lemma_tail_membership(s1, x);
                assert(s2.to_set().contains(x));
                lemma_tail_membership(s2, x);
            }
            assert forall|x: Tid| t2.to_set().contains(x) implies t1.to_set().contains(x) by {
                lemma_tail_membership(s2, x);
                assert(s1.to_set().contains(x));
                lemma_tail_membership(s1, x);
            }
        }
        lemma_strictly_sorted_unique(t1, t2);
        assert forall|i: int| 0 <= i < s1.len() implies s1[i] == s2[i] by {
            if i > 0 {
                assert(t1[i - 1] == t2[i - 1]);
            }
        }
    }
}

/// In a strictly ascending sequence, the tail holds exactly the members
/// larger than the head.
proof fn lemma_tail_membership(s: Seq<Tid>, x: Tid)
    requires
        strictly_sorted(s),
        s.len() > 0,
    ensures
        s.drop_first().to_set().contains(x) <==> (s.to_set().contains(x) && x > s[0]),
{
    let t = s.drop_first();
    if t.to_set().contains(x) {
        let i = choose|i: int| 0 <= i < t.len() && t[i] == x;
        assert(s[i + 1] == x);
        assert(s.contains(x));
        assert(s[0] < s[i + 1]);
    }
    if s.to_set().contains(x) && x > s[0] {
        let i = choose|i: int| 0 <= i < s.len() && s[i] == x;
        assert(i > 0);
        assert(t[i - 1] == x);
        assert(t.contains(x));
    }
}

/// A thread id was observed exactly when its group of samples is nonempty.
pub proof fn lemma_tid_set_filter(rs: Seq<RawSample>, t: Tid)
    ensures
        tid_set(rs).contains(t) <==> samples_of(rs, t).len() > 0,
    decreases rs.len(),
{
    reveal_with_fuel(Seq::filter, 2);
    if rs.len() == 0 {
    } else {
        lemma_tid_set_filter(rs.drop_last(), t);
        assert(samples_of(rs, t) == if rs.last().thread_id == t {
            samples_of(rs.drop_last(), t).push(rs.last())
        } else {
            samples_of(rs.drop_last(), t)
        });
        assert forall|i: int| 0 <= i < rs.drop_last().len() implies rs.drop_last()[i] == rs[i] by {}
        if tid_set(rs).contains(t) {
            let i = choose|i: int| 0 <= i < rs.len() && rs[i].thread_id == t;
            if i < rs.len() - 1 {
                assert(tid_set(rs.drop_last()).contains(t));
            }
        }
        if samples_of(rs, t).len() > 0 {
            if rs.last().thread_id == t {
                assert(tid_set(rs).contains(t));
            } else {
                assert(tid_set(rs.drop_last()).contains(t));
                let i = choose|i: int| 0 <= i < rs.drop_last().len() && rs.drop_last()[i].thread_id
                    == t;
                assert(rs[i].thread_id == t);
            }
        }
    }
}

/// The tree a group folds into is well formed, hangs below a root at level
/// 0 and address 0, counts one root hit per sample, and holds no count
/// above the number of samples.
pub proof fn lemma_build_tree_wf(g: Seq<RawSample>)
    ensures
        build_tree(g).wf(),
        build_tree(g).level == 0,
        build_tree(g).address == 0,
        build_tree(g).count == g.len(),
        build_tree(g).descendant_counts_at_most(g.len() as int),
    decreases g.len(),
{
    if g.len() > 0 {
        lemma_build_tree_wf(g.drop_last());
        let t = build_tree(g.drop_last());
        let b = t.bump();
        assert(b.children =~= t.children);
        assert(b.wf());
        assert(b.descendant_counts_at_most((g.len() - 1) as int));
        lemma_tree_insert_wf(b, sample_path(g.last()), (g.len() - 1) as int);
    }
}

/// A group whose samples all captured one and the same backtrace folds
/// into a single unbranched chain — that backtrace reversed — with every
/// hit count the size of the group: the shape of a thread observed on the
/// same call stack at every tick.
pub proof fn lemma_uniform_group_tree(g: Seq<RawSample>, bt: Seq<u64>)
    requires
        forall|i: int| 0 <= i < g.len() ==> (#[trigger] g[i]).backtrace@ == bt,
    ensures
        build_tree(g) == insert_repeated(bt.reverse(), g.len()),
    decreases g.len(),
{
    if g.len() > 0 {
        assert forall|i: int| 0 <= i < g.drop_last().len() implies (#[trigger] g.drop_last()[i]).backtrace@
            == bt by {
            assert(g.drop_last()[i] == g[i]);
        }
        lemma_uniform_group_tree(g.drop_last(), bt);
        assert(sample_path(g.last()) == bt.reverse());
    }
}

/// A thread's samples keep their backtraces: filtering by thread id hands
/// back samples of the run.
proof fn lemma_uniform_samples_filter(rs: Seq<RawSample>, t: Tid, bt: Seq<u64>)
    requires
        forall|i: int| 0 <= i < rs.len() ==> (#[trigger] rs[i]).backtrace@ == bt,
    ensures
        forall|j: int|
            0 <= j < samples_of(rs, t).len() ==> (#[trigger] samples_of(rs, t)[j]).backtrace@
                == bt,
    decreases rs.len(),
{
    reveal_with_fuel(Seq::filter, 2);
    if rs.len() > 0 {
        assert forall|i: int| 0 <= i < rs.drop_last().len() implies (#[trigger] rs.drop_last()[i]).backtrace@
            == bt by {
            assert(rs.drop_last()[i] == rs[i]);
        }
        lemma_uniform_samples_filter(rs.drop_last(), t, bt);
        assert(samples_of(rs, t) == if rs.last().thread_id == t {
            samples_of(rs.drop_last(), t).push(rs.last())
        } else {
            samples_of(rs.drop_last(), t)
        });
    }
}

/// End-to-end shape of a run observing two threads, each on one and the
/// same call stack at every tick: aggregation yields exactly two thread
/// entries, in ascending id order, and each thread's call tree is the
/// single unbranched chain of the shared backtrace reversed, every hit
/// count — the synthetic root's included — that thread's own number of
/// samples.
pub proof fn lemma_two_uniform_threads(rs: Seq<RawSample>, t1: Tid, t2: Tid, bt: Seq<u64>)
    requires
        t1 < t2,
        forall|i: int|
            0 <= i < rs.len() ==> ((#[trigger] rs[i]).thread_id == t1 || rs[i].thread_id == t2),
        exists|i: int| 0 <= i < rs.len() && (#[trigger] rs[i]).thread_id == t1,
        exists|i: int| 0 <= i < rs.len() && (#[trigger] rs[i]).thread_id == t2,
        forall|i: int| 0 <= i < rs.len() ==> (#[trigger] rs[i]).backtrace@ == bt,
    ensures
        sorted_tids(rs) == seq![t1, t2],
        aggregate_model(rs).len() == 2,
        aggregate_model(rs)[0] == group_model(t1, samples_of(rs, t1)),
        aggregate_model(rs)[1] == group_model(t2, samples_of(rs, t2)),
        ({
            let tree1 = build_tree(samples_of(rs, t1));
            let tree2 = build_tree(samples_of(rs, t2));
            &&& tree1 == insert_repeated(bt.reverse(), samples_of(rs, t1).len())
            &&& tree2 == insert_repeated(bt.reverse(), samples_of(rs, t2).len())
            &&& tree1.count == samples_of(rs, t1).len()
            &&& tree2.count == samples_of(rs, t2).len()
            &&& bt.len() > 0 ==> tree1.children =~= seq![
                chain(1, bt.reverse(), samples_of(rs, t1).len() as int),
            ]
            &&& bt.len() > 0 ==> tree2.children =~= seq![
                chain(1, bt.reverse(), samples_of(rs, t2).len() as int),
            ]
        }),
{
    let tids = seq![t1, t2];
    assert(strictly_sorted(tids));
    assert(tids.to_set() =~= tid_set(rs)) by {
        assert(tids.contains(t1) && tids.contains(t2));
        assert forall|x: Tid| tid_set(rs).contains(x) implies tids.to_set().contains(x) by {
            let i = choose|i: int| 0 <= i < rs.len() && rs[i].thread_id == x;
            assert(x == t1 || x == t2);
        }
        assert forall|x: Tid| tids.to_set().contains(x) implies tid_set(rs).contains(x) by {
            assert(x == t1 || x == t2);
        }
    }
    assert(exists|q: Seq<Tid>| strictly_sorted(q) && q.to_set() == tid_set(rs)) by {
        assert(strictly_sorted(tids) && tids.to_set() == tid_set(rs));
    }
    let s = sorted_seq_of(tid_set(rs));
    assert(strictly_sorted(s) && s.to_set() == tid_set(rs));
    lemma_strictly_sorted_unique(s, tids);
    assert(sorted_tids(rs) == tids);
    assert(aggregate_model(rs)[0] == group_model(t1, samples_of(rs, t1)));
    assert(aggregate_model(rs)[1] == group_model(t2, samples_of(rs, t2)));
    lemma_uniform_samples_filter(rs, t1, bt);
    lemma_uniform_samples_filter(rs, t2, bt);
    lemma_uniform_group_tree(samples_of(rs, t1), bt);
    lemma_uniform_group_tree(samples_of(rs, t2), bt);
    lemma_same_path_repeated(bt.reverse(), samples_of(rs, t1).len());
    lemma_same_path_repeated(bt.reverse(), samples_of(rs, t2).len());
    assert(bt.reverse().len() == bt.len());
    lemma_tid_set_filter(rs, t1);
    lemma_tid_set_filter(rs, t2);
}

/// Grouping idempotence: aggregation reads a run only through each
/// thread's own sample subsequence, so any reordering of the raw samples
/// that keeps every thread's samples in their relative order
/// yields the same aggregated result.
pub proof fn lemma_grouping_order_independent(r1: Seq<RawSample>, r2: Seq<RawSample>)
    requires
        forall|t: Tid| #[trigger] samples_of(r1, t) == samples_of(r2, t),
    ensures
        aggregate_model(r1) =~= aggregate_model(r2),
{
    assert(tid_set(r1) =~= tid_set(r2)) by {
        assert forall|t: Tid| tid_set(r1).contains(t) implies tid_set(r2).contains(t) by {
            lemma_tid_set_filter(r1, t);
            lemma_tid_set_filter(r2, t);
        }
        assert forall|t: Tid| tid_set(r2).contains(t) implies tid_set(r1).contains(t) by {
            lemma_tid_set_filter(r1, t);
            lemma_tid_set_filter(r2, t);
        }
    }
    assert(sorted_tids(r1) == sorted_tids(r2));
    assert forall|i: int| 0 <= i < sorted_tids(r1).len() implies aggregate_model(r1)[i]
        == aggregate_model(r2)[i] by {
        assert(samples_of(r1, sorted_tids(r1)[i]) == samples_of(r2, sorted_tids(r2)[i]));
    }
}

/// The thread ids of a one-step-longer prefix of a run.
proof fn lemma_tid_set_take_step(rs: Seq<RawSample>, j: int)
    requires
        0 <= j < rs.len(),
    ensures
        tid_set(rs.take(j + 1)) =~= tid_set(rs.take(j)).insert(rs[j].thread_id),
{
    let pre = rs.take(j);
    let cur = rs.take(j + 1);
    assert forall|t: Tid| tid_set(cur).contains(t) implies tid_set(pre).insert(
        rs[j].thread_id,
    ).contains(t) by {
        let i = choose|i: int| 0 <= i < cur.len() && cur[i].thread_id == t;
        if i < j {
            assert(pre[i].thread_id == t);
        } else {
            assert(cur[i] == rs[j]);
        }
    }
    assert forall|t: Tid| tid_set(pre).insert(rs[j].thread_id).contains(t) implies tid_set(
        cur,
    ).contains(t) by {
        if t == rs[j].thread_id {
            assert(cur[j].thread_id == t);
        } else {
            let i = choose|i: int| 0 <= i < pre.len() && pre[i].thread_id == t;
            assert(cur[i].thread_id == t);
        }
    }
}

/// One thread's samples in a one-step-longer prefix of a run.
proof fn lemma_samples_of_take_step(rs: Seq<RawSample>, tid: Tid, j: int)
    requires
        0 <= j < rs.len(),
    ensures
        samples_of(rs.take(j + 1), tid) == (if rs[j].thread_id == tid {
            samples_of(rs.take(j), tid).push(rs[j])
        } else {
            samples_of(rs.take(j), tid)
        }),
{
    reveal_with_fuel(Seq::filter, 2);
    let cur = rs.take(j + 1);
    assert(cur.len() == j + 1);
    assert(cur.drop_last() =~= rs.take(j));
    assert(cur.last() == rs[j]);
}

/// The smallest reading never exceeds the largest.
proof fn lemma_seq_min_le_max(s: Seq<u64>)
    requires
        s.len() > 0,
    ensures
        seq_min(s) <= seq_max(s),
    decreases s.len(),
{
    if s.len() > 1 {
        lemma_seq_min_le_max(s.drop_last());
    }
}

/// The addresses of `v` in reverse order.
fn reversed(v: &Vec<u64>) -> (r: Vec<u64>)
    ensures
        r@ == v@.reverse(),
{
    let n = v.len();
    let mut r: Vec<u64> = Vec::new();
    let mut k: usize = 0;
    while k < n
        invariant
            n == v@.len(),
            k <= n,
            r@.len() == k,
            forall|i: int| 0 <= i < k ==> r@[i] == v@[n - 1 - i],
        decreases n - k,
    {
        r.push(v[n - 1 - k]);
        k = k + 1;
    }
    proof {
        assert(r@ =~= v@.reverse());
    }
    r
}

/// Puts `t` at its place in an ascending list of thread ids, unless it is
/// already there.
fn insert_sorted_unique(tids: &mut Vec<Tid>, t: Tid)
    requires
        strictly_sorted(old(tids)@),
    ensures
        strictly_sorted(final(tids)@),
        final(tids)@.to_set() == old(tids)@.to_set().insert(t),
{
    let n = tids.len();
    let mut k: usize = 0;
    while k < n && tids[k] < t
        invariant
            n == tids@.len(),
            k <= n,
            forall|i: int| 0 <= i < k ==> tids@[i] < t,
        decreases n - k,
    {
        k = k + 1;
    }
    if k < n && tids[k] == t {
        proof {
            assert(tids@.contains(t));
            assert(final(tids)@.to_set() =~= old(tids)@.to_set().insert(t));
        }
        return ;
    }
    proof {
        assert(k < n ==> tids@[k as int] > t);
    }
    tids.insert(k, t);
    proof {
        let new = tids@;
        let old_s = old(tids)@;
        assert forall|i: int, j: int| 0 <= i < j < new.len() implies new[i] < new[j] by {
            if i < k && j < k {
            } else if i < k && j == k {
            } else if i < k && j > k {
                assert(new[j] == old_s[j - 1]);
                assert(old_s[i] < old_s[j - 1] || i == j - 1);
            } else if i == k {
                assert(new[j] == old_s[j - 1]);
                assert(old_s[k as int] <= old_s[j - 1]);
            } else {
                assert(new[i] == old_s[i - 1]);
                assert(new[j] == old_s[j - 1]);
            }
        }
        assert forall|x: Tid| new.to_set().contains(x) implies old_s.to_set().insert(t).contains(
            x,
        ) by {
            let i = choose|i: int| 0 <= i < new.len() && new[i] == x;
            if i < k {
                assert(old_s[i] == x);
            } else if i > k {
                assert(old_s[i - 1] == x);
            }
        }
        assert forall|x: Tid| old_s.to_set().insert(t).contains(x) implies new.to_set().contains(
            x,
        ) by {
            if x == t {
                assert(new[k as int] == x);
            } else {
                let i = choose|i: int| 0 <= i < old_s.len() && old_s[i] == x;
                if i < k {
                    assert(new[i] == x);
                } else {
                    assert(new[i + 1] == x);
                }
            }
        }
        assert(new.to_set() =~= old_s.to_set().insert(t));
    }
}

/// Folds the samples of one thread into its aggregated result: the
/// CPU-time deltas are the ranges of the observed readings, and the call
/// tree is the fold of the thread's reversed backtraces.
fn build_thread_sample(raw: &Vec<RawSample>, tid: Tid) -> (ts: ThreadSample)
    requires
        tid_set(raw@).contains(tid),
        raw@.len() <= u32::MAX,
        forall|i: int| 0 <= i < raw@.len() ==> raw@[i].backtrace@.len() <= u32::MAX,
    ensures
        matches_group(ts, tid, samples_of(raw@, tid)),
        ts.wf(),
{
    let n = raw.len();
    let mut seen = false;
    let mut min_u: u64 = 0;
    let mut max_u: u64 = 0;
    let mut min_k: u64 = 0;
    let mut max_k: u64 = 0;
    let mut j: usize = 0;
    while j < n
        invariant
            n == raw@.len(),
            j <= n,
            seen <==> samples_of(raw@.take(j as int), tid).len() > 0,
            seen ==> {
                &&& min_u == seq_min(user_times(samples_of(raw@.take(j as int), tid)))
                &&& max_u == seq_max(user_times(samples_of(raw@.take(j as int), tid)))
                &&& min_k == seq_min(kernel_times(samples_of(raw@.take(j as int), tid)))
                &&& max_k == seq_max(kernel_times(samples_of(raw@.take(j as int), tid)))
            },
        decreases n - j,
    {
        let ghost pre = samples_of(raw@.take(j as int), tid);
        proof {
            lemma_samples_of_take_step(raw@, tid, j as int);
        }
        if raw[j].get_thread_id() == tid {
            let u = raw[j].get_user_cpu_time();
            let k = raw[j].get_kernel_cpu_time();
            proof {
                let cur = samples_of(raw@.take(j as int + 1), tid);
                assert(cur == pre.push(raw@[j as int]));
                assert(user_times(cur) =~= user_times(pre).push(u));
                assert(kernel_times(cur) =~= kernel_times(pre).push(k));
                if pre.len() > 0 {
                    assert(user_times(cur).drop_last() =~= user_times(pre));
                    assert(kernel_times(cur).drop_last() =~= kernel_times(pre));
                }
            }
            if !seen {
                seen = true;
                min_u = u;
                max_u = u;
                min_k = k;
                max_k = k;
            } else {
                if u < min_u {
                    min_u = u;
                }
                if u > max_u {
                    max_u = u;
                }
                if k < min_k {
                    min_k = k;
                }
                if k > max_k {
                    max_k = k;
                }
            }
        }
        j = j + 1;
    }
    proof {
        assert(raw@.take(n as int) =~= raw@);
        lemma_tid_set_filter(raw@, tid);
        assert(seen);
        lemma_seq_min_le_max(user_times(samples_of(raw@, tid)));
        lemma_seq_min_le_max(kernel_times(samples_of(raw@, tid)));
    }
    let mut ts = ThreadSample::new(tid, max_u - min_u, max_k - min_k);
    let mut j2: usize = 0;
    while j2 < n
        invariant
            n == raw@.len(),
            n <= u32::MAX,
            forall|i: int| 0 <= i < raw@.len() ==> raw@[i].backtrace@.len() <= u32::MAX,
            j2 <= n,
            ts.thread_id == tid,
            ts.user_cpu_time == max_u - min_u,
            ts.kernel_cpu_time == max_k - min_k,
            ts.sample_tree@ == build_tree(samples_of(raw@.take(j2 as int), tid)),
            ts.wf(),
        decreases n - j2,
    {
        let ghost pre = samples_of(raw@.take(j2 as int), tid);
        proof {
            lemma_samples_of_take_step(raw@, tid, j2 as int);
        }
        if raw[j2].get_thread_id() == tid {
            let path = reversed(raw[j2].get_backtrace());
            proof {
                lemma_build_tree_wf(pre);
                raw@.take(j2 as int).lemma_filter_len(|s: RawSample| s.thread_id == tid);
                assert(pre.len() <= j2);
                assert(ts.sample_tree@.counts_at_most(u32::MAX - 1)) by {
                    assert(ts.sample_tree@.count == pre.len());
                    assert(ts.sample_tree@.descendant_counts_at_most(pre.len() as int));
                    assert(ts.sample_tree@.counts_at_most(pre.len() as int));
                    lemma_counts_at_most_mono(ts.sample_tree@, pre.len() as int, u32::MAX - 1);
                }
            }
            ts.add_backtrace(&path);
            proof {
                let cur = samples_of(raw@.take(j2 as int + 1), tid);
                assert(cur == pre.push(raw@[j2 as int]));
                assert(cur.drop_last() =~= pre);
                assert(cur.last() == raw@[j2 as int]);
                assert(build_tree(cur) == tree_insert(
                    build_tree(pre).bump(),
                    sample_path(raw@[j2 as int]),
                ));
                assert(path@ == sample_path(raw@[j2 as int]));
            }
        }
        j2 = j2 + 1;
    }
    proof {
        assert(raw@.take(n as int) =~= raw@);
    }
    ts
}

/// Groups a run's raw samples by thread id and folds each group into its
/// thread result: one entry per observed thread id, in ascending id order,
/// each holding that thread's CPU-time deltas and merged call tree.
pub fn aggregate_samples(raw: &Vec<RawSample>) -> (threads: Vec<ThreadSample>)
    requires
        raw@.len() <= u32::MAX,
        forall|i: int| 0 <= i < raw@.len() ==> raw@[i].backtrace@.len() <= u32::MAX,
    ensures
        strictly_sorted(sorted_tids(raw@)),
        sorted_tids(raw@).to_set() == tid_set(raw@),
        threads@.len() == sorted_tids(raw@).len(),
        forall|i: int|
            0 <= i < threads@.len() ==> matches_group(
                #[trigger] threads@[i],
                sorted_tids(raw@)[i],
                samples_of(raw@, sorted_tids(raw@)[i]),
            ),
        threads@.map_values(|ts: ThreadSample| thread_model(ts)) == aggregate_model(raw@),
        forall|i: int| 0 <= i < threads@.len() ==> (#[trigger] threads@[i]).wf(),
{
    let n = raw.len();
    let mut tids: Vec<Tid> = Vec::new();
    let mut j: usize = 0;
    while j < n
        invariant
            n == raw@.len(),
            j <= n,
            strictly_sorted(tids@),
            tids@.to_set() == tid_set(raw@.take(j as int)),
        decreases n - j,
    {
        proof {
            lemma_tid_set_take_step(raw@, j as int);
        }
        let t = raw[j].get_thread_id();
        insert_sorted_unique(&mut tids, t);
        j = j + 1;
    }
    proof {
        assert(raw@.take(n as int) =~= raw@);
        assert(strictly_sorted(tids@) && tids@.to_set() == tid_set(raw@));
        assert(exists|q: Seq<Tid>| strictly_sorted(q) && q.to_set() == tid_set(raw@)) by {
            assert(strictly_sorted(tids@) && tids@.to_set() == tid_set(raw@));
        }
        let s = sorted_seq_of(tid_set(raw@));
        assert(strictly_sorted(s) && s.to_set() == tid_set(raw@));
        lemma_strictly_sorted_unique(s, tids@);
        assert(sorted_tids(raw@) == tids@);
    }
    let m = tids.len();
    let mut threads: Vec<ThreadSample> = Vec::new();
    let mut idx: usize = 0;
    while idx < m
        invariant
            n == raw@.len(),
            n <= u32::MAX,
            forall|i: int| 0 <= i < raw@.len() ==> raw@[i].backtrace@.len() <= u32::MAX,
            m == tids@.len(),
            idx <= m,
            tids@ == sorted_tids(raw@),
            tids@.to_set() == tid_set(raw@),
            threads@.len() == idx,
            forall|i: int|
                0 <= i < idx ==> matches_group(
                    #[trigger] threads@[i],
                    tids@[i],
                    samples_of(raw@, tids@[i]),
                ),
            forall|i: int| 0 <= i < idx ==> (#[trigger] threads@[i]).wf(),
        decreases m - idx,
    {
        proof {
            assert(tids@.contains(tids@[idx as int]));
            assert(tid_set(raw@).contains(tids@[idx as int]));
        }
        let ts = build_thread_sample(raw, tids[idx]);
        threads.push(ts);
        idx = idx + 1;
    }
    proof {
        assert(threads@.map_values(|ts: ThreadSample| thread_model(ts)) =~= aggregate_model(raw@));
    }
    threads
}

} // verus!
