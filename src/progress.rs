//! Why a run ends. Give a task with `d` hops left the weight
//! `weight(l, d)`, where `l` bounds the followable links of any one page: a
//! queued task weighs `weight(l, d)`, a task in flight one less. Admitting
//! a task, dropping an already visited one and completing a fetch each
//! lower the total, and nothing raises it, so a run over pages of finitely
//! many links reaches a state with nothing queued and nothing in flight.
use vstd::prelude::*;
use crate::crawler::child_tasks;

verus! {

/// The weight of a task with `d` hops left: enough to pay for itself and
/// for the weights of up to `l` children.
pub open spec fn weight(l: nat, d: nat) -> nat
    decreases d,
{
    if d == 0 {
        2
    } else {
        2 + l * weight(l, (d - 1) as nat)
    }
}

/// The total weight of tasks with hops left `ds`.
pub open spec fn total(l: nat, ds: Seq<nat>) -> nat
    decreases ds.len(),
{
    if ds.len() == 0 {
        0
    } else {
        total(l, ds.drop_last()) + weight(l, ds.last())
    }
}

pub open spec fn queued_depths(q: Seq<(Seq<char>, u32)>) -> Seq<nat> {
    q.map_values(|t: (Seq<char>, u32)| t.1 as nat)
}

pub open spec fn running_depths(r: Seq<(usize, Seq<char>, u32)>) -> Seq<nat> {
    r.map_values(|t: (usize, Seq<char>, u32)| t.2 as nat)
}

/// The work left in a state with queue `q` and fetches in flight `r`.
pub open spec fn work(l: nat, q: Seq<(Seq<char>, u32)>, r: Seq<(usize, Seq<char>, u32)>) -> int {
    total(l, queued_depths(q)) + total(l, running_depths(r)) - r.len()
}

proof fn lemma_total_concat(l: nat, a: Seq<nat>, b: Seq<nat>)
    ensures
        total(l, a + b) == total(l, a) + total(l, b),
    decreases b.len(),
{
    if b.len() == 0 {
        assert(a + b =~= a);
    } else {
        assert((a + b).drop_last() =~= a + b.drop_last());
        lemma_total_concat(l, a, b.drop_last());
    }
}

proof fn lemma_total_at_least(l: nat, ds: Seq<nat>)
    ensures
        total(l, ds) >= 2 * ds.len(),
    decreases ds.len(),
{
    if ds.len() > 0 {
        lemma_total_at_least(l, ds.drop_last());
    }
}

proof fn lemma_total_uniform(l: nat, ds: Seq<nat>, d: nat)
    requires
        forall|i: int| 0 <= i < ds.len() ==> ds[i] == d,
    ensures
        total(l, ds) == ds.len() * weight(l, d),
    decreases ds.len(),
{
    if ds.len() > 0 {
        lemma_total_uniform(l, ds.drop_last(), d);
        assert(total(l, ds) == (ds.len() - 1) * weight(l, d) + weight(l, d));
        assert((ds.len() - 1) * weight(l, d) + weight(l, d) == ds.len() * weight(l, d))
            by (nonlinear_arith);
    }
}

/// Splits `ds` around position `k`.
proof fn lemma_total_split(l: nat, ds: Seq<nat>, k: int)
    requires
        0 <= k < ds.len(),
    ensures
        total(l, ds) == total(l, ds.subrange(0, k)) + weight(l, ds[k]) + total(
            l,
            ds.subrange(k + 1, ds.len() as int),
        ),
{
    let a = ds.subrange(0, k);
    let b = ds.subrange(k + 1, ds.len() as int);
    assert(ds =~= (a + seq![ds[k]]) + b);
    lemma_total_concat(l, a + seq![ds[k]], b);
    lemma_total_concat(l, a, seq![ds[k]]);
    assert(seq![ds[k]].drop_last() =~= Seq::<nat>::empty());
    assert(total(l, seq![ds[k]]) == total(l, Seq::<nat>::empty()) + weight(l, ds[k]));
}

/// Total work is never negative, so it can only fall finitely often.
pub proof fn lemma_work_nonnegative(
    l: nat,
    q: Seq<(Seq<char>, u32)>,
    r: Seq<(usize, Seq<char>, u32)>,
)
    ensures
        work(l, q, r) >= 0,
{
    lemma_total_at_least(l, running_depths(r));
}

/// Admitting the task at position `m` of the queue, after dropping those
/// behind it (as `Crawler::next_action` does on `Fetch`), lowers the work.
pub proof fn lemma_admission_lowers_work(
    l: nat,
    q: Seq<(Seq<char>, u32)>,
    r: Seq<(usize, Seq<char>, u32)>,
    m: int,
    id: usize,
)
    requires
        0 <= m < q.len(),
    ensures
        work(l, q.subrange(0, m), r.push((id, q[m].0, q[m].1))) < work(l, q, r),
{
    let qd = queued_depths(q);
    lemma_total_split(l, qd, m);
    assert(queued_depths(q.subrange(0, m)) =~= qd.subrange(0, m));
    assert(running_depths(r.push((id, q[m].0, q[m].1))) =~= running_depths(r).push(q[m].1 as nat));
    assert(running_depths(r.push((id, q[m].0, q[m].1))).drop_last() =~= running_depths(r));
}

/// Dropping tasks from the end of the queue (already visited ones, or all
/// of them on cancellation), as `Crawler::next_action` does on `Wait` and
/// `Done`, does not raise the work.
pub proof fn lemma_dropping_keeps_work_down(
    l: nat,
    q: Seq<(Seq<char>, u32)>,
    r: Seq<(usize, Seq<char>, u32)>,
    m: int,
)
    requires
        0 <= m <= q.len(),
    ensures
        work(l, q.subrange(0, m), r) <= work(l, q, r),
{
    let qd = queued_depths(q);
    assert(qd =~= qd.subrange(0, m) + qd.subrange(m, qd.len() as int));
    lemma_total_concat(l, qd.subrange(0, m), qd.subrange(m, qd.len() as int));
    assert(queued_depths(q.subrange(0, m)) =~= qd.subrange(0, m));
}

/// Completing the fetch at position `k` of those in flight, for a page
/// with at most `l` links (as `Crawler::complete` does), lowers the work.
pub proof fn lemma_completion_lowers_work(
    l: nat,
    q: Seq<(Seq<char>, u32)>,
    r: Seq<(usize, Seq<char>, u32)>,
    k: int,
    urls: Seq<Seq<char>>,
)
    requires
        0 <= k < r.len(),
        urls.len() <= l,
    ensures
        work(l, q + child_tasks(urls, r[k].2), r.remove(k)) < work(l, q, r),
{
    let d = r[k].2;
    let kids = child_tasks(urls, d);
    let rd = running_depths(r);
    lemma_total_split(l, rd, k);
    assert(running_depths(r.remove(k)) =~= rd.subrange(0, k) + rd.subrange(k + 1, rd.len() as int));
    lemma_total_concat(l, rd.subrange(0, k), rd.subrange(k + 1, rd.len() as int));
    assert(queued_depths(q + kids) =~= queued_depths(q) + queued_depths(kids));
    lemma_total_concat(l, queued_depths(q), queued_depths(kids));
    if d == 0 {
        assert(queued_depths(kids) =~= Seq::<nat>::empty());
    } else {
        let f = |u: Seq<char>| crate::links::followable(u);
        urls.lemma_filter_len(f);
        let w = weight(l, (d - 1) as nat);
        lemma_total_uniform(l, queued_depths(kids), (d - 1) as nat);
        let n = kids.len();
        assert(n <= l);
        assert(n * w <= l * w) by (nonlinear_arith)
            requires
                n <= l,
        ;
    }
}

} // verus!
