use vstd::prelude::*;

verus! {

/// The recurrent model that a training run fits.
#[derive(Debug, Clone, Copy, PartialEq, Eq)]
pub enum ModelKind {
    VanillaRnn,
    Lstm,
}

/// Whether training reports test metrics after `epoch` (epochs count from 1).
pub open spec fn spec_is_report_epoch(epoch: int) -> bool {
    epoch == 1 || epoch % 10 == 0
}

/// Law: writing an epoch `e >= 1` as `10 * m + r` with `0 <= r < 10`, it is reported
/// exactly when `r == 0` (a multiple of ten) or when it is the first epoch.
pub proof fn lemma_report_epochs(m: int, r: int)
    requires
        m >= 0,
        0 <= r < 10,
        10 * m + r >= 1,
    ensures
        spec_is_report_epoch(10 * m + r) <==> (r == 0 || (m == 0 && r == 1)),
{
    assert((10 * m + r) % 10 == r) by (nonlinear_arith)
        requires
            m >= 0,
            0 <= r < 10,
    ;
}

/// Decides whether the metrics of `epoch` are printed: after the first epoch and
/// after every tenth.
pub fn is_report_epoch(epoch: i64) -> (report: bool)
    ensures
        report == spec_is_report_epoch(epoch as int),
{
    epoch == 1 || epoch % 10 == 0
}

/// Decides whether the loss of the mini-batch numbered `number` (from 0 within an
/// epoch) is printed: every hundredth one, starting with the first.
pub fn is_report_batch(number: u64) -> (report: bool)
    ensures
        report == (number % 100 == 0),
{
    number % 100 == 0
}

/// A mini-batch: `len` consecutive positions of the shuffled training rows, from `start`.
#[derive(Debug, Clone, Copy, PartialEq, Eq)]
pub struct Batch {
    pub start: i64,
    pub len: i64,
}

/// A batch as a pair of integers: its start and its length.
pub open spec fn batch_view(b: Batch) -> (int, int) {
    (b.start as int, b.len as int)
}

/// The mini-batches of one epoch over positions `start..n`: each holds `batch_size`
/// positions, the last one what is left.
pub open spec fn batch_plan(start: int, n: int, batch_size: int) -> Seq<(int, int)>
    decreases (if start < n { n - start } else { 0 }),
    when batch_size > 0
{
    if start >= n {
        Seq::empty()
    } else {
        let len = if batch_size < n - start {
            batch_size
        } else {
            n - start
        };
        seq![(start, len)] + batch_plan(start + batch_size, n, batch_size)
    }
}

/// Law: the mini-batches over positions `start..n` partition them in order. There are
/// none exactly when `start >= n`; otherwise the first starts at `start`, each starts
/// where the one before it ends, the last ends at `n`, every batch but the last holds
/// `batch_size` positions, and the last holds between one and `batch_size`.
pub proof fn lemma_batches_partition(start: int, n: int, batch_size: int)
    requires
        batch_size > 0,
    ensures
        ({
            let p = batch_plan(start, n, batch_size);
            &&& (p.len() == 0 <==> start >= n)
            &&& p.len() > 0 ==> p[0].0 == start && p.last().0 + p.last().1 == n
            &&& forall|k: int| 0 <= k < p.len() ==> 0 < (#[trigger] p[k]).1 <= batch_size
            &&& forall|k: int|
                0 <= k < p.len() - 1 ==> (#[trigger] p[k]).1 == batch_size && p[k + 1].0 == p[k].0
                    + p[k].1
        }),
    decreases (if start < n { n - start } else { 0 }),
{
    if start < n {
        let len = if batch_size < n - start {
            batch_size
        } else {
            n - start
        };
        let q = batch_plan(start + batch_size, n, batch_size);
        lemma_batches_partition(start + batch_size, n, batch_size);
        let p = batch_plan(start, n, batch_size);
        assert(p == seq![(start, len)] + q);
        assert forall|k: int| 0 <= k < p.len() implies 0 < (#[trigger] p[k]).1 <= batch_size by {
            if k > 0 {
                assert(p[k] == q[k - 1]);
            }
        }
        assert forall|k: int| 0 <= k < p.len() - 1 implies (#[trigger] p[k]).1 == batch_size && p[k
            + 1].0 == p[k].0 + p[k].1 by {
            assert(p[k + 1] == q[k]);
            if k > 0 {
                assert(p[k] == q[k - 1]);
            }
        }
        if q.len() > 0 {
            assert(p.last() == q.last());
        }
    }
}

/// Cuts the `n_train` training positions of one epoch into mini-batches of
/// `batch_size`; the last batch may be short.
pub fn batches(n_train: i64, batch_size: i64) -> (plan: Vec<Batch>)
    requires
        batch_size > 0,
    ensures
        plan@.map_values(|b: Batch| batch_view(b)) == batch_plan(0, n_train as int, batch_size as int),
{
    let mut plan: Vec<Batch> = Vec::new();
    let mut start: i64 = 0;
    let ghost whole = batch_plan(0, n_train as int, batch_size as int);
    if n_train <= 0 {
        assert(plan@.map_values(|b: Batch| batch_view(b)) =~= whole);
        return plan;
    }
    loop
        invariant
            batch_size > 0,
            0 <= start < n_train,
            whole == batch_plan(0, n_train as int, batch_size as int),
            plan@.map_values(|b: Batch| batch_view(b)) + batch_plan(start as int, n_train as int, batch_size as int)
                == whole,
        decreases n_train - start,
    {
        let rest = n_train - start;
        let len = if batch_size < rest { batch_size } else { rest };
        let ghost before = plan@.map_values(|b: Batch| batch_view(b));
        let ghost tail = batch_plan(start + batch_size, n_train as int, batch_size as int);
        assert(batch_plan(start as int, n_train as int, batch_size as int) == seq![(start as int, len as int)] + tail);
        plan.push(Batch { start, len });
        assert(plan@.map_values(|b: Batch| batch_view(b)) =~= before.push((start as int, len as int)));
        assert(before + (seq![(start as int, len as int)] + tail) =~= before.push((start as int, len as int)) + tail);
        if rest <= batch_size {
            assert(tail =~= Seq::<(int, int)>::empty());
            assert(plan@.map_values(|b: Batch| batch_view(b)) =~= whole);
            return plan;
        }
        start = start + batch_size;
    }
}

} // verus!
