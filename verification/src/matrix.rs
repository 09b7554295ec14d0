use vstd::prelude::*;

use vstd::arithmetic::div_mod::lemma_fundamental_div_mod;
use vstd::arithmetic::div_mod::lemma_fundamental_div_mod_converse_div;
use vstd::arithmetic::div_mod::lemma_fundamental_div_mod_converse_mod;

use crate::error::Error;
use crate::vector::Vector;
use crate::vector::dot_product;
use crate::vector::dot_spec;

verus! {

/// A dense row-major numeric grid: cell `(i, j)` is `data[i * col + j]`.
pub struct Matrix {
    pub data: Vec<i64>,
    pub row: usize,
    pub col: usize,
}

impl Matrix {
    /// The storage invariant: the flat buffer holds exactly `row * col` cells.
    pub open spec fn wf(&self) -> bool {
        self.data@.len() == self.row * self.col
    }

    /// Constructs a matrix from an owned flat buffer.
    ///
    /// The caller guarantees `data.len() == row * col`; that guarantee is this
    /// constructor's precondition.
    pub fn new(data: Vec<i64>, row: usize, col: usize) -> (m: Matrix)
        requires
            data@.len() == row * col,
        ensures
            m.data@ == data@,
            m.row == row,
            m.col == col,
            m.wf(),
    {
        Matrix { data, row, col }
    }

    /// Row `i` as a sequence: `col` consecutive cells starting at `i * col`.
    pub open spec fn row_seq(&self, i: int) -> Seq<i64> {
        self.data@.subrange(i * self.col, i * self.col + self.col)
    }

    /// Column `j` as a sequence: the cells `data[j], data[j + col], ...`,
    /// one per row, read with stride `col`.
    pub open spec fn col_seq(&self, j: int) -> Seq<i64> {
        Seq::new(self.row as nat, |q: int| self.data@[q * self.col + j])
    }
}

/// One unit of dispatched work: the linear output-cell index `idx` together
/// with private copies of the operand row and column whose dot product fills
/// that cell.
pub struct MsgInput {
    pub idx: usize,
    pub row: Vector,
    pub col: Vector,
}

impl MsgInput {
    pub fn new(idx: usize, row: Vec<i64>, col: Vec<i64>) -> (m: MsgInput)
        ensures
            m.idx == idx,
            m.row.data@ == row@,
            m.col.data@ == col@,
    {
        MsgInput { idx, row: Vector::new(row), col: Vector::new(col) }
    }
}

/// One worker reply: the computed dot product `val`, tagged with the output
/// cell index `idx` it belongs to, so the collector can place it correctly
/// whatever order replies arrive in.
pub struct MsgOutput {
    pub idx: usize,
    pub val: i64,
}

/// The value of output cell `idx` in the product of `a` and `b`: the dot
/// product of row `idx / b.col` of `a` and column `idx % b.col` of `b`.
pub open spec fn cell_spec(a: Matrix, b: Matrix, idx: int) -> i64 {
    dot_spec(a.row_seq(idx / (b.col as int)), b.col_seq(idx % (b.col as int)))
}

/// The reference product of `a` and `b`: a flat row-major sequence of
/// `a.row * b.col` cells, each the dot product of its row of `a` and its
/// column of `b`.
pub open spec fn product_spec(a: Matrix, b: Matrix) -> Seq<i64> {
    Seq::new((a.row * b.col) as nat, |idx: int| cell_spec(a, b, idx))
}

/// `it` is exactly the work item for output cell `idx` of `a * b`: a copy of
/// the operand row of `a` and the operand column of `b` for that cell.
pub open spec fn item_for(a: Matrix, b: Matrix, it: MsgInput, idx: int) -> bool {
    &&& it.idx == idx
    &&& it.row.data@ == a.row_seq(idx / (b.col as int))
    &&& it.col.data@ == b.col_seq(idx % (b.col as int))
    &&& it.row.data@.len() == a.col
    &&& it.col.data@.len() == b.row
}

/// `o` is a correct reply for some output cell of `a * b`.
pub open spec fn out_ok(a: Matrix, b: Matrix, o: MsgOutput) -> bool {
    &&& o.idx < a.row * b.col
    &&& o.val == cell_spec(a, b, o.idx as int)
}

/// Builds the work item for output cell `idx`: copies row `idx / b.col` out
/// of `a` and reads column `idx % b.col` out of `b` with stride `b.col`.
#[verifier::loop_isolation(false)]
pub fn make_item(a: &Matrix, b: &Matrix, idx: usize) -> (it: MsgInput)
    requires
        a.wf(),
        b.wf(),
        a.col == b.row,
        idx < a.row * b.col,
    ensures
        item_for(*a, *b, it, idx as int),
{
    proof {
        assert(a.row > 0 && b.col > 0) by (nonlinear_arith)
            requires
                idx < a.row * b.col,
                idx >= 0,
        ;
    }
    let i = idx / b.col;
    let j = idx % b.col;
    proof {
        lemma_fundamental_div_mod(idx as int, b.col as int);
        assert(i < a.row) by (nonlinear_arith)
            requires
                idx < a.row * b.col,
                idx as int == (b.col as int) * (i as int) + (j as int),
                0 <= j < b.col,
        ;
    }
    let mut row: Vec<i64> = Vec::new();
    let mut k: usize = 0;
    while k < a.col
        invariant
            k <= a.col,
            row@.len() == k,
            forall|m: int| 0 <= m < k ==> row@[m] == a.data@[i * a.col + m],
        decreases a.col - k,
    {
        proof {
            vstd::std_specs::vec::axiom_spec_len(&a.data);
            assert(i * a.col + k < a.row * a.col) by (nonlinear_arith)
                requires
                    0 <= i,
                    i < a.row,
                    0 <= k < a.col,
            ;
        }
        row.push(a.data[i * a.col + k]);
        k = k + 1;
    }
    proof {
        assert((i as int) * (a.col as int) + a.col as int <= a.row as int * a.col as int)
            by (nonlinear_arith)
            requires
                0 <= i,
                i < a.row,
        ;
        assert(row@ =~= a.row_seq(i as int));
    }
    let mut col: Vec<i64> = Vec::new();
    let mut q: usize = 0;
    while q < b.row
        invariant
            q <= b.row,
            col@.len() == q,
            forall|m: int| 0 <= m < q ==> col@[m] == b.data@[m * b.col + j],
        decreases b.row - q,
    {
        proof {
            vstd::std_specs::vec::axiom_spec_len(&b.data);
            assert(q * b.col + j < b.row * b.col) by (nonlinear_arith)
                requires
                    0 <= q,
                    q < b.row,
                    0 <= j < b.col,
            ;
        }
        col.push(b.data[q * b.col + j]);
        q = q + 1;
    }
    proof {
        assert(col@ =~= b.col_seq(j as int));
    }
    MsgInput::new(idx, row, col)
}

/// The queue of worker `w` out of `n` holds, in FIFO order, exactly the work
/// items for the cells assigned by the `idx % n == w` rule: indices
/// `w, w + n, w + 2n, ...` up to `a.row * b.col`.
pub open spec fn queue_wf(a: Matrix, b: Matrix, q: Seq<MsgInput>, w: int, n: int) -> bool {
    &&& forall|m: int|
        #![trigger q[m]]
        0 <= m < q.len() ==> item_for(a, b, q[m], w + m * n) && w + m * n < a.row * b.col
    &&& w + q.len() * n >= a.row * b.col
}

/// Partitions a multiply request into one work item per output cell and
/// routes each item to worker `idx % n`, the deterministic assignment rule.
#[verifier::loop_isolation(false)]
pub fn distribute_work(a: &Matrix, b: &Matrix, n: usize) -> (queues: Vec<Vec<MsgInput>>)
    requires
        a.wf(),
        b.wf(),
        a.col == b.row,
        1 <= n,
        a.row * b.col <= usize::MAX,
    ensures
        queues@.len() == n,
        forall|w: int|
            #![trigger queues@[w]]
            0 <= w < n ==> queue_wf(*a, *b, queues@[w]@, w, n as int),
{
    let total = a.row * b.col;
    let mut queues: Vec<Vec<MsgInput>> = Vec::new();
    let mut w: usize = 0;
    while w < n
        invariant
            w <= n,
            queues@.len() == w,
            forall|w2: int|
                #![trigger queues@[w2]]
                0 <= w2 < w ==> queue_wf(*a, *b, queues@[w2]@, w2, n as int),
        decreases n - w,
    {
        let mut q: Vec<MsgInput> = Vec::new();
        let mut k: usize = 0;
        proof {
            assert(q@.len() == 0);
            assert(w + q@.len() * n == w);
        }
        while k < total
            invariant
                w < n,
                k <= total,
                k <= w + q@.len() * n < k + n,
                forall|m: int|
                    #![trigger q@[m]]
                    0 <= m < q@.len() ==> item_for(*a, *b, q@[m], w + m * (n as int)) && w + m * (
                    n as int) < total,
            decreases total - k,
        {
            if k % n == w {
                proof {
                    let len = q@.len() as int;
                    let ni = n as int;
                    let wi = w as int;
                    let ki = k as int;
                    lemma_fundamental_div_mod(ki, ni);
                    assert(wi + len * ni == ki) by (nonlinear_arith)
                        requires
                            ni > 0,
                            ki == ni * (ki / ni) + (ki % ni),
                            ki % ni == wi,
                            ki <= wi + len * ni < ki + ni,
                    ;
                }
                q.push(make_item(a, b, k));
                proof {
                    assert((q@.len() as int) * (n as int) == (q@.len() - 1) * (n as int) + (
                    n as int)) by (nonlinear_arith);
                }
            } else {
                proof {
                    let len = q@.len() as int;
                    let ni = n as int;
                    let wi = w as int;
                    let ki = k as int;
                    if wi + len * ni == ki {
                        lemma_fundamental_div_mod_converse_mod(ki, ni, len, wi);
                    }
                }
            }
            k = k + 1;
        }
        proof {
            assert(queue_wf(*a, *b, q@, w as int, n as int));
        }
        queues.push(q);
        proof {
            assert(queues@[w as int]@ == q@);
        }
        w = w + 1;
    }
    queues
}

/// The worker loop for one inbound queue: each item is taken in FIFO order
/// and reduced to one reply carrying the item's `idx` and its dot product.
/// A length mismatch in any single item aborts this worker with that item's
/// error instead of being silently dropped.
#[verifier::loop_isolation(false)]
pub fn run_worker(queue: &Vec<MsgInput>) -> (r: Result<Vec<MsgOutput>, Error>)
    ensures
        (forall|m: int|
            #![trigger queue@[m]]
            0 <= m < queue@.len() ==> queue@[m].row.data@.len() == queue@[m].col.data@.len())
            ==> r is Ok,
        r matches Ok(outs) ==> outs@.len() == queue@.len() && forall|m: int|
            #![trigger outs@[m]]
            0 <= m < outs@.len() ==> outs@[m].idx == queue@[m].idx && outs@[m].val == dot_spec(
                queue@[m].row.data@,
                queue@[m].col.data@,
            ),
        r matches Err(e) ==> e == Error::LengthMismatch && exists|m: int|
            0 <= m < queue@.len() && (#[trigger] queue@[m]).row.data@.len()
                != queue@[m].col.data@.len(),
{
    let mut outs: Vec<MsgOutput> = Vec::new();
    let mut m: usize = 0;
    while m < queue.len()
        invariant
            m <= queue@.len(),
            outs@.len() == m,
            forall|t: int|
                #![trigger outs@[t]]
                0 <= t < m ==> outs@[t].idx == queue@[t].idx && outs@[t].val == dot_spec(
                    queue@[t].row.data@,
                    queue@[t].col.data@,
                ),
            forall|t: int|
                #![trigger queue@[t]]
                0 <= t < m ==> queue@[t].row.data@.len() == queue@[t].col.data@.len(),
        decreases queue@.len() - m,
    {
        let item = &queue[m];
        match dot_product(&item.row, &item.col) {
            Ok(value) => {
                outs.push(MsgOutput { idx: item.idx, val: value });
            },
            Err(e) => {
                return Err(e);
            },
        }
        m = m + 1;
    }
    Ok(outs)
}

/// No two replies claim the same output cell.
pub open spec fn idx_distinct(outs: Seq<MsgOutput>) -> bool {
    forall|k1: int, k2: int|
        #![trigger outs[k1], outs[k2]]
        0 <= k1 < k2 < outs.len() ==> outs[k1].idx != outs[k2].idx
}

/// Every reply names a cell inside the output buffer.
pub open spec fn idx_bounded(outs: Seq<MsgOutput>, total: int) -> bool {
    forall|m: int| #![trigger outs[m]] 0 <= m < outs.len() ==> outs[m].idx < total
}

/// Some reply claims output cell `i`.
pub open spec fn covers(outs: Seq<MsgOutput>, i: int) -> bool {
    exists|m: int| 0 <= m < outs.len() && (#[trigger] outs[m]).idx == i
}

/// The replies claim every output cell: their `idx` values form a complete
/// permutation of `[0, total)` once `idx_distinct` holds as well.
pub open spec fn idx_complete(outs: Seq<MsgOutput>, total: int) -> bool {
    forall|i: int| 0 <= i < total ==> #[trigger] covers(outs, i)
}

/// Gathers a complete set of replies into the output matrix. Each value is
/// written at the cell its own `idx` names, never at the reply's position in
/// the sequence, so the assembled matrix does not depend on the order in
/// which replies arrived.
#[verifier::loop_isolation(false)]
pub fn collect_results(outputs: &Vec<MsgOutput>, row: usize, col: usize) -> (m: Matrix)
    requires
        row * col <= usize::MAX,
        idx_bounded(outputs@, (row * col) as int),
        idx_distinct(outputs@),
        idx_complete(outputs@, (row * col) as int),
    ensures
        m.row == row,
        m.col == col,
        m.wf(),
        forall|k: int|
            #![trigger outputs@[k]]
            0 <= k < outputs@.len() ==> m.data@[outputs@[k].idx as int] == outputs@[k].val,
{
    let total = row * col;
    let mut data: Vec<i64> = Vec::new();
    while data.len() < total
        invariant
            data@.len() <= total,
        decreases total - data@.len(),
    {
        data.push(0);
    }
    let mut k: usize = 0;
    while k < outputs.len()
        invariant
            k <= outputs@.len(),
            data@.len() == total,
            forall|t: int|
                #![trigger outputs@[t]]
                0 <= t < k ==> data@[outputs@[t].idx as int] == outputs@[t].val,
        decreases outputs@.len() - k,
    {
        let out = &outputs[k];
        data[out.idx] = out.val;
        k = k + 1;
    }
    Matrix { data, row, col }
}

/// Number of workers in the fixed pool used by `multiply`.
const NUM_PROCESS: usize = 4;

/// The full dispatch-and-collect pipeline with an explicit worker count `n`:
/// partition into per-cell work items, fan them out to `n` queues by
/// `idx % n`, run every worker, and assemble the replies by their indices.
///
/// Succeeds exactly when the inner dimensions agree, and then returns the
/// reference product; a mismatch is rejected as `DimensionMismatch` before
/// any work item is built. The postcondition does not mention `n`: the
/// result is pinned by the operands alone, whatever the worker count.
#[verifier::loop_isolation(false)]
pub fn multiply_with_workers(a: &Matrix, b: &Matrix, n: usize) -> (r: Result<Matrix, Error>)
    requires
        a.wf(),
        b.wf(),
        1 <= n,
        a.row * b.col <= usize::MAX,
    ensures
        a.col == b.row <==> r is Ok,
        r matches Ok(m) ==> m.row == a.row && m.col == b.col && m.wf() && m.data@ == product_spec(
            *a,
            *b,
        ),
        r matches Err(e) ==> e == Error::DimensionMismatch,
{
    if a.col != b.row {
        return Err(Error::DimensionMismatch);
    }
    let ghost total = (a.row * b.col) as int;
    let ghost ni = n as int;
    let queues = distribute_work(a, b, n);
    let mut outputs: Vec<MsgOutput> = Vec::new();
    let mut w: usize = 0;
    while w < n
        invariant
            w <= n,
            forall|m: int|
                #![trigger outputs@[m]]
                0 <= m < outputs@.len() ==> out_ok(*a, *b, outputs@[m]) && (outputs@[m].idx as int)
                    % ni < w,
            idx_distinct(outputs@),
            forall|i: int| 0 <= i < total && i % ni < w ==> #[trigger] covers(outputs@, i),
        decreases n - w,
    {
        let queue = &queues[w];
        proof {
            assert(queue_wf(*a, *b, queue@, w as int, ni));
            assert forall|m: int| 0 <= m < queue@.len() implies #[trigger] queue@[m].row.data@.len()
                == queue@[m].col.data@.len() by {
                assert(item_for(*a, *b, queue@[m], w + m * ni));
            }
        }
        // A worker can only fail on an item whose row and column lengths
        // disagree, and distribution builds none: every row copy has `a.col`
        // elements and every column copy has `b.row` of them.
        let mut outs = match run_worker(queue) {
            Ok(o) => o,
            Err(_) => {
                proof {
                    assert(false);
                }
                return Err(Error::ChannelClosed);
            },
        };
        let ghost prev = outputs@;
        let ghost new = outs@;
        outputs.append(&mut outs);
        proof {
            assert(outputs@ == prev + new);
            // Each appended reply answers item `w + q * n`, whose residue is
            // `w` and whose quotient is `q`; that makes the appended replies
            // correct, distinct from each other, and distinct from all the
            // replies of earlier workers.
            assert forall|q: int| 0 <= q < new.len() implies out_ok(*a, *b, new[q]) && (
            new[q].idx as int) == w + q * ni && (new[q].idx as int) % ni == w as int && (
            new[q].idx as int) / ni == q by {
                assert(item_for(*a, *b, queue@[q], w + q * ni));
                assert(new[q].idx == queue@[q].idx);
                lemma_fundamental_div_mod_converse_mod(w + q * ni, ni, q, w as int);
                lemma_fundamental_div_mod_converse_div(w + q * ni, ni, q, w as int);
            }
            assert forall|m: int| 0 <= m < outputs@.len() implies out_ok(*a, *b, #[trigger] outputs@[m])
                && (outputs@[m].idx as int) % ni < w + 1 by {
                if m < prev.len() {
                    assert(outputs@[m] == prev[m]);
                } else {
                    assert(outputs@[m] == new[m - prev.len()]);
                }
            }
            assert forall|k1: int, k2: int|
                0 <= k1 < k2 < outputs@.len() implies (#[trigger] outputs@[k1]).idx != (
            #[trigger] outputs@[k2]).idx by {
                if k2 < prev.len() {
                    assert(prev[k1].idx != prev[k2].idx);
                } else if k1 < prev.len() {
                    assert((prev[k1].idx as int) % ni < w);
                    assert((new[k2 - prev.len()].idx as int) % ni == w);
                } else {
                    let q1 = k1 - prev.len();
                    let q2 = k2 - prev.len();
                    assert((new[q1].idx as int) / ni == q1);
                    assert((new[q2].idx as int) / ni == q2);
                }
            }
            assert forall|i: int| 0 <= i < total && i % ni < w + 1 implies #[trigger] covers(
                outputs@,
                i,
            ) by {
                if i % ni < w {
                    assert(covers(prev, i));
                    let m = choose|m: int| 0 <= m < prev.len() && (#[trigger] prev[m]).idx == i;
                    assert(outputs@[m] == prev[m]);
                    assert(outputs@[m].idx == i);
                } else {
                    // i's residue is exactly w: the reply at queue position
                    // i / n claims cell i.
                    lemma_fundamental_div_mod(i, ni);
                    let q = i / ni;
                    assert(i == w + q * ni);
                    assert(q < new.len()) by (nonlinear_arith)
                        requires
                            ni > 0,
                            0 <= q,
                            i == w + q * ni,
                            i < total,
                            w + new.len() * ni >= total,
                    ;
                    assert(outputs@[prev.len() + q].idx == i);
                }
            }
        }
        w = w + 1;
    }
    proof {
        assert forall|i: int| 0 <= i < total implies #[trigger] covers(outputs@, i) by {
            assert(0 <= i % ni < ni) by (nonlinear_arith)
                requires
                    ni >= 1,
                    0 <= i,
            ;
        }
    }
    let m = collect_results(&outputs, a.row, b.col);
    proof {
        assert forall|i: int| 0 <= i < total implies m.data@[i] == product_spec(*a, *b)[i] by {
            assert(covers(outputs@, i));
            let k = choose|k: int| 0 <= k < outputs@.len() && (#[trigger] outputs@[k]).idx == i;
            assert(m.data@[outputs@[k].idx as int] == outputs@[k].val);
            assert(out_ok(*a, *b, outputs@[k]));
        }
        assert(m.data@ =~= product_spec(*a, *b));
    }
    Ok(m)
}

/// Multiplies two matrices by fanning one work item per output cell out to
/// the fixed worker pool and collecting every reply back into place.
///
/// Succeeds exactly when `a.col == b.row` and then returns the matrix whose
/// cell `(i, j)` is the dot product of row `i` of `a` and column `j` of `b`;
/// otherwise fails with `DimensionMismatch` before any work is dispatched.
pub fn multiply(a: &Matrix, b: &Matrix) -> (r: Result<Matrix, Error>)
    requires
        a.wf(),
        b.wf(),
        a.row * b.col <= usize::MAX,
    ensures
        a.col == b.row <==> r is Ok,
        r matches Ok(m) ==> m.row == a.row && m.col == b.col && m.wf() && m.data@ == product_spec(
            *a,
            *b,
        ),
        r matches Err(e) ==> e == Error::DimensionMismatch,
{
    multiply_with_workers(a, b, NUM_PROCESS)
}

/// Cell `(i, j)` of the reference product, stored at flat index
/// `i * b.col + j`, is the dot product of row `i` of `a` and column `j` of
/// `b` — the standard mathematical product, cell by cell.
pub proof fn lemma_product_cell(a: Matrix, b: Matrix, i: int, j: int)
    requires
        0 <= i < a.row,
        0 <= j < b.col,
    ensures
        product_spec(a, b)[i * (b.col as int) + j] == dot_spec(a.row_seq(i), b.col_seq(j)),
{
    let c = b.col as int;
    let idx = i * c + j;
    assert(0 <= idx < a.row * c) by (nonlinear_arith)
        requires
            idx == i * c + j,
            0 <= i < a.row,
            0 <= j < c,
    ;
    lemma_fundamental_div_mod_converse_div(idx, c, i, j);
    lemma_fundamental_div_mod_converse_mod(idx, c, i, j);
}

/// Reordering the replies does not change the assembled matrix: two complete
/// reply sequences that hold the same replies — as a multiset, so in any
/// arrival order — force equal output buffers whenever each buffer places
/// every reply at the cell the reply's own `idx` names.
pub proof fn lemma_assembly_reorder_invariant(
    outs1: Seq<MsgOutput>,
    outs2: Seq<MsgOutput>,
    total: int,
    data1: Seq<i64>,
    data2: Seq<i64>,
)
    requires
        outs1.to_multiset() == outs2.to_multiset(),
        idx_complete(outs1, total),
        data1.len() == total,
        data2.len() == total,
        forall|k: int|
            #![trigger outs1[k]]
            0 <= k < outs1.len() ==> data1[outs1[k].idx as int] == outs1[k].val,
        forall|k: int|
            #![trigger outs2[k]]
            0 <= k < outs2.len() ==> data2[outs2[k].idx as int] == outs2[k].val,
    ensures
        data1 == data2,
{
    broadcast use vstd::seq_lib::group_to_multiset_ensures;

    assert forall|i: int| 0 <= i < total implies data1[i] == data2[i] by {
        assert(covers(outs1, i));
        let k = choose|k: int| 0 <= k < outs1.len() && (#[trigger] outs1[k]).idx == i;
        assert(data1[i] == outs1[k].val);
        assert(outs1.contains(outs1[k]));
        assert(outs1.to_multiset().count(outs1[k]) > 0);
        assert(outs2.contains(outs1[k]));
        let k2 = choose|k2: int| 0 <= k2 < outs2.len() && outs2[k2] == outs1[k];
        assert(data2[i] == outs2[k2].val);
    }
    assert(data1 =~= data2);
}

/// Parallelism invariance: the contract of `multiply_with_workers` pins the
/// result by the operands alone, so two successful runs over the same inputs
/// with any two worker counts — one worker or eight — return equal matrices.
pub proof fn lemma_worker_count_invariant(a: Matrix, b: Matrix, m1: Matrix, m2: Matrix)
    requires
        m1.row == a.row && m1.col == b.col && m1.data@ == product_spec(a, b),
        m2.row == a.row && m2.col == b.col && m2.data@ == product_spec(a, b),
    ensures
        m1.row == m2.row,
        m1.col == m2.col,
        m1.data@ == m2.data@,
{
}

/// An empty dimension on either side yields a zero-cell product.
pub proof fn lemma_empty_product(a: Matrix, b: Matrix)
    requires
        a.row == 0 || b.col == 0,
    ensures
        product_spec(a, b).len() == 0,
{
}

} // verus!
