use vstd::prelude::*;
use crate::inputs::{Feat, SENTINEL};
use crate::shape::Shape;
use crate::tensor::{is_sum_chain, lemma_sums_extend, lemma_sums_nil, sums_to, TensorBatch};

verus! {

/// A batch of sparse inputs of width `input_dim`: for each of up to `cap`
/// samples, a fixed-width record of `max_num_inputs` feature pairs. A sample
/// with fewer active features ends its list with a sentinel pair.
pub struct SparseTensor {
    cap: usize,
    used: usize,
    input_dim: usize,
    max_num_inputs: usize,
    records: Vec<Feat>,
}

/// The active features of a record: those before the first sentinel.
pub open spec fn active_prefix(record: Seq<Feat>) -> Seq<Feat>
    decreases record.len(),
{
    if record.len() == 0 || record[0].our == SENTINEL {
        Seq::empty()
    } else {
        seq![record[0]] + active_prefix(record.drop_first())
    }
}

/// Entry `k` of the weight row of each feature, own side (`our`) or other side.
pub open spec fn feature_terms<T>(w: Seq<T>, feats: Seq<Feat>, n: int, k: int, ours: bool) -> Seq<T> {
    Seq::new(feats.len(), |j: int| w[(if ours { feats[j].our as int } else { feats[j].opp as int }) * n + k])
}

/// The scatter events of one sample's features, `(row, error offset)`: for
/// each feature in order, its own row with the first half of the sample's
/// error (from `base`), then its other-side row with the second half.
pub open spec fn sample_events(feats: Seq<Feat>, base: int, n: int) -> Seq<(int, int)>
    decreases feats.len(),
{
    if feats.len() == 0 {
        Seq::empty()
    } else {
        sample_events(feats.drop_last(), base, n) + seq![(feats.last().our as int, base), (feats.last().opp as int, base + n)]
    }
}

/// The scatter events of the first `i` samples, in order.
pub open spec fn events_upto(t: SparseTensor, n: int, i: int) -> Seq<(int, int)>
    decreases i,
{
    if i <= 0 {
        Seq::empty()
    } else {
        events_upto(t, n, i - 1) + sample_events(active_prefix(t.record(i - 1)), (i - 1) * 2 * n, n)
    }
}

/// The error entries that the events add to entry `k` of weight row `row`, in order.
pub open spec fn row_terms<T>(events: Seq<(int, int)>, errors: Seq<T>, row: int, k: int) -> Seq<T>
    decreases events.len(),
{
    if events.len() == 0 {
        Seq::empty()
    } else {
        let e = events.last();
        row_terms(events.drop_last(), errors, row, k) + if e.0 == row {
            seq![errors[e.1 + k]]
        } else {
            Seq::empty()
        }
    }
}

/// The error entries added to bias `k` by the first `i` samples: both
/// halves of each sample's error, in order.
pub open spec fn bias_terms<T>(errors: Seq<T>, n: int, k: int, i: int) -> Seq<T>
    decreases i,
{
    if i <= 0 {
        Seq::empty()
    } else {
        bias_terms(errors, n, k, i - 1) + seq![errors[(i - 1) * 2 * n + k], errors[(i - 1) * 2 * n + n + k]]
    }
}

/// Entry `(r, k)` of a matrix with rows of `n` entries is at a different
/// place than any other entry.
proof fn lemma_entry_distinct(r1: int, k1: int, r2: int, k2: int, n: int)
    requires
        0 <= k1 < n,
        0 <= k2 < n,
        0 <= r1,
        0 <= r2,
        r1 != r2,
    ensures
        r1 * n + k1 != r2 * n + k2,
{
    if r1 < r2 {
        assert((r1 + 1) * n <= r2 * n) by (nonlinear_arith)
            requires
                r1 + 1 <= r2,
                n >= 0,
        ;
        assert((r1 + 1) * n == r1 * n + n) by (nonlinear_arith);
    } else {
        assert((r2 + 1) * n <= r1 * n) by (nonlinear_arith)
            requires
                r2 + 1 <= r1,
                n >= 0,
        ;
        assert((r2 + 1) * n == r2 * n + n) by (nonlinear_arith);
    }
}

/// Entry `(r, k)` of a matrix of `rows` rows of `n` entries lies inside it.
proof fn lemma_entry_in_matrix(r: int, k: int, rows: int, n: int)
    requires
        0 <= r < rows,
        0 <= k < n,
    ensures
        0 <= r * n + k < rows * n,
{
    assert((r + 1) * n <= rows * n) by (nonlinear_arith)
        requires
            r + 1 <= rows,
            n >= 0,
    ;
    assert((r + 1) * n == r * n + n) by (nonlinear_arith);
    assert(r * n >= 0) by (nonlinear_arith)
        requires
            r >= 0,
            n >= 0,
    ;
}

impl SparseTensor {
    /// The scatter events of all held samples.
    fn scatter_events(&self, n: usize) -> (r: Vec<(usize, usize)>)
        requires
            self.wf(),
            self.indices_in_range(),
            self.used_spec() * 2 * n <= usize::MAX,
        ensures
            r@.len() == events_upto(*self, n as int, self.used_spec() as int).len(),
            forall|t: int|
                0 <= t < r@.len() ==> (#[trigger] r@[t]).0 == events_upto(*self, n as int, self.used_spec() as int)[t].0
                    && r@[t].1 == events_upto(*self, n as int, self.used_spec() as int)[t].1
                    && r@[t].0 < self.input_dim_spec()
                    && r@[t].1 + n <= self.used_spec() * 2 * n,
    {
        let mut out: Vec<(usize, usize)> = Vec::new();
        let mut i: usize = 0;
        let ghost view = |v: Seq<(usize, usize)>| v.map_values(|e: (usize, usize)| (e.0 as int, e.1 as int));
        while i < self.used
            invariant
                self.wf(),
                self.indices_in_range(),
                self.used_spec() * 2 * n <= usize::MAX,
                i <= self.used_spec(),
                out@.map_values(|e: (usize, usize)| (e.0 as int, e.1 as int)) == events_upto(*self, n as int, i as int),
                forall|t: int| 0 <= t < out@.len() ==> (#[trigger] out@[t]).0 < self.input_dim_spec() && out@[t].1 + n <= i * 2 * n,
            decreases self.used_spec() - i,
        {
            let feats = self.active(i);
            proof {
                assert((i + 1) * 2 * n <= self.used_spec() * 2 * n) by (nonlinear_arith)
                    requires
                        i + 1 <= self.used_spec(),
                ;
                assert((i + 1) * 2 * n == i * 2 * n + 2 * n) by (nonlinear_arith);
                assert(i * (2 * n) == i * 2 * n) by (nonlinear_arith);
            }
            let base = i * (2 * n);
            let ghost before = out@.map_values(|e: (usize, usize)| (e.0 as int, e.1 as int));
            let mut j: usize = 0;
            while j < feats.len()
                invariant
                    self.wf(),
                    self.indices_in_range(),
                    i < self.used_spec(),
                    feats@ == active_prefix(self.record(i as int)),
                    base == i * 2 * n,
                    base + 2 * n <= usize::MAX,
                    (i + 1) * 2 * n == i * 2 * n + 2 * n,
                    j <= feats@.len(),
                    before == events_upto(*self, n as int, i as int),
                    out@.map_values(|e: (usize, usize)| (e.0 as int, e.1 as int)) == before + sample_events(
                        feats@.subrange(0, j as int),
                        base as int,
                        n as int,
                    ),
                    forall|t: int| 0 <= t < out@.len() ==> (#[trigger] out@[t]).0 < self.input_dim_spec() && out@[t].1 + n <= (i + 1) * 2 * n,
                decreases feats@.len() - j,
            {
                let f = feats[j];
                proof {
                    assert(active_prefix(self.record(i as int))[j as int] == f);
                }
                let ghost prev = out@;
                out.push((f.our as usize, base));
                out.push((f.opp as usize, base + n));
                proof {
                    let sub = feats@.subrange(0, j + 1);
                    assert(sub.drop_last() =~= feats@.subrange(0, j as int));
                    assert(sub.last() == f);
                    assert(out@.map_values(|e: (usize, usize)| (e.0 as int, e.1 as int)) =~= prev.map_values(
                        |e: (usize, usize)| (e.0 as int, e.1 as int),
                    ) + seq![(f.our as int, base as int), (f.opp as int, base + n)]);
                }
                j = j + 1;
            }
            proof {
                assert(feats@.subrange(0, feats@.len() as int) =~= feats@);
            }
            i = i + 1;
        }
        proof {
            let ev = events_upto(*self, n as int, self.used_spec() as int);
            assert forall|t: int| 0 <= t < out@.len() implies (#[trigger] out@[t]).0 == ev[t].0 && out@[t].1 == ev[t].1 by {
                assert(out@.map_values(|e: (usize, usize)| (e.0 as int, e.1 as int))[t] == ev[t]);
            }
        }
        out
    }

    /// Backward pass of the sparse affine transform. For each held sample,
    /// in order, and each of its active features, in order, the first half
    /// of the sample's error is added with `plus` to the feature's own
    /// gradient row, and the second half to its other-side row; then both
    /// halves of each sample's error are added to the bias gradient. Rows of
    /// inactive features receive nothing.
    pub fn affine_backprop<T: Copy, F: Fn(T, T) -> T>(
        weights_grad: &mut Vec<T>,
        w_shape: Shape,
        inputs: &SparseTensor,
        biases_grad: &mut Vec<T>,
        b_shape: Shape,
        errors: &TensorBatch<T>,
        plus: F,
    )
        requires
            inputs.wf(),
            inputs.indices_in_range(),
            inputs.used_spec() > 0,
            w_shape == (Shape { cols: b_shape.rows, rows: inputs.input_dim_spec() as usize }),
            b_shape.cols == 1,
            old(weights_grad)@.len() == w_shape.cols * w_shape.rows,
            old(biases_grad)@.len() == b_shape.rows,
            errors.wf(),
            errors.element_size_spec() == 2 * b_shape.rows,
            inputs.used_spec() <= errors.cap_spec(),
            forall|x: T, y: T| plus.requires((x, y)),
        ensures
            final(weights_grad)@.len() == old(weights_grad)@.len(),
            final(biases_grad)@.len() == old(biases_grad)@.len(),
            forall|row: int, k: int|
                0 <= row < inputs.input_dim_spec() && 0 <= k < b_shape.rows ==> sums_to(
                    plus,
                    old(weights_grad)@[row * b_shape.rows + k],
                    row_terms(
                        events_upto(*inputs, b_shape.rows as int, inputs.used_spec() as int),
                        errors.values(),
                        row,
                        k,
                    ),
                    #[trigger] final(weights_grad)@[row * b_shape.rows + k],
                ),
            forall|k: int|
                0 <= k < b_shape.rows ==> sums_to(
                    plus,
                    old(biases_grad)@[k],
                    bias_terms(errors.values(), b_shape.rows as int, k, inputs.used_spec() as int),
                    #[trigger] final(biases_grad)@[k],
                ),
    {
        let n = b_shape.rows;
        let dim = inputs.input_dim;
        let used = inputs.used;
        let wlen = weights_grad.len();
        let elen = errors.num_elements();
        proof {
            assert(used * (2 * n) <= errors.cap_spec() * (2 * n)) by (nonlinear_arith)
                requires
                    used <= errors.cap_spec(),
            ;
            assert(used * 2 * n == used * (2 * n)) by (nonlinear_arith);
        }
        let ghost evs = events_upto(*inputs, n as int, used as int);
        let ghost err = errors.values();
        let ev = inputs.scatter_events(n);
        proof {
            assert forall|row: int, k: int| 0 <= row < dim && 0 <= k < n implies sums_to(
                plus,
                old(weights_grad)@[row * n + k],
                row_terms(evs.subrange(0, 0), err, row, k),
                #[trigger] weights_grad@[row * n + k],
            ) by {
                assert(evs.subrange(0, 0) =~= Seq::<(int, int)>::empty());
                lemma_sums_nil(plus, old(weights_grad)@[row * n + k]);
            }
        }
        let mut t: usize = 0;
        while t < ev.len()
            invariant
                n == b_shape.rows,
                dim == inputs.input_dim_spec(),
                used == inputs.used_spec(),
                wlen == weights_grad@.len() == old(weights_grad)@.len(),
                wlen == n * dim,
                elen == err.len(),
                err == errors.values(),
                used * 2 * n <= elen,
                evs == events_upto(*inputs, n as int, used as int),
                ev@.len() == evs.len(),
                forall|u: int|
                    0 <= u < ev@.len() ==> (#[trigger] ev@[u]).0 == evs[u].0 && ev@[u].1 == evs[u].1
                        && ev@[u].0 < dim && ev@[u].1 + n <= used * 2 * n,
                forall|x: T, y: T| plus.requires((x, y)),
                t <= ev@.len(),
                forall|row: int, k: int|
                    0 <= row < dim && 0 <= k < n ==> sums_to(
                        plus,
                        old(weights_grad)@[row * n + k],
                        row_terms(evs.subrange(0, t as int), err, row, k),
                        #[trigger] weights_grad@[row * n + k],
                    ),
            decreases ev@.len() - t,
        {
            let (row, base) = ev[t];
            let ghost pre = evs.subrange(0, t as int);
            let ghost post = evs.subrange(0, t + 1);
            proof {
                assert(post.drop_last() =~= pre);
                assert(post.last() == evs[t as int]);
                assert(row * n + n <= dim * n) by (nonlinear_arith)
                    requires
                        row < dim,
                ;
                assert(n * dim == dim * n) by (nonlinear_arith);
            }
            let mut k: usize = 0;
            while k < n
                invariant
                    n == b_shape.rows,
                    wlen == weights_grad@.len() == old(weights_grad)@.len(),
                    wlen == n * dim,
                    row < dim,
                    row * n + n <= wlen,
                    base + n <= used * 2 * n,
                    used * 2 * n <= elen,
                    elen == err.len(),
                    err == errors.values(),
                    post.len() > 0,
                    post.drop_last() == pre,
                    post.last() == (row as int, base as int),
                    forall|x: T, y: T| plus.requires((x, y)),
                    k <= n,
                    forall|r: int, k2: int|
                        0 <= r < dim && 0 <= k2 < n ==> sums_to(
                            plus,
                            old(weights_grad)@[r * n + k2],
                            row_terms(if r == row && k2 < k { post } else { pre }, err, r, k2),
                            #[trigger] weights_grad@[r * n + k2],
                        ),
                decreases n - k,
            {
                let idx = row * n + k;
                let cur = weights_grad[idx];
                let e = errors.get(base + k);
                let next = plus(cur, e);
                proof {
                    assert(row_terms(post, err, row as int, k as int) =~= row_terms(pre, err, row as int, k as int).push(err[base + k]));
                    lemma_sums_extend(
                        plus,
                        old(weights_grad)@[idx as int],
                        row_terms(pre, err, row as int, k as int),
                        cur,
                        e,
                        next,
                    );
                }
                let ghost before = weights_grad@;
                weights_grad.set(idx, next);
                proof {
                    assert forall|r: int, k2: int| 0 <= r < dim && 0 <= k2 < n implies sums_to(
                        plus,
                        old(weights_grad)@[r * n + k2],
                        row_terms(if r == row && k2 < k + 1 { post } else { pre }, err, r, k2),
                        #[trigger] weights_grad@[r * n + k2],
                    ) by {
                        lemma_entry_in_matrix(r, k2, dim as int, n as int);
                        assert(dim * n == wlen) by (nonlinear_arith)
                            requires
                                wlen == n * dim,
                        ;
                        if r != row {
                            lemma_entry_distinct(r, k2, row as int, k as int, n as int);
                            assert(r * n + k2 != idx as int);
                            assert(weights_grad@ == before.update(idx as int, next));
                            assert(weights_grad@[r * n + k2] == before[r * n + k2]);
                        } else if k2 != k {
                            assert(weights_grad@[r * n + k2] == before[r * n + k2]);
                        }
                    }
                }
                k = k + 1;
            }
            proof {
                assert forall|r: int, k2: int| 0 <= r < dim && 0 <= k2 < n implies sums_to(
                    plus,
                    old(weights_grad)@[r * n + k2],
                    row_terms(evs.subrange(0, t + 1), err, r, k2),
                    #[trigger] weights_grad@[r * n + k2],
                ) by {
                    if r != row {
                        assert(row_terms(post, err, r, k2) =~= row_terms(pre, err, r, k2));
                    }
                }
            }
            t = t + 1;
        }
        proof {
            assert(evs.subrange(0, ev@.len() as int) =~= evs);
            assert forall|k: int| 0 <= k < n implies sums_to(
                plus,
                old(biases_grad)@[k],
                bias_terms(err, n as int, k, 0),
                #[trigger] biases_grad@[k],
            ) by {
                lemma_sums_nil(plus, old(biases_grad)@[k]);
            }
        }
        let mut i: usize = 0;
        while i < used
            invariant
                n == b_shape.rows,
                used == inputs.used_spec(),
                biases_grad@.len() == old(biases_grad)@.len() == n,
                elen == err.len(),
                err == errors.values(),
                used * 2 * n <= elen,
                used * 2 * n == used * (2 * n),
                forall|x: T, y: T| plus.requires((x, y)),
                i <= used,
                forall|k: int|
                    0 <= k < n ==> sums_to(
                        plus,
                        old(biases_grad)@[k],
                        bias_terms(err, n as int, k, i as int),
                        #[trigger] biases_grad@[k],
                    ),
            decreases used - i,
        {
            proof {
                assert((i + 1) * (2 * n) <= used * (2 * n)) by (nonlinear_arith)
                    requires
                        i + 1 <= used,
                ;
                assert((i + 1) * (2 * n) == i * (2 * n) + 2 * n) by (nonlinear_arith);
                assert(i * (2 * n) == i * 2 * n) by (nonlinear_arith);
            }
            let base = i * (2 * n);
            let mut k: usize = 0;
            while k < n
                invariant
                    n == b_shape.rows,
                    biases_grad@.len() == n,
                    elen == err.len(),
                    err == errors.values(),
                    base == i * 2 * n,
                    base + 2 * n <= elen,
                    forall|x: T, y: T| plus.requires((x, y)),
                    k <= n,
                    forall|k2: int|
                        0 <= k2 < n ==> sums_to(
                            plus,
                            old(biases_grad)@[k2],
                            bias_terms(err, n as int, k2, if k2 < k { i + 1 } else { i as int }),
                            #[trigger] biases_grad@[k2],
                        ),
                decreases n - k,
            {
                let cur = biases_grad[k];
                let e1 = errors.get(base + k);
                let mid = plus(cur, e1);
                let e2 = errors.get(base + n + k);
                let next = plus(mid, e2);
                proof {
                    let before = bias_terms(err, n as int, k as int, i as int);
                    assert(bias_terms(err, n as int, k as int, i + 1) =~= before.push(e1).push(e2));
                    lemma_sums_extend(plus, old(biases_grad)@[k as int], before, cur, e1, mid);
                    lemma_sums_extend(plus, old(biases_grad)@[k as int], before.push(e1), mid, e2, next);
                }
                let ghost prior = biases_grad@;
                biases_grad.set(k, next);
                proof {
                    assert forall|k2: int| 0 <= k2 < n implies sums_to(
                        plus,
                        old(biases_grad)@[k2],
                        bias_terms(err, n as int, k2, if k2 < k + 1 { i + 1 } else { i as int }),
                        #[trigger] biases_grad@[k2],
                    ) by {
                        if k2 != k {
                            assert(biases_grad@[k2] == prior[k2]);
                        }
                    }
                }
                k = k + 1;
            }
            i = i + 1;
        }
    }

    /// Every active feature of every held sample is below the input width.
    pub open spec fn indices_in_range(&self) -> bool {
        forall|i: int, j: int|
            0 <= i < self.used_spec() && 0 <= j < active_prefix(self.record(i)).len() ==> (#[trigger] active_prefix(self.record(i))[j]).our
                < self.input_dim_spec() && active_prefix(self.record(i))[j].opp < self.input_dim_spec()
    }

    /// Sparse affine transform: for each held sample `i`, the first half of
    /// its output is the biases plus the weight rows of its own features,
    /// the second half the biases plus the rows of its other-side features,
    /// added up with `plus` in feature order. `weights` has shape
    /// `(n, input_dim)`: row `f` is `weights[f*n .. (f+1)*n]`.
    pub fn affine<T: Copy, F: Fn(T, T) -> T>(
        weights: &Vec<T>,
        w_shape: Shape,
        inputs: &SparseTensor,
        biases: &Vec<T>,
        b_shape: Shape,
        outputs: &mut TensorBatch<T>,
        plus: F,
    )
        requires
            inputs.wf(),
            inputs.indices_in_range(),
            inputs.used_spec() > 0,
            w_shape == (Shape { cols: b_shape.rows, rows: inputs.input_dim_spec() as usize }),
            b_shape.cols == 1,
            weights@.len() == w_shape.cols * w_shape.rows,
            biases@.len() == b_shape.rows,
            old(outputs).wf(),
            old(outputs).element_size_spec() == 2 * b_shape.rows,
            inputs.used_spec() <= old(outputs).cap_spec(),
            forall|x: T, y: T| plus.requires((x, y)),
        ensures
            final(outputs).wf(),
            final(outputs).shape_spec() == old(outputs).shape_spec(),
            final(outputs).cap_spec() == old(outputs).cap_spec(),
            final(outputs).values().len() == old(outputs).values().len(),
            forall|i: int, k: int|
                0 <= i < inputs.used_spec() && 0 <= k < b_shape.rows ==> sums_to(
                    plus,
                    biases@[k],
                    feature_terms(weights@, active_prefix(inputs.record(i)), b_shape.rows as int, k, true),
                    #[trigger] final(outputs).values()[i * 2 * b_shape.rows + k],
                ),
            forall|i: int, k: int|
                0 <= i < inputs.used_spec() && 0 <= k < b_shape.rows ==> sums_to(
                    plus,
                    biases@[k],
                    feature_terms(weights@, active_prefix(inputs.record(i)), b_shape.rows as int, k, false),
                    #[trigger] final(outputs).values()[i * 2 * b_shape.rows + b_shape.rows + k],
                ),
            forall|q: int|
                inputs.used_spec() * 2 * b_shape.rows <= q < old(outputs).values().len() ==> #[trigger] final(outputs).values()[q]
                    == old(outputs).values()[q],
    {
        let n = b_shape.rows;
        let used = inputs.used;
        let w2 = outputs.element_size();
        let total_len = outputs.num_elements();
        let wlen = weights.len();
        proof {
            assert(used * w2 <= outputs.cap_spec() * w2) by (nonlinear_arith)
                requires
                    used <= outputs.cap_spec(),
            ;
        }
        let total = used * w2;
        let mut q: usize = 0;
        while q < total
            invariant
                n == b_shape.rows,
                w2 == 2 * n,
                used == inputs.used_spec(),
                total == used * w2,
                total <= total_len,
                total_len == outputs.values().len() == old(outputs).values().len(),
                wlen == weights@.len(),
                weights@.len() == w_shape.cols * w_shape.rows,
                w_shape == (Shape { cols: b_shape.rows, rows: inputs.input_dim_spec() as usize }),
                biases@.len() == n,
                inputs.wf(),
                inputs.indices_in_range(),
                outputs.wf(),
                outputs.shape_spec() == old(outputs).shape_spec(),
                outputs.cap_spec() == old(outputs).cap_spec(),
                forall|x: T, y: T| plus.requires((x, y)),
                q <= total,
                forall|j: int|
                    0 <= j < q ==> {
                        let i = j / (w2 as int);
                        let h = j % (w2 as int);
                        let feats = active_prefix(inputs.record(i));
                        sums_to(
                            plus,
                            biases@[if h < n { h } else { h - n }],
                            feature_terms(weights@, feats, n as int, if h < n { h } else { h - n }, h < n),
                            #[trigger] outputs.values()[j],
                        )
                    },
                forall|j: int| q <= j < total_len ==> #[trigger] outputs.values()[j] == old(outputs).values()[j],
            decreases total - q,
        {
            let i = q / w2;
            let h = q % w2;
            proof {
                vstd::arithmetic::div_mod::lemma_fundamental_div_mod(q as int, w2 as int);
                assert(i < used) by (nonlinear_arith)
                    requires
                        q == w2 * i + h,
                        q < used * w2,
                        h >= 0,
                ;
            }
            let ours = h < n;
            let k = if ours { h } else { h - n };
            let feats = inputs.active(i);
            let ghost terms = feature_terms(weights@, feats@, n as int, k as int, ours);
            let mut acc = biases[k];
            let ghost mut chain: Seq<T> = seq![acc];
            let mut j: usize = 0;
            while j < feats.len()
                invariant
                    n == b_shape.rows,
                    k < n,
                    wlen == weights@.len(),
                    weights@.len() == n * inputs.input_dim_spec(),
                    feats@ == active_prefix(inputs.record(i as int)),
                    i < inputs.used_spec(),
                    inputs.indices_in_range(),
                    terms == feature_terms(weights@, feats@, n as int, k as int, ours),
                    forall|x: T, y: T| plus.requires((x, y)),
                    j <= feats@.len(),
                    chain.len() == j + 1,
                    chain[0] == biases@[k as int],
                    chain[j as int] == acc,
                    forall|t: int| 0 <= t < j ==> plus.ensures((chain[t], terms[t]), #[trigger] chain[t + 1]),
                decreases feats@.len() - j,
            {
                let f = feats[j];
                let row = if ours { f.our as usize } else { f.opp as usize };
                proof {
                    assert(active_prefix(inputs.record(i as int))[j as int] == f);
                    assert(row < inputs.input_dim_spec());
                    assert(row * n + k < n * inputs.input_dim_spec()) by (nonlinear_arith)
                        requires
                            row < inputs.input_dim_spec(),
                            k < n,
                    ;
                }
                let next = plus(acc, weights[row * n + k]);
                proof {
                    chain = chain.push(next);
                }
                acc = next;
                j = j + 1;
            }
            proof {
                assert(is_sum_chain(plus, biases@[k as int], terms, chain));
            }
            outputs.set(q, acc);
            q = q + 1;
        }
        proof {
            assert forall|i: int, k: int| 0 <= i < used && 0 <= k < n implies sums_to(
                plus,
                biases@[k],
                feature_terms(weights@, active_prefix(inputs.record(i)), n as int, k, true),
                #[trigger] outputs.values()[i * 2 * n + k],
            ) by {
                let j1 = i * 2 * n + k;
                let j2 = i * 2 * n + n + k;
                assert(i * 2 * n == i * w2) by (nonlinear_arith)
                    requires
                        w2 == 2 * n,
                ;
                vstd::arithmetic::div_mod::lemma_fundamental_div_mod_converse(j1, w2 as int, i, k);
                vstd::arithmetic::div_mod::lemma_fundamental_div_mod_converse(j2, w2 as int, i, n + k);
                assert(j2 < total) by (nonlinear_arith)
                    requires
                        j2 == i * w2 + n + k,
                        k < n,
                        w2 == 2 * n,
                        i + 1 <= used,
                        total == used * w2,
                ;
            }
            assert forall|i: int, k: int| 0 <= i < used && 0 <= k < n implies sums_to(
                plus,
                biases@[k],
                feature_terms(weights@, active_prefix(inputs.record(i)), n as int, k, false),
                #[trigger] outputs.values()[i * 2 * n + n + k],
            ) by {
                let j1 = i * 2 * n + k;
                let j2 = i * 2 * n + n + k;
                assert(i * 2 * n == i * w2) by (nonlinear_arith)
                    requires
                        w2 == 2 * n,
                ;
                vstd::arithmetic::div_mod::lemma_fundamental_div_mod_converse(j1, w2 as int, i, k);
                vstd::arithmetic::div_mod::lemma_fundamental_div_mod_converse(j2, w2 as int, i, n + k);
                assert(j2 < total) by (nonlinear_arith)
                    requires
                        j2 == i * w2 + n + k,
                        k < n,
                        w2 == 2 * n,
                        i + 1 <= used,
                        total == used * w2,
                ;
            }
            assert(used * 2 * n == total) by (nonlinear_arith)
                requires
                    w2 == 2 * n,
                    total == used * w2,
            ;
        }
    }

    pub closed spec fn cap_spec(&self) -> nat {
        self.cap as nat
    }

    pub closed spec fn used_spec(&self) -> nat {
        self.used as nat
    }

    pub closed spec fn input_dim_spec(&self) -> nat {
        self.input_dim as nat
    }

    pub closed spec fn width(&self) -> nat {
        self.max_num_inputs as nat
    }

    /// All record slots, `cap * width` pairs.
    pub closed spec fn records(&self) -> Seq<Feat> {
        self.records@
    }

    pub closed spec fn wf(&self) -> bool {
        &&& self.used <= self.cap
        &&& self.max_num_inputs > 0
        &&& self.records@.len() == self.cap * self.max_num_inputs
        &&& self.cap * self.max_num_inputs <= usize::MAX
        &&& self.input_dim < 65535
    }

    /// The record of sample `i`.
    pub open spec fn record(&self, i: int) -> Seq<Feat> {
        self.records().subrange(i * self.width(), (i + 1) * self.width())
    }

    /// An empty batch for `cap` samples; every slot holds the sentinel.
    pub fn new(cap: usize, input_dim: usize, max_num_inputs: usize) -> (r: SparseTensor)
        requires
            input_dim < 65535,
            max_num_inputs > 0,
            cap * max_num_inputs <= usize::MAX,
        ensures
            r.wf(),
            r.cap_spec() == cap,
            r.used_spec() == 0,
            r.input_dim_spec() == input_dim,
            r.width() == max_num_inputs,
            r.records() == Seq::new((cap * max_num_inputs) as nat, |i: int| Feat { our: SENTINEL, opp: SENTINEL }),
    {
        let n = cap * max_num_inputs;
        let mut records: Vec<Feat> = Vec::new();
        let mut i: usize = 0;
        while i < n
            invariant
                i <= n,
                records@ == Seq::new(i as nat, |j: int| Feat { our: SENTINEL, opp: SENTINEL }),
            decreases n - i,
        {
            records.push(Feat { our: SENTINEL, opp: SENTINEL });
            i = i + 1;
            assert(records@ =~= Seq::new(i as nat, |j: int| Feat { our: SENTINEL, opp: SENTINEL }));
        }
        SparseTensor { cap, used: 0, input_dim, max_num_inputs, records }
    }

    /// Forgets all samples; the next `append` starts at the first slot.
    pub fn clear(&mut self)
        requires
            old(self).wf(),
        ensures
            final(self).wf(),
            final(self).used_spec() == 0,
            final(self).cap_spec() == old(self).cap_spec(),
            final(self).width() == old(self).width(),
            final(self).input_dim_spec() == old(self).input_dim_spec(),
            final(self).records() == old(self).records(),
    {
        self.used = 0;
    }

    /// Number of samples held.
    pub fn used(&self) -> (r: usize)
        ensures
            r == self.used_spec(),
    {
        self.used
    }

    pub fn cap(&self) -> (r: usize)
        ensures
            r == self.cap_spec(),
    {
        self.cap
    }

    pub fn input_dim(&self) -> (r: usize)
        ensures
            r == self.input_dim_spec(),
    {
        self.input_dim
    }

    pub fn max_num_inputs(&self) -> (r: usize)
        ensures
            r == self.width(),
    {
        self.max_num_inputs
    }

    /// Copies the flat records of `inputs.len() / width` further samples in
    /// after those already held.
    pub fn append(&mut self, inputs: &[Feat])
        requires
            old(self).wf(),
            old(self).used_spec() * old(self).width() + inputs@.len() <= old(self).cap_spec()
                * old(self).width(),
        ensures
            final(self).wf(),
            final(self).used_spec() == old(self).used_spec() + inputs@.len() / old(self).width(),
            final(self).cap_spec() == old(self).cap_spec(),
            final(self).width() == old(self).width(),
            final(self).input_dim_spec() == old(self).input_dim_spec(),
            final(self).records() == old(self).records().subrange(0, (old(self).used_spec() * old(self).width()) as int)
                + inputs@ + old(self).records().subrange(
                (old(self).used_spec() * old(self).width()) as int + inputs@.len(),
                old(self).records().len() as int,
            ),
    {
        let w = self.max_num_inputs;
        let ghost before = self.records@;
        proof {
            assert(self.used * w <= self.cap * w) by (nonlinear_arith)
                requires
                    self.used <= self.cap,
            ;
        }
        let base = self.used * w;
        let mut j: usize = 0;
        while j < inputs.len()
            invariant
                self.max_num_inputs == w,
                self.used == old(self).used,
                self.cap == old(self).cap,
                self.input_dim == old(self).input_dim,
                base == self.used * w,
                before.len() == self.cap * w,
                self.cap * w <= usize::MAX,
                w > 0,
                base + inputs@.len() <= before.len(),
                self.records@.len() == before.len(),
                j <= inputs@.len(),
                forall|k: int| 0 <= k < base ==> self.records@[k] == before[k],
                forall|k: int| 0 <= k < j ==> self.records@[base + k] == inputs@[k],
                forall|k: int| base + j <= k < before.len() ==> self.records@[k] == before[k],
            decreases inputs@.len() - j,
        {
            self.records.set(base + j, inputs[j]);
            j = j + 1;
        }
        proof {
            let after = before.subrange(0, base as int) + inputs@ + before.subrange(
                base + inputs@.len(),
                before.len() as int,
            );
            assert(self.records@ =~= after);
            let added = inputs@.len() / (w as nat);
            vstd::arithmetic::div_mod::lemma_fundamental_div_mod(inputs@.len() as int, w as int);
            assert(added * w <= inputs@.len()) by {
                vstd::arithmetic::div_mod::lemma_mod_pos_bound(inputs@.len() as int, w as int);
            }
            assert((self.used + added) * w == self.used * w + added * w) by (nonlinear_arith);
            assert((self.used + added) * w <= self.cap * w);
            if self.used + added > self.cap {
                assert((self.used + added) * w > self.cap * w) by (nonlinear_arith)
                    requires
                        self.used + added > self.cap,
                        w > 0,
                ;
            }
        }
        self.used = self.used + inputs.len() / w;
    }

    /// The active features of sample `i`.
    pub fn active(&self, i: usize) -> (r: Vec<Feat>)
        requires
            self.wf(),
            i < self.used_spec(),
        ensures
            r@ == active_prefix(self.record(i as int)),
    {
        let w = self.max_num_inputs;
        proof {
            assert((i + 1) * w <= self.cap * w) by (nonlinear_arith)
                requires
                    i + 1 <= self.cap,
            ;
            assert((i + 1) * w == i * w + w) by (nonlinear_arith);
        }
        let start = i * w;
        let ghost rec = self.record(i as int);
        assert(rec.subrange(0, w as int) =~= rec);
        assert(active_prefix(rec) =~= Seq::<Feat>::empty() + active_prefix(rec));
        let mut out: Vec<Feat> = Vec::new();
        let mut j: usize = 0;
        while j < w
            invariant
                self.wf(),
                rec == self.record(i as int),
                w == self.width(),
                start == i * w,
                start + w <= self.records@.len(),
                self.records@.len() <= usize::MAX,
                rec == self.records@.subrange(start as int, start + w),
                j <= w,
                active_prefix(rec) == out@ + active_prefix(rec.subrange(j as int, w as int)),
            decreases w - j,
        {
            let f = self.records[start + j];
            let ghost tail = rec.subrange(j as int, w as int);
            assert(tail[0] == f);
            assert(tail.drop_first() =~= rec.subrange(j + 1, w as int));
            if f.our == SENTINEL {
                assert(active_prefix(tail) =~= Seq::<Feat>::empty());
                assert(out@ + Seq::<Feat>::empty() =~= out@);
                return out;
            }
            out.push(f);
            assert(out@ + active_prefix(tail.drop_first()) =~= out@.drop_last() + (seq![f] + active_prefix(tail.drop_first())));
            j = j + 1;
        }
        assert(rec.subrange(w as int, w as int) =~= Seq::<Feat>::empty());
        assert(out@ + Seq::<Feat>::empty() =~= out@);
        out
    }

    /// The output width of the sparse affine transform, `Some` when the
    /// tensors fit together: `weights` has shape `(output_dim, input_dim)`,
    /// `biases` shape `(1, output_dim)`, and each output holds two halves of
    /// `output_dim` entries; and at least one sample is held.
    pub fn affine_output_dim(&self, weights: Shape, biases: Shape, output_size: usize) -> (r: Option<usize>)
        ensures
            r is Some <==> (self.used_spec() > 0 && weights == Shape {
                cols: (output_size / 2) as usize,
                rows: self.input_dim_spec() as usize,
            } && biases == Shape { cols: 1, rows: (output_size / 2) as usize }),
            r is Some ==> r->0 == output_size / 2,
    {
        let output_dim = output_size / 2;
        if self.used > 0 && weights == Shape::new(output_dim, self.input_dim) && biases
            == Shape::new(1, output_dim) {
            Some(output_dim)
        } else {
            None
        }
    }
}

} // verus!
