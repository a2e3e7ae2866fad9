use vstd::prelude::*;
use crate::shape::Shape;

verus! {

/// `chain` records a left fold of `mac` over the pairs `(lhs[c], rhs[c])`
/// from `init`: each entry is what `mac` gives for the pair and the entry before.
pub open spec fn is_chain<T, F: Fn(T, T, T) -> T>(mac: F, init: T, lhs: Seq<T>, rhs: Seq<T>, chain: Seq<T>) -> bool {
    &&& chain.len() == lhs.len() + 1
    &&& chain[0] == init
    &&& forall|c: int| 0 <= c < lhs.len() ==> mac.ensures((lhs[c], rhs[c], chain[c]), #[trigger] chain[c + 1])
}

/// `out` is a result of folding `mac` (a multiply-accumulate) over the pairs
/// `(lhs[c], rhs[c])` from `init`: the dot product of `lhs` and `rhs` when
/// `mac(a, x, acc)` is `acc + a * x` and `init` is zero.
pub open spec fn folds_to<T, F: Fn(T, T, T) -> T>(mac: F, init: T, lhs: Seq<T>, rhs: Seq<T>, out: T) -> bool {
    exists|chain: Seq<T>| #[trigger] is_chain(mac, init, lhs, rhs, chain) && chain[lhs.len() as int] == out
}

/// `chain` records a left fold of `plus` over `terms` from `init`.
pub open spec fn is_sum_chain<T, F: Fn(T, T) -> T>(plus: F, init: T, terms: Seq<T>, chain: Seq<T>) -> bool {
    &&& chain.len() == terms.len() + 1
    &&& chain[0] == init
    &&& forall|j: int| 0 <= j < terms.len() ==> plus.ensures((chain[j], terms[j]), #[trigger] chain[j + 1])
}

/// `out` is a result of adding up `terms` one after another onto `init` with `plus`.
pub open spec fn sums_to<T, F: Fn(T, T) -> T>(plus: F, init: T, terms: Seq<T>, out: T) -> bool {
    exists|chain: Seq<T>| #[trigger] is_sum_chain(plus, init, terms, chain) && chain[terms.len() as int] == out
}

/// One more term keeps a sum a sum.
pub proof fn lemma_sums_extend<T, F: Fn(T, T) -> T>(plus: F, init: T, terms: Seq<T>, cur: T, t: T, next: T)
    requires
        sums_to(plus, init, terms, cur),
        plus.ensures((cur, t), next),
    ensures
        sums_to(plus, init, terms.push(t), next),
{
    let chain = choose|chain: Seq<T>| #[trigger] is_sum_chain(plus, init, terms, chain) && chain[terms.len() as int] == cur;
    let c2 = chain.push(next);
    assert forall|j: int| 0 <= j < terms.push(t).len() implies plus.ensures((c2[j], terms.push(t)[j]), #[trigger] c2[j + 1]) by {
        if j < terms.len() {
            assert(c2[j] == chain[j]);
            assert(c2[j + 1] == chain[j + 1]);
        }
    }
    assert(is_sum_chain(plus, init, terms.push(t), c2));
}

/// Nothing added leaves the start.
pub proof fn lemma_sums_nil<T, F: Fn(T, T) -> T>(plus: F, init: T)
    ensures
        sums_to(plus, init, Seq::<T>::empty(), init),
{
    let c = seq![init];
    assert(is_sum_chain(plus, init, Seq::<T>::empty(), c));
}

/// Row `r` of an `m`-column matrix stored row after row from `a[base]` on.
pub open spec fn row_of<T>(a: Seq<T>, base: int, m: int, r: int) -> Seq<T> {
    a.subrange(base + r * m, base + r * m + m)
}

/// Column `c` of an `m`-column, `n`-row matrix stored row after row from
/// `a[base]` on.
pub open spec fn column_of<T>(a: Seq<T>, base: int, m: int, n: int, c: int) -> Seq<T> {
    Seq::new(n as nat, |r: int| a[base + r * m + c])
}

/// Whether `batch_size` matrices of `m * n` entries, `stride` apart, fit in `len` entries.
pub open spec fn matrices_fit(batch_size: int, stride: int, m: int, n: int, len: int) -> bool {
    batch_size > 0 ==> (batch_size - 1) * stride + m * n <= len
}

/// A batch of up to `cap` tensors of one shape, stored back to back in one
/// buffer; element `i` of the batch occupies entries
/// `i * shape.size .. (i + 1) * shape.size`.
pub struct TensorBatch<T> {
    shape: Shape,
    cap: usize,
    buf: Vec<T>,
}

impl<T: Copy> TensorBatch<T> {
    pub closed spec fn shape_spec(&self) -> Shape {
        self.shape
    }

    pub closed spec fn cap_spec(&self) -> nat {
        self.cap as nat
    }

    /// All entries of the buffer.
    pub closed spec fn values(&self) -> Seq<T> {
        self.buf@
    }

    pub open spec fn element_size_spec(&self) -> nat {
        self.shape_spec().size_spec()
    }

    pub closed spec fn wf(&self) -> bool {
        &&& self.cap > 0
        &&& self.shape.fits()
        &&& self.cap * self.shape.size_spec() <= usize::MAX
        &&& self.buf@.len() == self.cap * self.shape.size_spec()
    }

    /// A batch of `cap` tensors of `shape`, every entry `zero`.
    pub fn new(shape: Shape, cap: usize, zero: T) -> (r: Self)
        requires
            cap > 0,
            shape.fits(),
            cap * shape.size_spec() <= usize::MAX,
        ensures
            r.wf(),
            r.shape_spec() == shape,
            r.cap_spec() == cap,
            r.values() == Seq::new((cap * shape.size_spec()) as nat, |i: int| zero),
    {
        let n = cap * shape.size();
        let buf = crate::device::malloc(n, zero);
        TensorBatch { shape, cap, buf }
    }

    pub fn shape(&self) -> (r: Shape)
        ensures
            r == self.shape_spec(),
    {
        self.shape
    }

    pub fn cap(&self) -> (r: usize)
        ensures
            r == self.cap_spec(),
    {
        self.cap
    }

    /// A batch always has room for at least one tensor.
    pub fn is_empty(&self) -> (r: bool)
        ensures
            !r,
    {
        false
    }

    /// Entries of one tensor of the batch.
    pub fn element_size(&self) -> (r: usize)
        requires
            self.wf(),
        ensures
            r == self.element_size_spec(),
    {
        self.shape.size()
    }

    /// Entries of the whole buffer.
    pub fn num_elements(&self) -> (r: usize)
        requires
            self.wf(),
        ensures
            r == self.values().len(),
            r == self.cap_spec() * self.element_size_spec(),
    {
        self.buf.len()
    }

    pub fn get(&self, k: usize) -> (r: T)
        requires
            k < self.values().len(),
        ensures
            r == self.values()[k as int],
    {
        self.buf[k]
    }

    pub fn set(&mut self, k: usize, v: T)
        requires
            k < old(self).values().len(),
        ensures
            final(self).values() == old(self).values().update(k as int, v),
            final(self).shape_spec() == old(self).shape_spec(),
            final(self).cap_spec() == old(self).cap_spec(),
            old(self).wf() ==> final(self).wf(),
    {
        self.buf.set(k, v);
    }

    /// Copies `buf` over the first entries of the batch.
    pub fn load_from_cpu(&mut self, buf: &[T])
        requires
            old(self).wf(),
            buf@.len() <= old(self).values().len(),
        ensures
            final(self).wf(),
            final(self).shape_spec() == old(self).shape_spec(),
            final(self).cap_spec() == old(self).cap_spec(),
            final(self).values() == buf@ + old(self).values().subrange(
                buf@.len() as int,
                old(self).values().len() as int,
            ),
    {
        let n = buf.len();
        crate::device::copy_to_device(&mut self.buf, 0, buf, n);
        assert(buf@.subrange(0, n as int) =~= buf@);
        assert(old(self).values().subrange(0, 0) + buf@ =~= buf@);
    }

    /// Copies the first `buf.len()` entries of the batch into `buf`.
    pub fn write_to_cpu(&self, buf: &mut [T])
        requires
            self.wf(),
            old(buf)@.len() <= self.values().len(),
        ensures
            final(buf)@ == self.values().subrange(0, old(buf)@.len() as int),
    {
        let n = buf.len();
        crate::device::copy_from_device(buf, &self.buf, 0, n);
        assert(old(buf)@.subrange(n as int, n as int) =~= Seq::<T>::empty());
        assert(self.buf@.subrange(0, n as int) + Seq::<T>::empty() =~= self.buf@.subrange(0, n as int));
    }

    /// `out[k] = f(inp[k])` for the entries of the first `batch_size` tensors;
    /// the rest of `out` is kept. Activations are applied this way.
    pub fn map<F: Fn(T) -> T>(batch_size: usize, f: F, inp: &Self, out: &mut Self)
        requires
            inp.wf(),
            old(out).wf(),
            inp.shape_spec() == old(out).shape_spec(),
            inp.cap_spec() == old(out).cap_spec(),
            batch_size <= inp.cap_spec(),
            forall|x: T| f.requires((x,)),
        ensures
            final(out).wf(),
            final(out).shape_spec() == old(out).shape_spec(),
            final(out).cap_spec() == old(out).cap_spec(),
            final(out).values().len() == old(out).values().len(),
            forall|k: int|
                0 <= k < batch_size * inp.element_size_spec() ==> f.ensures(
                    (inp.values()[k],),
                    #[trigger] final(out).values()[k],
                ),
            forall|k: int|
                batch_size * inp.element_size_spec() <= k < old(out).values().len() ==> #[trigger] final(out).values()[k]
                    == old(out).values()[k],
    {
        let e = inp.shape.size();
        proof {
            assert(batch_size * e <= inp.cap * e) by (nonlinear_arith)
                requires
                    batch_size <= inp.cap,
            ;
        }
        let n = batch_size * e;
        let mut k: usize = 0;
        while k < n
            invariant
                n == batch_size * inp.element_size_spec(),
                n <= inp.buf@.len() == out.buf@.len() == old(out).buf@.len(),
                out.shape == old(out).shape,
                out.cap == old(out).cap,
                forall|x: T| f.requires((x,)),
                k <= n,
                forall|j: int| 0 <= j < k ==> f.ensures((inp.buf@[j],), #[trigger] out.buf@[j]),
                forall|j: int| k <= j < out.buf@.len() ==> #[trigger] out.buf@[j] == old(out).buf@[j],
            decreases n - k,
        {
            let v = f(inp.buf[k]);
            out.buf.set(k, v);
            k = k + 1;
        }
    }

    /// `out[k] = f(inp[k], out[k])` for the entries of the first `batch_size`
    /// tensors; the rest of `out` is kept. Activation gradients are applied this way.
    pub fn zip_map<F: Fn(T, T) -> T>(batch_size: usize, f: F, inp: &Self, out: &mut Self)
        requires
            inp.wf(),
            old(out).wf(),
            inp.shape_spec() == old(out).shape_spec(),
            inp.cap_spec() == old(out).cap_spec(),
            batch_size <= inp.cap_spec(),
            forall|x: T, y: T| f.requires((x, y)),
        ensures
            final(out).wf(),
            final(out).shape_spec() == old(out).shape_spec(),
            final(out).cap_spec() == old(out).cap_spec(),
            final(out).values().len() == old(out).values().len(),
            forall|k: int|
                0 <= k < batch_size * inp.element_size_spec() ==> f.ensures(
                    (inp.values()[k], old(out).values()[k]),
                    #[trigger] final(out).values()[k],
                ),
            forall|k: int|
                batch_size * inp.element_size_spec() <= k < old(out).values().len() ==> #[trigger] final(out).values()[k]
                    == old(out).values()[k],
    {
        let e = inp.shape.size();
        proof {
            assert(batch_size * e <= inp.cap * e) by (nonlinear_arith)
                requires
                    batch_size <= inp.cap,
            ;
        }
        let n = batch_size * e;
        let mut k: usize = 0;
        while k < n
            invariant
                n == batch_size * inp.element_size_spec(),
                n <= inp.buf@.len() == out.buf@.len() == old(out).buf@.len(),
                out.shape == old(out).shape,
                out.cap == old(out).cap,
                forall|x: T, y: T| f.requires((x, y)),
                k <= n,
                forall|j: int|
                    0 <= j < k ==> f.ensures((inp.buf@[j], old(out).buf@[j]), #[trigger] out.buf@[j]),
                forall|j: int| k <= j < out.buf@.len() ==> #[trigger] out.buf@[j] == old(out).buf@[j],
            decreases n - k,
        {
            let v = f(inp.buf[k], out.buf[k]);
            out.buf.set(k, v);
            k = k + 1;
        }
    }

    /// `out[i][k] = f(out[i][k], v[k])` for each of the first `batch_size`
    /// tensors: one shared vector broadcast over the batch, as a bias is added.
    pub fn splat<F: Fn(T, T) -> T>(batch_size: usize, f: F, v: &Vec<T>, out: &mut Self)
        requires
            old(out).wf(),
            v@.len() == old(out).element_size_spec(),
            batch_size <= old(out).cap_spec(),
            forall|x: T, y: T| f.requires((x, y)),
        ensures
            final(out).wf(),
            final(out).shape_spec() == old(out).shape_spec(),
            final(out).cap_spec() == old(out).cap_spec(),
            final(out).values().len() == old(out).values().len(),
            forall|i: int, k: int|
                0 <= i < batch_size && 0 <= k < v@.len() ==> f.ensures(
                    (old(out).values()[i * v@.len() + k], v@[k]),
                    #[trigger] final(out).values()[i * v@.len() + k],
                ),
            forall|j: int|
                batch_size * v@.len() <= j < old(out).values().len() ==> #[trigger] final(out).values()[j]
                    == old(out).values()[j],
    {
        let e = v.len();
        proof {
            assert(batch_size * e <= out.cap * e) by (nonlinear_arith)
                requires
                    batch_size <= out.cap,
            ;
        }
        let n = batch_size * e;
        let mut j: usize = 0;
        while j < n
            invariant
                e == v@.len() == old(out).element_size_spec(),
                n == batch_size * e,
                n <= out.buf@.len() == old(out).buf@.len(),
                out.shape == old(out).shape,
                out.cap == old(out).cap,
                forall|x: T, y: T| f.requires((x, y)),
                j <= n,
                forall|q: int| 0 <= q < j ==> f.ensures((old(out).buf@[q], v@[q % (e as int)]), #[trigger] out.buf@[q]),
                forall|q: int| j <= q < out.buf@.len() ==> #[trigger] out.buf@[q] == old(out).buf@[q],
            decreases n - j,
        {
            proof {
                if e == 0 {
                    assert(n == 0) by (nonlinear_arith)
                        requires
                            n == batch_size * e,
                            e == 0,
                    ;
                }
            }
            let k = j % e;
            let r = f(out.buf[j], v[k]);
            out.buf.set(j, r);
            j = j + 1;
        }
        proof {
            assert forall|i: int, k: int| 0 <= i < batch_size && 0 <= k < v@.len() implies f.ensures(
                (old(out).values()[i * v@.len() + k], v@[k]),
                #[trigger] out.values()[i * v@.len() + k],
            ) by {
                let q = i * e + k;
                vstd::arithmetic::div_mod::lemma_fundamental_div_mod_converse(q, e as int, i, k);
                assert(q < n) by (nonlinear_arith)
                    requires
                        q == i * e + k,
                        k < e,
                        i + 1 <= batch_size,
                        n == batch_size * e,
                ;
            }
        }
    }

    /// `y[i] = A[i] x[i]` where matrix `A[i]` starts at `a[i * a_stride]`.
    fn transform_nn<F: Fn(T, T, T) -> T>(
        batch_size: usize,
        a: &Vec<T>,
        a_stride: usize,
        a_shape: Shape,
        x: &Self,
        y: &mut Self,
        zero: T,
        mac: F,
    )
        requires
            x.wf(),
            old(y).wf(),
            x.shape_spec() == (Shape { cols: 1, rows: a_shape.cols }),
            old(y).shape_spec() == (Shape { cols: 1, rows: a_shape.rows }),
            x.cap_spec() == old(y).cap_spec(),
            batch_size <= x.cap_spec(),
            matrices_fit(batch_size as int, a_stride as int, a_shape.cols as int, a_shape.rows as int, a@.len() as int),
            forall|p: T, q: T, acc: T| mac.requires((p, q, acc)),
        ensures
            final(y).wf(),
            final(y).shape_spec() == old(y).shape_spec(),
            final(y).cap_spec() == old(y).cap_spec(),
            final(y).values().len() == old(y).values().len(),
            forall|i: int, r: int|
                0 <= i < batch_size && 0 <= r < a_shape.rows ==> folds_to(
                    mac,
                    zero,
                    row_of(a@, i * a_stride, a_shape.cols as int, r),
                    x.values().subrange(i * a_shape.cols, i * a_shape.cols + a_shape.cols),
                    #[trigger] final(y).values()[i * a_shape.rows + r],
                ),
            forall|q: int|
                batch_size * a_shape.rows <= q < old(y).values().len() ==> #[trigger] final(y).values()[q]
                    == old(y).values()[q],
    {
        let m = a_shape.cols;
        let n = a_shape.rows;
        proof {
            assert(batch_size * n <= y.cap * n) by (nonlinear_arith)
                requires
                    batch_size <= y.cap,
            ;
            assert(batch_size * m <= x.cap * m) by (nonlinear_arith)
                requires
                    batch_size <= x.cap,
            ;
        }
        let total = batch_size * n;
        let alen = a.len();
        let xlen = x.buf.len();
        let mut q: usize = 0;
        while q < total
            invariant
                alen == a@.len(),
                xlen == x.buf@.len(),
                m == a_shape.cols,
                n == a_shape.rows,
                total == batch_size * n,
                total <= y.buf@.len() == old(y).buf@.len(),
                batch_size * m <= x.buf@.len(),
                matrices_fit(batch_size as int, a_stride as int, m as int, n as int, a@.len() as int),
                y.shape == old(y).shape,
                y.cap == old(y).cap,
                forall|p: T, q2: T, acc: T| mac.requires((p, q2, acc)),
                q <= total,
                forall|j: int|
                    0 <= j < q ==> folds_to(
                        mac,
                        zero,
                        row_of(a@, (j / (n as int)) * a_stride, m as int, j % (n as int)),
                        x.buf@.subrange((j / (n as int)) * m, (j / (n as int)) * m + m),
                        #[trigger] y.buf@[j],
                    ),
                forall|j: int| q <= j < y.buf@.len() ==> #[trigger] y.buf@[j] == old(y).buf@[j],
            decreases total - q,
        {
            proof {
                if n == 0 {
                    assert(total == 0) by (nonlinear_arith)
                        requires
                            total == batch_size * n,
                            n == 0,
                    ;
                }
            }
            let i = q / n;
            let r = q % n;
            proof {
                vstd::arithmetic::div_mod::lemma_fundamental_div_mod(q as int, n as int);
                assert(i < batch_size) by (nonlinear_arith)
                    requires
                        q == n * i + r,
                        q < batch_size * n,
                        r >= 0,
                ;
                assert((i + 1) * m <= batch_size * m) by (nonlinear_arith)
                    requires
                        i + 1 <= batch_size,
                ;
                assert((r + 1) * m <= n * m) by (nonlinear_arith)
                    requires
                        r + 1 <= n,
                ;
                assert((i + 1) * m == i * m + m) by (nonlinear_arith);
                assert((r + 1) * m == r * m + m) by (nonlinear_arith);
                assert(n * m == m * n) by (nonlinear_arith);
                assert(i * a_stride + r * m + m <= a@.len()) by (nonlinear_arith)
                    requires
                        i + 1 <= batch_size,
                        r + 1 <= n,
                        (batch_size - 1) * a_stride + m * n <= a@.len(),
                        (r + 1) * m <= n * m,
                        (r + 1) * m == r * m + m,
                        n * m == m * n,
                ;
            }
            let a_base = i * a_stride + r * m;
            let x_base = i * m;
            let ghost lhs = row_of(a@, i * a_stride, m as int, r as int);
            let ghost rhs = x.buf@.subrange(x_base as int, x_base + m);
            let mut acc = zero;
            let ghost mut chain: Seq<T> = seq![zero];
            let mut c: usize = 0;
            while c < m
                invariant
                    alen == a@.len(),
                    xlen == x.buf@.len(),
                    a_base + m <= a@.len(),
                    x_base + m <= x.buf@.len(),
                    lhs == a@.subrange(a_base as int, a_base + m),
                    rhs == x.buf@.subrange(x_base as int, x_base + m),
                    forall|p: T, q2: T, acc2: T| mac.requires((p, q2, acc2)),
                    c <= m,
                    chain.len() == c + 1,
                    chain[0] == zero,
                    chain[c as int] == acc,
                    forall|k: int| 0 <= k < c ==> mac.ensures((lhs[k], rhs[k], chain[k]), #[trigger] chain[k + 1]),
                decreases m - c,
            {
                let next = mac(a[a_base + c], x.buf[x_base + c], acc);
                proof {
                    chain = chain.push(next);
                }
                acc = next;
                c = c + 1;
            }
            proof {
                assert(is_chain(mac, zero, lhs, rhs, chain));
                assert(q as int % (n as int) == r);
                assert(q as int / (n as int) == i);
            }
            y.buf.set(q, acc);
            q = q + 1;
        }
        proof {
            assert forall|i: int, r: int| 0 <= i < batch_size && 0 <= r < n implies folds_to(
                mac,
                zero,
                row_of(a@, i * a_stride, m as int, r),
                x.values().subrange(i * m, i * m + m),
                #[trigger] y.values()[i * n + r],
            ) by {
                let j = i * n + r;
                vstd::arithmetic::div_mod::lemma_fundamental_div_mod_converse(j, n as int, i, r);
                assert(j < total) by (nonlinear_arith)
                    requires
                        j == i * n + r,
                        r < n,
                        i + 1 <= batch_size,
                        total == batch_size * n,
                ;
            }
        }
    }
    /// `x[i] = A[i]ᵗ y[i]` where matrix `A[i]` starts at `a[i * a_stride]`.
    fn transform_tn<F: Fn(T, T, T) -> T>(
        batch_size: usize,
        a: &Vec<T>,
        a_stride: usize,
        a_shape: Shape,
        y: &Self,
        x: &mut Self,
        zero: T,
        mac: F,
    )
        requires
            old(x).wf(),
            y.wf(),
            old(x).shape_spec() == (Shape { cols: 1, rows: a_shape.cols }),
            y.shape_spec() == (Shape { cols: 1, rows: a_shape.rows }),
            old(x).cap_spec() == y.cap_spec(),
            batch_size <= y.cap_spec(),
            matrices_fit(batch_size as int, a_stride as int, a_shape.cols as int, a_shape.rows as int, a@.len() as int),
            forall|p: T, q: T, acc: T| mac.requires((p, q, acc)),
        ensures
            final(x).wf(),
            final(x).shape_spec() == old(x).shape_spec(),
            final(x).cap_spec() == old(x).cap_spec(),
            final(x).values().len() == old(x).values().len(),
            forall|i: int, c: int|
                0 <= i < batch_size && 0 <= c < a_shape.cols ==> folds_to(
                    mac,
                    zero,
                    column_of(a@, i * a_stride, a_shape.cols as int, a_shape.rows as int, c),
                    y.values().subrange(i * a_shape.rows, i * a_shape.rows + a_shape.rows),
                    #[trigger] final(x).values()[i * a_shape.cols + c],
                ),
            forall|q: int|
                batch_size * a_shape.cols <= q < old(x).values().len() ==> #[trigger] final(x).values()[q]
                    == old(x).values()[q],
    {
        let m = a_shape.cols;
        let n = a_shape.rows;
        proof {
            assert(batch_size * n <= y.cap * n) by (nonlinear_arith)
                requires
                    batch_size <= y.cap,
            ;
            assert(batch_size * m <= x.cap * m) by (nonlinear_arith)
                requires
                    batch_size <= x.cap,
            ;
        }
        let total = batch_size * m;
        let alen = a.len();
        let ylen = y.buf.len();
        let mut q: usize = 0;
        while q < total
            invariant
                alen == a@.len(),
                ylen == y.buf@.len(),
                m == a_shape.cols,
                n == a_shape.rows,
                total == batch_size * m,
                total <= x.buf@.len() == old(x).buf@.len(),
                batch_size * n <= y.buf@.len(),
                matrices_fit(batch_size as int, a_stride as int, m as int, n as int, a@.len() as int),
                x.shape == old(x).shape,
                x.cap == old(x).cap,
                forall|p: T, q2: T, acc: T| mac.requires((p, q2, acc)),
                q <= total,
                forall|j: int|
                    0 <= j < q ==> folds_to(
                        mac,
                        zero,
                        column_of(a@, (j / (m as int)) * a_stride, m as int, n as int, j % (m as int)),
                        y.buf@.subrange((j / (m as int)) * n, (j / (m as int)) * n + n),
                        #[trigger] x.buf@[j],
                    ),
                forall|j: int| q <= j < x.buf@.len() ==> #[trigger] x.buf@[j] == old(x).buf@[j],
            decreases total - q,
        {
            proof {
                if m == 0 {
                    assert(total == 0) by (nonlinear_arith)
                        requires
                            total == batch_size * m,
                            m == 0,
                    ;
                }
            }
            let i = q / m;
            let c = q % m;
            proof {
                vstd::arithmetic::div_mod::lemma_fundamental_div_mod(q as int, m as int);
                assert(i < batch_size) by (nonlinear_arith)
                    requires
                        q == m * i + c,
                        q < batch_size * m,
                        c >= 0,
                ;
                assert((i + 1) * n <= batch_size * n) by (nonlinear_arith)
                    requires
                        i + 1 <= batch_size,
                ;
                assert((i + 1) * n == i * n + n) by (nonlinear_arith);
                assert(i * a_stride + m * n <= a@.len()) by (nonlinear_arith)
                    requires
                        i + 1 <= batch_size,
                        (batch_size - 1) * a_stride + m * n <= a@.len(),
                ;
            }
            let y_base = i * n;
            let a_base = i * a_stride;
            let ghost lhs = column_of(a@, a_base as int, m as int, n as int, c as int);
            let ghost rhs = y.buf@.subrange(y_base as int, y_base + n);
            let mut acc = zero;
            let ghost mut chain: Seq<T> = seq![zero];
            let mut r: usize = 0;
            while r < n
                invariant
                    alen == a@.len(),
                    ylen == y.buf@.len(),
                    a_base + m * n <= a@.len(),
                    c < m,
                    y_base + n <= y.buf@.len(),
                    lhs == column_of(a@, a_base as int, m as int, n as int, c as int),
                    rhs == y.buf@.subrange(y_base as int, y_base + n),
                    forall|p: T, q2: T, acc2: T| mac.requires((p, q2, acc2)),
                    r <= n,
                    chain.len() == r + 1,
                    chain[0] == zero,
                    chain[r as int] == acc,
                    forall|k: int| 0 <= k < r ==> mac.ensures((lhs[k], rhs[k], chain[k]), #[trigger] chain[k + 1]),
                decreases n - r,
            {
                proof {
                    assert(r * m + c < m * n) by (nonlinear_arith)
                        requires
                            r < n,
                            c < m,
                    ;
                }
                let ai = a_base + r * m + c;
                let next = mac(a[ai], y.buf[y_base + r], acc);
                proof {
                    chain = chain.push(next);
                }
                acc = next;
                r = r + 1;
            }
            proof {
                assert(is_chain(mac, zero, lhs, rhs, chain));
                assert(q as int % (m as int) == c);
                assert(q as int / (m as int) == i);
            }
            x.buf.set(q, acc);
            q = q + 1;
        }
        proof {
            assert forall|i: int, c: int| 0 <= i < batch_size && 0 <= c < m implies folds_to(
                mac,
                zero,
                column_of(a@, i * a_stride, m as int, n as int, c),
                y.values().subrange(i * n, i * n + n),
                #[trigger] x.values()[i * m + c],
            ) by {
                let j = i * m + c;
                vstd::arithmetic::div_mod::lemma_fundamental_div_mod_converse(j, m as int, i, c);
                assert(j < total) by (nonlinear_arith)
                    requires
                        j == i * m + c,
                        c < m,
                        i + 1 <= batch_size,
                        total == batch_size * m,
                ;
            }
        }
    }

    /// Splat linear transform `y[i] = A x[i]` for one shared `m x n` matrix
    /// `A` (`m` columns, `n` rows, stored row after row) and the first
    /// `batch_size` vectors: entry `r` of `y[i]` is the fold of `mac` over
    /// row `r` of `A` and `x[i]`, from `zero`. The rest of `y` is kept.
    pub fn splat_lt_nn<F: Fn(T, T, T) -> T>(
        batch_size: usize,
        a: &Vec<T>,
        a_shape: Shape,
        x: &Self,
        y: &mut Self,
        zero: T,
        mac: F,
    )
        requires
            x.wf(),
            old(y).wf(),
            x.shape_spec() == (Shape { cols: 1, rows: a_shape.cols }),
            old(y).shape_spec() == (Shape { cols: 1, rows: a_shape.rows }),
            x.cap_spec() == old(y).cap_spec(),
            batch_size <= x.cap_spec(),
            a@.len() == a_shape.cols * a_shape.rows,
            forall|p: T, q: T, acc: T| mac.requires((p, q, acc)),
        ensures
            final(y).wf(),
            final(y).shape_spec() == old(y).shape_spec(),
            final(y).cap_spec() == old(y).cap_spec(),
            final(y).values().len() == old(y).values().len(),
            forall|i: int, r: int|
                0 <= i < batch_size && 0 <= r < a_shape.rows ==> folds_to(
                    mac,
                    zero,
                    row_of(a@, 0, a_shape.cols as int, r),
                    x.values().subrange(i * a_shape.cols, i * a_shape.cols + a_shape.cols),
                    #[trigger] final(y).values()[i * a_shape.rows + r],
                ),
            forall|q: int|
                batch_size * a_shape.rows <= q < old(y).values().len() ==> #[trigger] final(y).values()[q]
                    == old(y).values()[q],
    {
        proof {
            assert((batch_size - 1) * 0 == 0) by (nonlinear_arith);
        }
        Self::transform_nn(batch_size, a, 0, a_shape, x, y, zero, mac);
    }

    /// Splat transposed linear transform `x[i] = Aᵗ y[i]` for one shared
    /// `m x n` matrix `A` and the first `batch_size` vectors: entry `c` of
    /// `x[i]` is the fold of `mac` over column `c` of `A` and `y[i]`, from
    /// `zero`. The rest of `x` is kept.
    pub fn splat_lt_tn<F: Fn(T, T, T) -> T>(
        batch_size: usize,
        a: &Vec<T>,
        a_shape: Shape,
        y: &Self,
        x: &mut Self,
        zero: T,
        mac: F,
    )
        requires
            old(x).wf(),
            y.wf(),
            old(x).shape_spec() == (Shape { cols: 1, rows: a_shape.cols }),
            y.shape_spec() == (Shape { cols: 1, rows: a_shape.rows }),
            old(x).cap_spec() == y.cap_spec(),
            batch_size <= y.cap_spec(),
            a@.len() == a_shape.cols * a_shape.rows,
            forall|p: T, q: T, acc: T| mac.requires((p, q, acc)),
        ensures
            final(x).wf(),
            final(x).shape_spec() == old(x).shape_spec(),
            final(x).cap_spec() == old(x).cap_spec(),
            final(x).values().len() == old(x).values().len(),
            forall|i: int, c: int|
                0 <= i < batch_size && 0 <= c < a_shape.cols ==> folds_to(
                    mac,
                    zero,
                    column_of(a@, 0, a_shape.cols as int, a_shape.rows as int, c),
                    y.values().subrange(i * a_shape.rows, i * a_shape.rows + a_shape.rows),
                    #[trigger] final(x).values()[i * a_shape.cols + c],
                ),
            forall|q: int|
                batch_size * a_shape.cols <= q < old(x).values().len() ==> #[trigger] final(x).values()[q]
                    == old(x).values()[q],
    {
        proof {
            assert((batch_size - 1) * 0 == 0) by (nonlinear_arith);
        }
        Self::transform_tn(batch_size, a, 0, a_shape, y, x, zero, mac);
    }

    /// Batched linear transform `y[i] = A[i] x[i]`, one `m x n` matrix per
    /// batch element (`A[i]` is element `i` of `a`): entry `r` of `y[i]` is the
    /// fold of `mac` over row `r` of `A[i]` and `x[i]`, from `zero`.
    pub fn lt_nn<F: Fn(T, T, T) -> T>(batch_size: usize, a: &Self, x: &Self, y: &mut Self, zero: T, mac: F)
        requires
            a.wf(),
            x.wf(),
            old(y).wf(),
            x.shape_spec() == (Shape { cols: 1, rows: a.shape_spec().cols }),
            old(y).shape_spec() == (Shape { cols: 1, rows: a.shape_spec().rows }),
            x.cap_spec() == old(y).cap_spec(),
            x.cap_spec() == a.cap_spec(),
            batch_size <= x.cap_spec(),
            forall|p: T, q: T, acc: T| mac.requires((p, q, acc)),
        ensures
            final(y).wf(),
            final(y).shape_spec() == old(y).shape_spec(),
            final(y).cap_spec() == old(y).cap_spec(),
            final(y).values().len() == old(y).values().len(),
            forall|i: int, r: int|
                0 <= i < batch_size && 0 <= r < a.shape_spec().rows ==> folds_to(
                    mac,
                    zero,
                    row_of(a.values(), i * a.element_size_spec(), a.shape_spec().cols as int, r),
                    x.values().subrange(i * a.shape_spec().cols, i * a.shape_spec().cols + a.shape_spec().cols),
                    #[trigger] final(y).values()[i * a.shape_spec().rows + r],
                ),
            forall|q: int|
                batch_size * a.shape_spec().rows <= q < old(y).values().len() ==> #[trigger] final(y).values()[q]
                    == old(y).values()[q],
    {
        let e = a.shape.size();
        proof {
            if batch_size > 0 {
                assert((batch_size - 1) * e + e <= a.cap * e) by (nonlinear_arith)
                    requires
                        batch_size <= a.cap,
                        batch_size > 0,
                ;
            }
        }
        Self::transform_nn(batch_size, &a.buf, e, a.shape, x, y, zero, mac);
    }

    /// Batched transposed linear transform `x[i] = A[i]ᵗ y[i]`, one `m x n`
    /// matrix per batch element: entry `c` of `x[i]` is the fold of `mac`
    /// over column `c` of `A[i]` and `y[i]`, from `zero`.
    pub fn lt_tn<F: Fn(T, T, T) -> T>(batch_size: usize, a: &Self, y: &Self, x: &mut Self, zero: T, mac: F)
        requires
            a.wf(),
            old(x).wf(),
            y.wf(),
            old(x).shape_spec() == (Shape { cols: 1, rows: a.shape_spec().cols }),
            y.shape_spec() == (Shape { cols: 1, rows: a.shape_spec().rows }),
            old(x).cap_spec() == y.cap_spec(),
            old(x).cap_spec() == a.cap_spec(),
            batch_size <= y.cap_spec(),
            forall|p: T, q: T, acc: T| mac.requires((p, q, acc)),
        ensures
            final(x).wf(),
            final(x).shape_spec() == old(x).shape_spec(),
            final(x).cap_spec() == old(x).cap_spec(),
            final(x).values().len() == old(x).values().len(),
            forall|i: int, c: int|
                0 <= i < batch_size && 0 <= c < a.shape_spec().cols ==> folds_to(
                    mac,
                    zero,
                    column_of(a.values(), i * a.element_size_spec(), a.shape_spec().cols as int, a.shape_spec().rows as int, c),
                    y.values().subrange(i * a.shape_spec().rows, i * a.shape_spec().rows + a.shape_spec().rows),
                    #[trigger] final(x).values()[i * a.shape_spec().cols + c],
                ),
            forall|q: int|
                batch_size * a.shape_spec().cols <= q < old(x).values().len() ==> #[trigger] final(x).values()[q]
                    == old(x).values()[q],
    {
        let e = a.shape.size();
        proof {
            if batch_size > 0 {
                assert((batch_size - 1) * e + e <= a.cap * e) by (nonlinear_arith)
                    requires
                        batch_size <= a.cap,
                        batch_size > 0,
                ;
            }
        }
        Self::transform_tn(batch_size, &a.buf, e, a.shape, y, x, zero, mac);
    }

    /// Batched outer products `A[i] = y[i] x[i]ᵗ` for the first `batch_size`
    /// elements: entry `(r, c)` of `A[i]` is `times(y[i][r], x[i][c])`. The
    /// rest of `a` is kept.
    pub fn lt_nt<F: Fn(T, T) -> T>(batch_size: usize, y: &Self, x: &Self, a: &mut Self, times: F)
        requires
            old(a).wf(),
            x.wf(),
            y.wf(),
            x.shape_spec() == (Shape { cols: 1, rows: old(a).shape_spec().cols }),
            y.shape_spec() == (Shape { cols: 1, rows: old(a).shape_spec().rows }),
            x.cap_spec() == y.cap_spec(),
            x.cap_spec() == old(a).cap_spec(),
            batch_size <= x.cap_spec(),
            forall|p: T, q: T| times.requires((p, q)),
        ensures
            final(a).wf(),
            final(a).shape_spec() == old(a).shape_spec(),
            final(a).cap_spec() == old(a).cap_spec(),
            final(a).values().len() == old(a).values().len(),
            forall|i: int, r: int, c: int|
                0 <= i < batch_size && 0 <= r < old(a).shape_spec().rows && 0 <= c < old(a).shape_spec().cols
                    ==> times.ensures(
                    (
                        y.values()[i * old(a).shape_spec().rows + r],
                        x.values()[i * old(a).shape_spec().cols + c],
                    ),
                    #[trigger] final(a).values()[i * old(a).element_size_spec() + r * old(a).shape_spec().cols + c],
                ),
            forall|q: int|
                batch_size * old(a).element_size_spec() <= q < old(a).values().len() ==> #[trigger] final(
                    a).values()[q] == old(a).values()[q],
    {
        let m = a.shape.cols;
        let n = a.shape.rows;
        let e = a.shape.size();
        proof {
            assert(batch_size * e <= a.cap * e) by (nonlinear_arith)
                requires
                    batch_size <= a.cap,
            ;
            assert(batch_size * m <= x.cap * m) by (nonlinear_arith)
                requires
                    batch_size <= x.cap,
            ;
            assert(batch_size * n <= y.cap * n) by (nonlinear_arith)
                requires
                    batch_size <= y.cap,
            ;
        }
        let total = batch_size * e;
        let xlen = x.buf.len();
        let ylen = y.buf.len();
        let mut q: usize = 0;
        while q < total
            invariant
                xlen == x.buf@.len(),
                ylen == y.buf@.len(),
                m == old(a).shape_spec().cols,
                n == old(a).shape_spec().rows,
                e == m * n,
                total == batch_size * e,
                total <= a.buf@.len() == old(a).buf@.len(),
                batch_size * m <= x.buf@.len(),
                batch_size * n <= y.buf@.len(),
                a.shape == old(a).shape,
                a.cap == old(a).cap,
                forall|p: T, q2: T| times.requires((p, q2)),
                q <= total,
                forall|j: int|
                    0 <= j < q ==> times.ensures(
                        (
                            y.buf@[(j / (e as int)) * n + (j % (e as int)) / (m as int)],
                            x.buf@[(j / (e as int)) * m + (j % (e as int)) % (m as int)],
                        ),
                        #[trigger] a.buf@[j],
                    ),
                forall|j: int| q <= j < a.buf@.len() ==> #[trigger] a.buf@[j] == old(a).buf@[j],
            decreases total - q,
        {
            proof {
                if e == 0 {
                    assert(total == 0) by (nonlinear_arith)
                        requires
                            total == batch_size * e,
                            e == 0,
                    ;
                }
            }
            let i = q / e;
            let rem = q % e;
            proof {
                vstd::arithmetic::div_mod::lemma_fundamental_div_mod(q as int, e as int);
                assert(i < batch_size) by (nonlinear_arith)
                    requires
                        q == e * i + rem,
                        q < batch_size * e,
                        rem >= 0,
                ;
                if m == 0 {
                    assert(e == 0) by (nonlinear_arith)
                        requires
                            e == m * n,
                            m == 0,
                    ;
                }
            }
            let r = rem / m;
            let c = rem % m;
            proof {
                vstd::arithmetic::div_mod::lemma_fundamental_div_mod(rem as int, m as int);
                assert(r < n) by (nonlinear_arith)
                    requires
                        rem == m * r + c,
                        rem < e,
                        e == m * n,
                        c >= 0,
                ;
                assert((i + 1) * n <= batch_size * n) by (nonlinear_arith)
                    requires
                        i + 1 <= batch_size,
                ;
                assert((i + 1) * m <= batch_size * m) by (nonlinear_arith)
                    requires
                        i + 1 <= batch_size,
                ;
                assert((i + 1) * n == i * n + n) by (nonlinear_arith);
                assert((i + 1) * m == i * m + m) by (nonlinear_arith);
            }
            let v = times(y.buf[i * n + r], x.buf[i * m + c]);
            a.buf.set(q, v);
            q = q + 1;
        }
        proof {
            assert forall|i: int, r: int, c: int|
                0 <= i < batch_size && 0 <= r < n && 0 <= c < m implies times.ensures(
                (y.values()[i * n + r], x.values()[i * m + c]),
                #[trigger] a.values()[i * e + r * m + c],
            ) by {
                let rem = r * m + c;
                let j = i * e + rem;
                assert(rem < e) by (nonlinear_arith)
                    requires
                        rem == r * m + c,
                        r + 1 <= n,
                        c < m,
                        e == m * n,
                ;
                assert(j < total) by (nonlinear_arith)
                    requires
                        j == i * e + rem,
                        rem < e,
                        i + 1 <= batch_size,
                        total == batch_size * e,
                ;
                vstd::arithmetic::div_mod::lemma_fundamental_div_mod_converse(j, e as int, i, rem);
                vstd::arithmetic::div_mod::lemma_fundamental_div_mod_converse(rem, m as int, r, c);
            }
        }
    }

    /// Adds the first `batch_size` tensors into `out`: entry `k` of `out`
    /// becomes the fold of `plus` over entry `k` of each tensor, in batch
    /// order, from its old value.
    pub fn reduce_add<F: Fn(T, T) -> T>(batch_size: usize, inp: &Self, out: &mut Vec<T>, plus: F)
        requires
            inp.wf(),
            old(out)@.len() == inp.element_size_spec(),
            batch_size <= inp.cap_spec(),
            forall|p: T, q: T| plus.requires((p, q)),
        ensures
            final(out)@.len() == old(out)@.len(),
            forall|k: int|
                0 <= k < old(out)@.len() ==> sums_to(
                    plus,
                    old(out)@[k],
                    Seq::new(batch_size as nat, |i: int| inp.values()[i * old(out)@.len() + k]),
                    #[trigger] final(out)@[k],
                ),
    {
        let e = out.len();
        proof {
            assert(batch_size * e <= inp.cap * e) by (nonlinear_arith)
                requires
                    batch_size <= inp.cap,
            ;
            assert forall|k: int| 0 <= k < e implies sums_to(
                plus,
                old(out)@[k],
                Seq::new(0, |i: int| inp.values()[i * e + k]),
                #[trigger] out@[k],
            ) by {
                assert(Seq::new(0, |i: int| inp.values()[i * e + k]) =~= Seq::<T>::empty());
                lemma_sums_nil(plus, old(out)@[k]);
            }
        }
        let ilen = inp.buf.len();
        let mut i: usize = 0;
        while i < batch_size
            invariant
                ilen == inp.buf@.len(),
                e == out@.len() == old(out)@.len() == inp.element_size_spec(),
                batch_size * e <= inp.buf@.len(),
                forall|p: T, q: T| plus.requires((p, q)),
                i <= batch_size,
                forall|k: int|
                    0 <= k < e ==> sums_to(
                        plus,
                        old(out)@[k],
                        Seq::new(i as nat, |i2: int| inp.values()[i2 * e + k]),
                        #[trigger] out@[k],
                    ),
            decreases batch_size - i,
        {
            proof {
                assert((i + 1) * e <= batch_size * e) by (nonlinear_arith)
                    requires
                        i + 1 <= batch_size,
                ;
                assert((i + 1) * e == i * e + e) by (nonlinear_arith);
            }
            let base = i * e;
            let mut k: usize = 0;
            while k < e
                invariant
                    ilen == inp.buf@.len(),
                    e == out@.len() == old(out)@.len(),
                    base == i * e,
                    base + e <= inp.buf@.len(),
                    forall|p: T, q: T| plus.requires((p, q)),
                    k <= e,
                    forall|k2: int|
                        0 <= k2 < e ==> sums_to(
                            plus,
                            old(out)@[k2],
                            Seq::new((if k2 < k { i + 1 } else { i as int }) as nat, |i2: int| inp.values()[i2 * e + k2]),
                            #[trigger] out@[k2],
                        ),
                decreases e - k,
            {
                let cur = out[k];
                let v = inp.buf[base + k];
                let next = plus(cur, v);
                proof {
                    let before = Seq::new(i as nat, |i2: int| inp.values()[i2 * e + k]);
                    assert(Seq::new((i + 1) as nat, |i2: int| inp.values()[i2 * e + k]) =~= before.push(v));
                    lemma_sums_extend(plus, old(out)@[k as int], before, cur, v, next);
                }
                let ghost prior = out@;
                out.set(k, next);
                proof {
                    assert forall|k2: int| 0 <= k2 < e implies sums_to(
                        plus,
                        old(out)@[k2],
                        Seq::new((if k2 < k + 1 { i + 1 } else { i as int }) as nat, |i2: int| inp.values()[i2 * e + k2]),
                        #[trigger] out@[k2],
                    ) by {
                        if k2 != k {
                            assert(out@[k2] == prior[k2]);
                        }
                    }
                }
                k = k + 1;
            }
            i = i + 1;
        }
    }
}

/// The `(m, n)` of a linear transform by an `m x n` matrix of shape `a`
/// (`m` columns, `n` rows) from `x` to `y`, when the batches fit it: `x`
/// holds vectors of length `m`, `y` vectors of length `n`, and both have the
/// same capacity.
pub fn validate_dims<T: Copy>(a: Shape, x: &TensorBatch<T>, y: &TensorBatch<T>) -> (r: Option<(usize, usize)>)
    ensures
        r is Some <==> (x.shape_spec() == Shape { cols: 1, rows: a.cols } && y.shape_spec() == Shape {
            cols: 1,
            rows: a.rows,
        } && x.cap_spec() == y.cap_spec()),
        r is Some ==> r->0 == (a.cols, a.rows),
{
    if x.shape() == Shape::new(1, a.cols()) && y.shape() == Shape::new(1, a.rows()) && x.cap() == y.cap() {
        Some((a.cols(), a.rows()))
    } else {
        None
    }
}

} // verus!
