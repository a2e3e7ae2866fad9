use vstd::prelude::*;
use crate::trainer::ParamRange;

verus! {

/// All learnable parameters in one buffer, with momentum, velocity and
/// gradient buffers of the same size beside it. Layers reach their
/// parameters through ranges of these buffers.
pub struct Optimiser<T> {
    size: usize,
    network: Vec<T>,
    momentum: Vec<T>,
    velocity: Vec<T>,
    gradients: Vec<T>,
}

/// Whether `r` lies inside `size` entries.
pub open spec fn range_fits(r: ParamRange, size: nat) -> bool {
    r.start + r.len <= size
}

impl<T: Copy> Optimiser<T> {
    pub closed spec fn size_spec(&self) -> nat {
        self.size as nat
    }

    pub closed spec fn params(&self) -> Seq<T> {
        self.network@
    }

    pub closed spec fn momenta(&self) -> Seq<T> {
        self.momentum@
    }

    pub closed spec fn velocities(&self) -> Seq<T> {
        self.velocity@
    }

    pub closed spec fn grads(&self) -> Seq<T> {
        self.gradients@
    }

    pub closed spec fn wf(&self) -> bool {
        &&& self.network@.len() == self.size
        &&& self.momentum@.len() == self.size
        &&& self.velocity@.len() == self.size
        &&& self.gradients@.len() == self.size
    }

    /// Buffers of `size` entries, all `zero`.
    pub fn new(size: usize, zero: T) -> (r: Self)
        ensures
            r.wf(),
            r.size_spec() == size,
            r.params() == Seq::new(size as nat, |i: int| zero),
            r.momenta() == Seq::new(size as nat, |i: int| zero),
            r.velocities() == Seq::new(size as nat, |i: int| zero),
            r.grads() == Seq::new(size as nat, |i: int| zero),
    {
        Optimiser {
            size,
            network: crate::device::malloc(size, zero),
            momentum: crate::device::malloc(size, zero),
            velocity: crate::device::malloc(size, zero),
            gradients: crate::device::malloc(size, zero),
        }
    }

    pub fn size(&self) -> (r: usize)
        ensures
            r == self.size_spec(),
    {
        self.size
    }

    /// Clears the gradients; parameters and moments are kept.
    pub fn zero_gradient(&mut self, zero: T)
        requires
            old(self).wf(),
        ensures
            final(self).wf(),
            final(self).size_spec() == old(self).size_spec(),
            final(self).grads() == Seq::new(old(self).size_spec(), |i: int| zero),
            final(self).params() == old(self).params(),
            final(self).momenta() == old(self).momenta(),
            final(self).velocities() == old(self).velocities(),
    {
        let n = self.size;
        crate::device::set_zero(&mut self.gradients, n, zero);
        assert(self.gradients@ =~= Seq::new(n as nat, |i: int| zero));
    }

    /// A copy of the parameters in `r`, or `None` when `r` does not lie
    /// inside the buffer.
    pub fn weights(&self, r: ParamRange) -> (out: Option<Vec<T>>)
        requires
            self.wf(),
        ensures
            out is Some <==> range_fits(r, self.size_spec()),
            out is Some ==> out->0@ == self.params().subrange(r.start as int, r.start + r.len),
    {
        if r.len > self.size || r.start > self.size - r.len {
            return None;
        }
        let mut v: Vec<T> = Vec::new();
        let mut i: usize = 0;
        while i < r.len
            invariant
                self.wf(),
                r.start + r.len <= self.size,
                i <= r.len,
                v@ == self.network@.subrange(r.start as int, r.start + i),
            decreases r.len - i,
        {
            v.push(self.network[r.start + i]);
            i = i + 1;
        }
        Some(v)
    }

    /// A copy of the gradients in `r`, or `None` when `r` does not lie
    /// inside the buffer.
    pub fn gradients(&self, r: ParamRange) -> (out: Option<Vec<T>>)
        requires
            self.wf(),
        ensures
            out is Some <==> range_fits(r, self.size_spec()),
            out is Some ==> out->0@ == self.grads().subrange(r.start as int, r.start + r.len),
    {
        if r.len > self.size || r.start > self.size - r.len {
            return None;
        }
        let mut v: Vec<T> = Vec::new();
        let mut i: usize = 0;
        while i < r.len
            invariant
                self.wf(),
                r.start + r.len <= self.size,
                i <= r.len,
                v@ == self.gradients@.subrange(r.start as int, r.start + i),
            decreases r.len - i,
        {
            v.push(self.gradients[r.start + i]);
            i = i + 1;
        }
        Some(v)
    }

    /// Writes `values` over the gradients from `start` on.
    pub fn set_gradients(&mut self, start: usize, values: &Vec<T>)
        requires
            old(self).wf(),
            start + values@.len() <= old(self).size_spec(),
        ensures
            final(self).wf(),
            final(self).size_spec() == old(self).size_spec(),
            final(self).grads() == old(self).grads().subrange(0, start as int) + values@ + old(self).grads().subrange(
                start + values@.len(),
                old(self).size_spec() as int,
            ),
            final(self).params() == old(self).params(),
            final(self).momenta() == old(self).momenta(),
            final(self).velocities() == old(self).velocities(),
    {
        let n = values.len();
        crate::device::copy_to_device(&mut self.gradients, start, values.as_slice(), n);
        assert(values@.subrange(0, n as int) =~= values@);
    }

    /// Replaces the first entries of parameters, momenta and velocities.
    pub fn load_from_cpu(&mut self, network: &[T], momentum: &[T], velocity: &[T])
        requires
            old(self).wf(),
            network@.len() <= old(self).size_spec(),
            momentum@.len() <= old(self).size_spec(),
            velocity@.len() <= old(self).size_spec(),
        ensures
            final(self).wf(),
            final(self).size_spec() == old(self).size_spec(),
            final(self).params() == network@ + old(self).params().subrange(network@.len() as int, old(self).size_spec() as int),
            final(self).momenta() == momentum@ + old(self).momenta().subrange(momentum@.len() as int, old(self).size_spec() as int),
            final(self).velocities() == velocity@ + old(self).velocities().subrange(velocity@.len() as int, old(self).size_spec() as int),
            final(self).grads() == old(self).grads(),
    {
        crate::device::copy_to_device(&mut self.network, 0, network, network.len());
        crate::device::copy_to_device(&mut self.momentum, 0, momentum, momentum.len());
        crate::device::copy_to_device(&mut self.velocity, 0, velocity, velocity.len());
        assert(network@.subrange(0, network@.len() as int) =~= network@);
        assert(momentum@.subrange(0, momentum@.len() as int) =~= momentum@);
        assert(velocity@.subrange(0, velocity@.len() as int) =~= velocity@);
        assert(old(self).params().subrange(0, 0) + network@ =~= network@);
        assert(old(self).momenta().subrange(0, 0) + momentum@ =~= momentum@);
        assert(old(self).velocities().subrange(0, 0) + velocity@ =~= velocity@);
    }

    /// Copies parameters, momenta and velocities into the given buffers.
    pub fn write_to_cpu(&self, network: &mut [T], momentum: &mut [T], velocity: &mut [T])
        requires
            self.wf(),
            old(network)@.len() == self.size_spec(),
            old(momentum)@.len() == self.size_spec(),
            old(velocity)@.len() == self.size_spec(),
        ensures
            final(network)@ == self.params(),
            final(momentum)@ == self.momenta(),
            final(velocity)@ == self.velocities(),
    {
        let n = self.size;
        crate::device::copy_from_device(network, &self.network, 0, n);
        crate::device::copy_from_device(momentum, &self.momentum, 0, n);
        crate::device::copy_from_device(velocity, &self.velocity, 0, n);
        assert(self.network@.subrange(0, n as int) + old(network)@.subrange(n as int, n as int) =~= self.network@);
        assert(self.momentum@.subrange(0, n as int) + old(momentum)@.subrange(n as int, n as int) =~= self.momentum@);
        assert(self.velocity@.subrange(0, n as int) + old(velocity)@.subrange(n as int, n as int) =~= self.velocity@);
    }

    /// One fused pass over every parameter: `step(w, m, v, g)` gives the new
    /// `(w, m, v)` of each entry from its parameter, momentum, velocity and
    /// gradient. Gradients are kept.
    pub fn update<F: Fn(T, T, T, T) -> (T, T, T)>(&mut self, step: F)
        requires
            old(self).wf(),
            forall|w: T, m: T, v: T, g: T| step.requires((w, m, v, g)),
        ensures
            final(self).wf(),
            final(self).size_spec() == old(self).size_spec(),
            final(self).grads() == old(self).grads(),
            forall|i: int|
                0 <= i < old(self).size_spec() ==> step.ensures(
                    (old(self).params()[i], old(self).momenta()[i], old(self).velocities()[i], old(self).grads()[i]),
                    (#[trigger] final(self).params()[i], final(self).momenta()[i], final(self).velocities()[i]),
                ),
    {
        let n = self.size;
        let mut i: usize = 0;
        while i < n
            invariant
                n == self.size == old(self).size,
                self.wf(),
                self.gradients == old(self).gradients,
                forall|w: T, m: T, v: T, g: T| step.requires((w, m, v, g)),
                i <= n,
                forall|j: int|
                    0 <= j < i ==> step.ensures(
                        (old(self).network@[j], old(self).momentum@[j], old(self).velocity@[j], old(self).gradients@[j]),
                        (#[trigger] self.network@[j], self.momentum@[j], self.velocity@[j]),
                    ),
                forall|j: int| i <= j < n ==> #[trigger] self.network@[j] == old(self).network@[j]
                    && self.momentum@[j] == old(self).momentum@[j] && self.velocity@[j] == old(self).velocity@[j],
            decreases n - i,
        {
            let (w, m, v) = step(self.network[i], self.momentum[i], self.velocity[i], self.gradients[i]);
            self.network.set(i, w);
            self.momentum.set(i, m);
            self.velocity.set(i, v);
            i = i + 1;
        }
    }
}

/// An update after the gradients were cleared, with a step that keeps a
/// parameter whenever its gradient is the cleared value, leaves every
/// parameter as it was; the gradients stay cleared, so this holds for any
/// number of such updates.
pub proof fn lemma_update_keeps_params<T: Copy, F: Fn(T, T, T, T) -> (T, T, T)>(
    before: Optimiser<T>,
    after: Optimiser<T>,
    step: F,
    zero: T,
)
    requires
        before.wf(),
        after.wf(),
        after.size_spec() == before.size_spec(),
        before.grads() == Seq::new(before.size_spec(), |i: int| zero),
        after.grads() == before.grads(),
        forall|i: int|
            0 <= i < before.size_spec() ==> step.ensures(
                (before.params()[i], before.momenta()[i], before.velocities()[i], before.grads()[i]),
                (#[trigger] after.params()[i], after.momenta()[i], after.velocities()[i]),
            ),
        forall|w: T, m: T, v: T, r: (T, T, T)| step.ensures((w, m, v, zero), r) ==> r.0 == w,
    ensures
        after.params() == before.params(),
        after.grads() == Seq::new(before.size_spec(), |i: int| zero),
{
    assert forall|i: int| 0 <= i < before.size_spec() implies after.params()[i] == before.params()[i] by {
        assert(before.grads()[i] == zero);
        let r = (after.params()[i], after.momenta()[i], after.velocities()[i]);
        assert(step.ensures((before.params()[i], before.momenta()[i], before.velocities()[i], zero), r));
    }
    assert(after.params() =~= before.params());
}

} // verus!
