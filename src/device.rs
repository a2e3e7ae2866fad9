use vstd::prelude::*;

verus! {

// Device memory in this build is host memory: every transfer is complete
// when the call returns, and no operation can leave an error pending.

/// A buffer of `num` entries, each `fill`.
pub fn malloc<T: Copy>(num: usize, fill: T) -> (r: Vec<T>)
    ensures
        r@ == Seq::new(num as nat, |i: int| fill),
{
    let mut out: Vec<T> = Vec::new();
    let mut i: usize = 0;
    while i < num
        invariant
            i <= num,
            out@ == Seq::new(i as nat, |j: int| fill),
        decreases num - i,
    {
        out.push(fill);
        i = i + 1;
        assert(out@ =~= Seq::new(i as nat, |j: int| fill));
    }
    out
}

/// Sets the first `num` entries of `buf` to `zero`.
pub fn set_zero<T: Copy>(buf: &mut Vec<T>, num: usize, zero: T)
    requires
        num <= old(buf)@.len(),
    ensures
        final(buf)@.len() == old(buf)@.len(),
        forall|i: int| 0 <= i < num ==> final(buf)@[i] == zero,
        forall|i: int| num <= i < old(buf)@.len() ==> final(buf)@[i] == old(buf)@[i],
{
    let mut i: usize = 0;
    while i < num
        invariant
            i <= num <= buf@.len(),
            buf@.len() == old(buf)@.len(),
            forall|j: int| 0 <= j < i ==> buf@[j] == zero,
            forall|j: int| num <= j < old(buf)@.len() ==> buf@[j] == old(buf)@[j],
        decreases num - i,
    {
        buf.set(i, zero);
        i = i + 1;
    }
}

/// Copies the first `amt` entries of `src` into `dest` from `offset` on.
pub fn copy_to_device<T: Copy>(dest: &mut Vec<T>, offset: usize, src: &[T], amt: usize)
    requires
        amt <= src@.len(),
        offset + amt <= old(dest)@.len(),
        offset + amt <= usize::MAX,
    ensures
        final(dest)@ == old(dest)@.subrange(0, offset as int) + src@.subrange(0, amt as int)
            + old(dest)@.subrange(offset + amt, old(dest)@.len() as int),
{
    let mut i: usize = 0;
    while i < amt
        invariant
            i <= amt <= src@.len(),
            offset + amt <= old(dest)@.len(),
            offset + amt <= usize::MAX,
            dest@.len() == old(dest)@.len(),
            forall|j: int| 0 <= j < offset ==> dest@[j] == old(dest)@[j],
            forall|j: int| 0 <= j < i ==> dest@[offset + j] == src@[j],
            forall|j: int| offset + i <= j < old(dest)@.len() ==> dest@[j] == old(dest)@[j],
        decreases amt - i,
    {
        dest.set(offset + i, src[i]);
        i = i + 1;
    }
    assert(dest@ =~= old(dest)@.subrange(0, offset as int) + src@.subrange(0, amt as int)
        + old(dest)@.subrange(offset + amt, old(dest)@.len() as int));
}

/// Copies `amt` entries of `src`, from `offset` on, to the front of `dest`.
pub fn copy_from_device<T: Copy>(dest: &mut [T], src: &Vec<T>, offset: usize, amt: usize)
    requires
        amt <= old(dest)@.len(),
        offset + amt <= src@.len(),
        offset + amt <= usize::MAX,
    ensures
        final(dest)@ == src@.subrange(offset as int, offset + amt) + old(dest)@.subrange(
            amt as int,
            old(dest)@.len() as int,
        ),
{
    let mut i: usize = 0;
    while i < amt
        invariant
            i <= amt <= dest@.len(),
            offset + amt <= src@.len(),
            offset + amt <= usize::MAX,
            dest@.len() == old(dest)@.len(),
            forall|j: int| 0 <= j < i ==> dest@[j] == src@[offset + j],
            forall|j: int| i <= j < dest@.len() ==> dest@[j] == old(dest)@[j],
        decreases amt - i,
    {
        dest[i] = src[offset + i];
        i = i + 1;
    }
    assert(dest@ =~= src@.subrange(offset as int, offset + amt) + old(dest)@.subrange(
        amt as int,
        old(dest)@.len() as int,
    ));
}

/// Waits for all device work; host memory has none outstanding.
pub fn device_synchronise() {
}

/// Fails with `msg` if the device reported an error; host memory reports none.
pub fn panic_if_device_error(msg: &str) {
}

/// Allocation bookkeeping for leak audits: each allocation gets the next id,
/// and the number of live buffers goes up on allocation and down on release.
pub struct AllocTracker {
    pub last_id: usize,
    pub live: usize,
}

impl AllocTracker {
    pub fn new() -> (r: AllocTracker)
        ensures
            r.last_id == 0 && r.live == 0,
    {
        AllocTracker { last_id: 0, live: 0 }
    }

    /// Records an allocation and returns its id.
    pub fn allocated(&mut self) -> (id: usize)
        requires
            old(self).last_id < usize::MAX,
            old(self).live < usize::MAX,
        ensures
            id == old(self).last_id + 1,
            final(self).last_id == id,
            final(self).live == old(self).live + 1,
    {
        self.last_id = self.last_id + 1;
        self.live = self.live + 1;
        self.last_id
    }

    /// Records that a live buffer was freed.
    pub fn freed(&mut self)
        requires
            old(self).live > 0,
        ensures
            final(self).last_id == old(self).last_id,
            final(self).live == old(self).live - 1,
    {
        self.live = self.live - 1;
    }
}

} // verus!
