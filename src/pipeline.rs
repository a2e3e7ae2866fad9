use vstd::prelude::*;
use vstd::multiset::Multiset;
use crate::rng::{xorshift, Rand};

verus! {

broadcast use vstd::seq_lib::group_to_multiset_ensures, vstd::multiset::group_multiset_axioms;

/// Exchanges two entries of `data`; the multiset of entries is kept.
pub(crate) fn swap_entries<T: Copy>(data: &mut Vec<T>, i: usize, j: usize)
    requires
        i < old(data).len(),
        j < old(data).len(),
    ensures
        final(data)@ == old(data)@.update(i as int, old(data)@[j as int]).update(
            j as int,
            old(data)@[i as int],
        ),
        final(data)@.to_multiset() == old(data)@.to_multiset(),
{
    let a = data[i];
    let b = data[j];
    data.set(i, b);
    data.set(j, a);
    proof {
        let s = old(data)@;
        let s1 = s.update(i as int, s[j as int]);
        vstd::seq_lib::to_multiset_update(s, i as int, s[j as int]);
        vstd::seq_lib::to_multiset_update(s1, j as int, s[i as int]);
        assert(s.to_multiset().count(s[i as int]) > 0);
        assert(s.to_multiset().count(s[j as int]) > 0);
        assert(s1.update(j as int, s[i as int]).to_multiset() =~= s.to_multiset());
    }
}

/// `s` with entries `i` and `j` exchanged.
pub open spec fn swap_seq<T>(s: Seq<T>, i: int, j: int) -> Seq<T> {
    s.update(i, s[j]).update(j, s[i])
}

/// Fisher-Yates over the first `k` entries of `s`, from generator state
/// `state`: for `i` from `k - 1` down to 0, advance the generator and swap
/// entry `i` with the entry at the new state modulo `i + 1`. Gives the
/// permuted sequence and the final state.
pub open spec fn fisher_yates<T>(s: Seq<T>, state: u64, k: nat) -> (Seq<T>, u64)
    decreases k,
{
    if k == 0 {
        (s, state)
    } else {
        let st = xorshift(state);
        fisher_yates(swap_seq(s, (st % (k as u64)) as int, k - 1), st, (k - 1) as nat)
    }
}

/// `n` steps of the generator.
pub open spec fn xorshift_n(state: u64, n: nat) -> u64
    decreases n,
{
    if n == 0 {
        state
    } else {
        xorshift_n(xorshift(state), (n - 1) as nat)
    }
}

/// Fisher-Yates takes one generator step per entry and keeps the entries.
pub proof fn lemma_fisher_yates<T>(s: Seq<T>, state: u64, k: nat)
    requires
        k <= s.len(),
        k <= u64::MAX,
    ensures
        fisher_yates(s, state, k).1 == xorshift_n(state, k),
        fisher_yates(s, state, k).0.len() == s.len(),
        fisher_yates(s, state, k).0.to_multiset() == s.to_multiset(),
    decreases k,
{
    if k > 0 {
        let st = xorshift(state);
        let i = (st % (k as u64)) as int;
        assert(st % (k as u64) < k as u64);
        let t = swap_seq(s, i, k - 1);
        let s1 = s.update(i, s[k - 1]);
        vstd::seq_lib::to_multiset_update(s, i, s[k - 1]);
        vstd::seq_lib::to_multiset_update(s1, k - 1, s[i]);
        assert(s.to_multiset().count(s[i]) > 0);
        assert(s.to_multiset().count(s[k - 1]) > 0);
        assert(t.to_multiset() =~= s.to_multiset());
        lemma_fisher_yates(t, st, (k - 1) as nat);
    }
}

/// Fisher-Yates permutation of `data`, drawing indices from `rng`.
pub fn shuffle_with<T: Copy>(data: &mut Vec<T>, rng: &mut Rand)
    ensures
        final(data)@ == fisher_yates(old(data)@, old(rng).0, old(data)@.len()).0,
        final(rng).0 == xorshift_n(old(rng).0, old(data)@.len()),
        final(data)@.len() == old(data)@.len(),
        final(data)@.to_multiset() == old(data)@.to_multiset(),
{
    let n = data.len();
    let mut k: usize = n;
    proof {
        lemma_fisher_yates(data@, rng.0, n as nat);
    }
    while k > 0
        invariant
            k <= n,
            data@.len() == n,
            fisher_yates(data@, rng.0, k as nat) == fisher_yates(old(data)@, old(rng).0, n as nat),
        decreases k,
    {
        let i = k - 1;
        let r = rng.rng();
        let idx = (r % (k as u64)) as usize;
        swap_entries(data, idx, i);
        k = i;
    }
}

/// Permutes `data` with a generator seeded from the clock.
pub fn shuffle<T: Copy>(data: &mut Vec<T>)
    ensures
        final(data)@.len() == old(data)@.len(),
        final(data)@.to_multiset() == old(data)@.to_multiset(),
{
    let mut rng = Rand::with_seed();
    shuffle_with(data, &mut rng);
}


/// The contents of each batch, in order.
pub open spec fn batch_views<T>(batches: Seq<Vec<T>>) -> Seq<Seq<T>> {
    batches.map_values(|b: Vec<T>| b@)
}

/// Whether `batches` cuts `records` into consecutive runs of `batch_size`
/// records each, of which only the last may be shorter (and none is empty).
pub open spec fn is_batching<T>(records: Seq<T>, batches: Seq<Seq<T>>, batch_size: nat) -> bool {
    &&& batches.flatten() == records
    &&& forall|i: int| 0 <= i < batches.len() ==> 0 < #[trigger] batches[i].len() <= batch_size
    &&& forall|i: int| 0 <= i < batches.len() - 1 ==> #[trigger] batches[i].len() == batch_size
}

/// Copies `records[start..end]` into a new vector.
fn copy_range<T: Copy>(records: &Vec<T>, start: usize, end: usize) -> (r: Vec<T>)
    requires
        start <= end <= records@.len(),
    ensures
        r@ == records@.subrange(start as int, end as int),
{
    let mut out: Vec<T> = Vec::new();
    let mut i = start;
    while i < end
        invariant
            start <= i <= end <= records@.len(),
            out@ == records@.subrange(start as int, i as int),
        decreases end - i,
    {
        out.push(records[i]);
        i = i + 1;
    }
    out
}

/// Cuts a shuffled buffer into consecutive batches of `batch_size` records;
/// the last batch holds what remains.
pub fn split_batches<T: Copy>(records: &Vec<T>, batch_size: usize) -> (r: Vec<Vec<T>>)
    requires
        batch_size > 0,
    ensures
        is_batching(records@, batch_views(r@), batch_size as nat),
{
    let n = records.len();
    let mut out: Vec<Vec<T>> = Vec::new();
    let mut start: usize = 0;
    while start < n
        invariant
            start <= n == records@.len(),
            batch_size > 0,
            start == n ==> out@.len() == 0,
            batch_views(out@).flatten() == records@.subrange(0, start as int),
            forall|i: int| 0 <= i < out@.len() ==> #[trigger] out@[i]@.len() == batch_size,
        decreases n - start,
    {
        let end = if n - start > batch_size { start + batch_size } else { n };
        let batch = copy_range(records, start, end);
        proof {
            let v = batch_views(out@);
            v.lemma_flatten_push(batch@);
            assert(batch_views(out@.push(batch)) =~= v.push(batch@));
            assert(records@.subrange(0, start as int) + records@.subrange(start as int, end as int)
                =~= records@.subrange(0, end as int));
        }
        out.push(batch);
        if end < n {
            proof {
                assert forall|i: int| 0 <= i < out@.len() implies #[trigger] out@[i]@.len()
                    == batch_size by {}
            }
        }
        start = end;
        if start == n {
            proof {
                assert(records@.subrange(0, n as int) =~= records@);
                let v = batch_views(out@);
                assert forall|i: int| 0 <= i < v.len() implies 0 < #[trigger] v[i].len()
                    <= batch_size by {}
                assert forall|i: int| 0 <= i < v.len() - 1 implies #[trigger] v[i].len()
                    == batch_size by {}
            }
            return out;
        }
    }
    proof {
        assert(records@.subrange(0, n as int) =~= records@);
        assert(out@.len() == 0);
        assert(batch_views(out@) =~= Seq::<Seq<T>>::empty());
    }
    out
}


/// Decode-stage buffer: collects records until `capacity` of them are held,
/// then hands the whole buffer on, permuted.
pub struct ShuffleBuffer<T> {
    buffer: Vec<T>,
    capacity: usize,
}

impl<T: Copy> ShuffleBuffer<T> {
    /// Records collected since the last full buffer was handed on.
    pub closed spec fn pending(&self) -> Seq<T> {
        self.buffer@
    }

    /// Number of records in a full buffer.
    pub closed spec fn capacity_spec(&self) -> nat {
        self.capacity as nat
    }

    pub closed spec fn wf(&self) -> bool {
        0 < self.capacity && self.buffer@.len() < self.capacity
    }

    pub fn new(capacity: usize) -> (r: Self)
        requires
            capacity > 0,
        ensures
            r.wf(),
            r.pending() == Seq::<T>::empty(),
            r.capacity_spec() == capacity,
    {
        ShuffleBuffer { buffer: Vec::new(), capacity }
    }

    /// Adds one record. When this fills the buffer, the buffer is permuted with
    /// `rng` and returned, and collection starts afresh.
    pub fn push(&mut self, record: T, rng: &mut Rand) -> (r: Option<Vec<T>>)
        requires
            old(self).wf(),
        ensures
            final(self).wf(),
            final(self).capacity_spec() == old(self).capacity_spec(),
            old(self).pending().len() + 1 < old(self).capacity_spec() ==> {
                &&& r is None
                &&& final(self).pending() == old(self).pending().push(record)
                &&& *final(rng) == *old(rng)
            },
            old(self).pending().len() + 1 == old(self).capacity_spec() ==> {
                let full = old(self).pending().push(record);
                &&& r is Some
                &&& r->0@ == fisher_yates(full, old(rng).0, full.len()).0
                &&& final(rng).0 == xorshift_n(old(rng).0, full.len())
                &&& r->0@.len() == old(self).capacity_spec()
                &&& r->0@.to_multiset() == full.to_multiset()
                &&& final(self).pending() == Seq::<T>::empty()
            },
    {
        self.buffer.push(record);
        if self.buffer.len() == self.capacity {
            let mut full: Vec<T> = Vec::new();
            std::mem::swap(&mut full, &mut self.buffer);
            shuffle_with(&mut full, rng);
            Some(full)
        } else {
            None
        }
    }

    /// Hands out the partial buffer, leaving the stage empty.
    pub fn take_pending(&mut self) -> (r: Vec<T>)
        requires
            old(self).wf(),
        ensures
            r@ == old(self).pending(),
            final(self).wf(),
            final(self).pending() == Seq::<T>::empty(),
            final(self).capacity_spec() == old(self).capacity_spec(),
    {
        let mut out: Vec<T> = Vec::new();
        std::mem::swap(&mut out, &mut self.buffer);
        out
    }
}

/// The first `m` runs of `cap` records of `s` as the decode stage hands
/// them on: run `j` is `s[j*cap .. (j+1)*cap]` permuted by Fisher-Yates from
/// the generator state that the runs before it left behind.
pub open spec fn shuffled_runs<T>(s: Seq<T>, cap: nat, state: u64, m: nat) -> Seq<T>
    decreases m,
{
    if m == 0 {
        Seq::empty()
    } else {
        let start = (m - 1) * cap;
        shuffled_runs(s, cap, state, (m - 1) as nat) + fisher_yates(
            s.subrange(start, start + cap),
            xorshift_n(state, start as nat),
            cap,
        ).0
    }
}

proof fn lemma_xorshift_n_add(s: u64, a: nat, b: nat)
    ensures
        xorshift_n(xorshift_n(s, a), b) == xorshift_n(s, a + b),
    decreases a,
{
    if a > 0 {
        lemma_xorshift_n_add(xorshift(s), (a - 1) as nat, b);
    }
}

/// One pass over `source`: records go through the decode stage's shuffle
/// buffer, and each full buffer is cut into batches. Returns the batches in
/// the order they were handed on, and the records left in the partial buffer.
pub fn one_pass<T: Copy>(source: &Vec<T>, buffer_size: usize, batch_size: usize, rng: &mut Rand) -> (r: (
    Vec<Vec<T>>,
    Vec<T>,
))
    requires
        buffer_size > 0,
        batch_size > 0,
    ensures
        batch_views(r.0@).flatten() == shuffled_runs(
            source@,
            buffer_size as nat,
            old(rng).0,
            source@.len() / (buffer_size as nat),
        ),
        final(rng).0 == xorshift_n(old(rng).0, (source@.len() / (buffer_size as nat)) * (buffer_size as nat)),
        r.1@ == source@.subrange(source@.len() - r.1@.len(), source@.len() as int),
        batch_views(r.0@).flatten().to_multiset().add(r.1@.to_multiset()) == source@.to_multiset(),
        r.1@.len() == source@.len() % (buffer_size as nat),
        source@.len() % (buffer_size as nat) == 0 ==> batch_views(r.0@).flatten().to_multiset()
            == source@.to_multiset(),
        forall|i: int|
            0 <= i < r.0@.len() ==> 0 < #[trigger] r.0@[i]@.len() <= batch_size,
{
    let mut stage = ShuffleBuffer::new(buffer_size);
    let mut batches: Vec<Vec<T>> = Vec::new();
    let mut i: usize = 0;
    let ghost mut full_buffers: int = 0;
    while i < source.len()
        invariant
            i <= source@.len(),
            buffer_size > 0,
            batch_size > 0,
            stage.wf(),
            stage.capacity_spec() == buffer_size,
            full_buffers >= 0,
            full_buffers * buffer_size + stage.pending().len() == i,
            stage.pending() == source@.subrange(full_buffers * buffer_size, i as int),
            batch_views(batches@).flatten() == shuffled_runs(
                source@,
                buffer_size as nat,
                old(rng).0,
                full_buffers as nat,
            ),
            rng.0 == xorshift_n(old(rng).0, (full_buffers * buffer_size) as nat),
            batch_views(batches@).flatten().to_multiset().add(stage.pending().to_multiset())
                == source@.subrange(0, i as int).to_multiset(),
            forall|k: int|
                0 <= k < batches@.len() ==> 0 < #[trigger] batches@[k]@.len() <= batch_size,
        decreases source@.len() - i,
    {
        let record = source[i];
        let ghost before = stage.pending();
        let ghost done = batch_views(batches@).flatten();
        let ghost st = rng.0;
        assert(source@.subrange(0, i + 1) =~= source@.subrange(0, i as int).push(record));
        assert(source@.subrange(full_buffers * buffer_size, i + 1) =~= before.push(record));
        match stage.push(record, rng) {
            Some(full) => {
                let mut cut = split_batches(&full, batch_size);
                proof {
                    let m = full_buffers;
                    let cap = buffer_size as nat;
                    assert((m + 1) * cap == m * cap + cap) by (nonlinear_arith);
                    lemma_xorshift_n_add(old(rng).0, (m * cap) as nat, cap);
                    assert(shuffled_runs(source@, cap, old(rng).0, (m + 1) as nat) == done
                        + full@);
                    let old_views = batch_views(batches@);
                    let new_views = batch_views(cut@);
                    assert(batch_views(batches@ + cut@) =~= old_views + new_views);
                    vstd::seq_lib::lemma_flatten_concat(old_views, new_views);
                    vstd::seq_lib::lemma_multiset_commutative(done, full@);
                    full_buffers = full_buffers + 1;
                    assert(full_buffers * buffer_size == (full_buffers - 1) * buffer_size
                        + buffer_size) by (nonlinear_arith);
                    assert(source@.subrange(full_buffers * buffer_size, i + 1) =~= Seq::<T>::empty());
                }
                let ghost prior = batches@;
                let ghost added = cut@;
                batches.append(&mut cut);
                proof {
                    assert forall|k: int| 0 <= k < batches@.len() implies 0
                        < #[trigger] batches@[k]@.len() <= batch_size by {
                        if k >= prior.len() {
                            assert(batches@[k] == added[k - prior.len()]);
                            assert(batch_views(added)[k - prior.len()] == added[k - prior.len()]@);
                        } else {
                            assert(batches@[k] == prior[k]);
                        }
                    }
                }
            },
            None => {},
        }
        i = i + 1;
    }
    proof {
        assert(source@.subrange(0, i as int) =~= source@);
        vstd::arithmetic::div_mod::lemma_fundamental_div_mod_converse(
            i as int,
            buffer_size as int,
            full_buffers,
            stage.pending().len() as int,
        );
    }
    let leftover = stage.take_pending();
    proof {
        vstd::arithmetic::div_mod::lemma_fundamental_div_mod_converse(
            i as int,
            buffer_size as int,
            full_buffers,
            leftover@.len() as int,
        );
        if leftover@.len() == 0 {
            assert(leftover@.to_multiset() =~= Multiset::<T>::empty());
            assert(batch_views(batches@).flatten().to_multiset().add(Multiset::<T>::empty())
                =~= batch_views(batches@).flatten().to_multiset());
        }
    }
    (batches, leftover)
}


/// Shared shutdown state of the three pipeline stages: decode, batch and
/// consume. A stage that stops raises `cancelled`; each stage looks at it
/// (and at whether its downstream peer is gone) just before it hands data on.
pub struct PipelineControl {
    pub decoder_running: bool,
    pub batcher_running: bool,
    pub consumer_running: bool,
    pub cancelled: bool,
}

/// Whether every stage has terminated.
pub open spec fn all_stopped(c: PipelineControl) -> bool {
    !c.decoder_running && !c.batcher_running && !c.consumer_running
}

/// State after the consumer handled one batch and its callback answered `wants_stop`.
pub open spec fn after_consume(c: PipelineControl, wants_stop: bool) -> PipelineControl {
    if wants_stop {
        PipelineControl { consumer_running: false, cancelled: true, ..c }
    } else {
        c
    }
}

/// Whether a stage about to hand data on must stop instead.
pub open spec fn must_stop(cancelled: bool, downstream_running: bool) -> bool {
    cancelled || !downstream_running
}

/// State after the batch stage reached a hand-off.
pub open spec fn after_batcher_handoff(c: PipelineControl) -> PipelineControl {
    if must_stop(c.cancelled, c.consumer_running) {
        PipelineControl { batcher_running: false, cancelled: true, ..c }
    } else {
        c
    }
}

/// State after the decode stage reached a hand-off.
pub open spec fn after_decoder_handoff(c: PipelineControl) -> PipelineControl {
    if must_stop(c.cancelled, c.batcher_running) {
        PipelineControl { decoder_running: false, cancelled: true, ..c }
    } else {
        c
    }
}

impl PipelineControl {
    pub fn new() -> (r: PipelineControl)
        ensures
            r.decoder_running && r.batcher_running && r.consumer_running && !r.cancelled,
    {
        PipelineControl {
            decoder_running: true,
            batcher_running: true,
            consumer_running: true,
            cancelled: false,
        }
    }

    /// The consumer handled a batch; `wants_stop` is its callback's answer.
    /// Returns whether the consumer goes on.
    pub fn consumed(&mut self, wants_stop: bool) -> (go_on: bool)
        ensures
            *final(self) == after_consume(*old(self), wants_stop),
            go_on == !wants_stop,
    {
        if wants_stop {
            self.consumer_running = false;
            self.cancelled = true;
        }
        !wants_stop
    }

    /// The batch stage is about to hand a batch to the consumer. Returns
    /// whether it may; if not, it has stopped and cancellation is raised.
    pub fn batcher_handoff(&mut self) -> (send: bool)
        ensures
            *final(self) == after_batcher_handoff(*old(self)),
            send == !must_stop(old(self).cancelled, old(self).consumer_running),
    {
        if self.cancelled || !self.consumer_running {
            self.batcher_running = false;
            self.cancelled = true;
            false
        } else {
            true
        }
    }

    /// The decode stage is about to hand a full buffer to the batch stage.
    /// Returns whether it may; if not, it has stopped.
    pub fn decoder_handoff(&mut self) -> (send: bool)
        ensures
            *final(self) == after_decoder_handoff(*old(self)),
            send == !must_stop(old(self).cancelled, old(self).batcher_running),
    {
        if self.cancelled || !self.batcher_running {
            self.decoder_running = false;
            self.cancelled = true;
            false
        } else {
            true
        }
    }
}

/// Once the consumer asks to stop, the next hand-off of the batch stage and
/// then the next hand-off of the decode stage stop both: every stage has
/// terminated after at most two further hand-offs, whatever the state was and
/// however deep the queues are, and neither stage is left sending.
pub proof fn lemma_stop_reaches_all_stages(c: PipelineControl)
    requires
        c.consumer_running,
    ensures
        all_stopped(after_decoder_handoff(after_batcher_handoff(after_consume(c, true)))),
        !after_batcher_handoff(after_consume(c, true)).batcher_running,
{
}

/// Once cancellation is raised it stays raised, and a stage that reaches a
/// hand-off afterwards stops there.
pub proof fn lemma_cancellation_is_sticky(c: PipelineControl, wants_stop: bool)
    requires
        c.cancelled,
    ensures
        after_consume(c, wants_stop).cancelled,
        !after_batcher_handoff(c).batcher_running,
        after_batcher_handoff(c).cancelled,
        !after_decoder_handoff(c).decoder_running,
        after_decoder_handoff(c).cancelled,
{
}

} // verus!
