use vstd::prelude::*;

verus! {

/// Largest number of active features a chess position has: one per piece.
pub const MAX_FEATURES: usize = 32;

/// Feature index of `sq` seen from the other side: the rank is mirrored.
pub open spec fn flip_rank(sq: usize) -> usize {
    sq ^ 56usize
}

/// Chess input: 768 features, one per (colour, piece type, square), seen
/// from each side. A feature is `(piece, square, our_king, opp_king)` where
/// bit 3 of `piece` is the colour and its low three bits the piece type.
pub struct Chess768;

/// The `(ours, theirs)` indices of a Chess768 feature.
pub open spec fn chess768_indices(piece: u8, square: u8) -> (int, int) {
    let c = piece & 8u8 > 0;
    let pc = 64 * (piece & 7u8) as usize;
    let sq = square as usize;
    (
        (if c { 384usize } else { 0usize }) + pc + sq,
        (if c { 0usize } else { 384usize }) + pc + flip_rank(sq),
    )
}

impl Chess768 {
    pub fn size(&self) -> (r: usize)
        ensures
            r == 768,
    {
        768
    }

    pub fn max_active(&self) -> (r: usize)
        ensures
            r == MAX_FEATURES,
    {
        MAX_FEATURES
    }

    pub fn get_feature_indices(feat: (u8, u8, u8, u8)) -> (r: (usize, usize))
        ensures
            r.0 == chess768_indices(feat.0, feat.1).0,
            r.1 == chess768_indices(feat.0, feat.1).1,
    {
        let (piece, square, _, _) = feat;
        let c = piece & 8u8 > 0;
        let pc = 64 * ((piece & 7u8) as usize);
        let sq = square as usize;
        assert(piece & 7u8 <= 7u8) by (bit_vector);
        assert(sq ^ 56usize <= 255usize) by (bit_vector)
            requires
                sq <= 255usize,
        ;
        let wfeat = (if c { 384usize } else { 0usize }) + pc + sq;
        let bfeat = (if c { 0usize } else { 384usize }) + pc + (sq ^ 56usize);
        (wfeat, bfeat)
    }
}

/// Number of king buckets a table uses: one more than its largest entry.
pub open spec fn num_buckets_of(table: Seq<usize>) -> nat
    decreases table.len(),
{
    if table.len() == 0 {
        1
    } else {
        let rest = num_buckets_of(table.drop_last());
        if table.last() + 1 > rest {
            (table.last() + 1) as nat
        } else {
            rest
        }
    }
}

/// One more than the largest entry of `arr` (1 for an empty table).
pub fn get_num_buckets(arr: &[usize]) -> (r: usize)
    requires
        forall|i: int| 0 <= i < arr@.len() ==> arr@[i] < usize::MAX,
    ensures
        r == num_buckets_of(arr@),
{
    let mut max: usize = 0;
    let mut i: usize = 0;
    while i < arr.len()
        invariant
            i <= arr@.len(),
            forall|j: int| 0 <= j < arr@.len() ==> arr@[j] < usize::MAX,
            max < usize::MAX,
            max + 1 == num_buckets_of(arr@.subrange(0, i as int)),
        decreases arr@.len() - i,
    {
        assert(arr@.subrange(0, i as int + 1).drop_last() =~= arr@.subrange(0, i as int));
        if arr[i] > max {
            max = arr[i];
        }
        i = i + 1;
    }
    assert(arr@.subrange(0, arr@.len() as int) =~= arr@);
    max + 1
}

/// Chess input split into king buckets: the Chess768 features are repeated
/// once per bucket, and the bucket of a feature is that of its own side's king
/// square.
pub struct ChessBuckets {
    pub buckets: [usize; 64],
    pub num_buckets: usize,
}

/// The `(ours, theirs)` indices of a bucketed feature.
pub open spec fn bucketed_indices(buckets: Seq<usize>, feat: (u8, u8, u8, u8)) -> (int, int) {
    let (w, b) = chess768_indices(feat.0, feat.1);
    (
        768 * buckets[(feat.2 & 63u8) as int] + w,
        768 * buckets[(feat.3 & 63u8) as int] + b,
    )
}

impl ChessBuckets {
    /// `buckets` maps each king square to its bucket.
    pub fn new(buckets: [usize; 64]) -> (r: ChessBuckets)
        requires
            forall|i: int| 0 <= i < 64 ==> buckets@[i] < 1024,
        ensures
            r.buckets == buckets,
            r.num_buckets == num_buckets_of(buckets@),
    {
        let n = get_num_buckets(&buckets);
        ChessBuckets { buckets, num_buckets: n }
    }

    /// The king square of each side selects the bucket; a square is read
    /// modulo 64.
    pub fn get_feature_indices(&self, feat: (u8, u8, u8, u8)) -> (r: (usize, usize))
        requires
            forall|i: int| 0 <= i < 64 ==> self.buckets@[i] < 1024,
        ensures
            r.0 == bucketed_indices(self.buckets@, feat).0,
            r.1 == bucketed_indices(self.buckets@, feat).1,
    {
        let (w, b) = Chess768::get_feature_indices(feat);
        let (piece, square, our_ksq, opp_ksq) = feat;
        let our = (our_ksq & 63u8) as usize;
        let opp = (opp_ksq & 63u8) as usize;
        assert(our_ksq & 63u8 < 64u8) by (bit_vector);
        assert(opp_ksq & 63u8 < 64u8) by (bit_vector);
        assert(w <= 2000 && b <= 2000) by {
            let sq = square as usize;
            assert(piece & 7u8 <= 7u8) by (bit_vector);
            assert(sq ^ 56usize <= 255usize) by (bit_vector)
                requires
                    sq <= 255usize,
            ;
        }
        (768 * self.buckets[our] + w, 768 * self.buckets[opp] + b)
    }
}

/// Ataxx input: 147 features, one per (piece kind, square) on the 7x7 board.
pub struct Ataxx147;

/// `sq` on a 7x7 board seen from the other side: the row is mirrored.
pub open spec fn ataxx_flip(sq: int) -> int {
    7 * (6 - sq / 7) + sq % 7
}

impl Ataxx147 {
    pub fn size(&self) -> (r: usize)
        ensures
            r == 147,
    {
        147
    }

    pub fn get_feature_indices(feat: (u8, u8)) -> (r: (usize, usize))
        requires
            feat.1 < 49,
        ensures
            r.0 == 49 * feat.0 + feat.1,
            r.1 == 49 * feat.0 + ataxx_flip(feat.1 as int),
    {
        let pc = 49 * (feat.0 as usize);
        let sq = feat.1 as usize;
        (pc + sq, pc + 7 * (6 - sq / 7) + sq % 7)
    }
}

/// A pair of feature indices, ours and theirs, as stored for the device.
#[derive(Clone, Copy, Debug, Default, PartialEq, Eq, Structural)]
pub struct Feat {
    pub our: u16,
    pub opp: u16,
}

/// Marks the end of a sample's feature list.
pub const SENTINEL: u16 = 0xFFFF;

impl Feat {
    pub fn new(our: u16, opp: u16) -> (r: Feat)
        ensures
            r.our == our && r.opp == opp,
    {
        Feat { our, opp }
    }

    pub fn our(&self) -> (r: usize)
        ensures
            r == self.our,
    {
        self.our as usize
    }

    pub fn opp(&self) -> (r: usize)
        ensures
            r == self.opp,
    {
        self.opp as usize
    }
}

/// The active features of one sample, as fixed-width records for the device.
pub struct BoardCUDA {
    pub features: [u16; 32],
}

/// Slot `j` of a record holding `n` features whose indices are `idx(k)`.
pub open spec fn record_entry(n: int, idx: spec_fn(int) -> u16, j: int) -> u16 {
    if j < n {
        idx(j)
    } else if j == n {
        SENTINEL
    } else {
        0
    }
}

impl BoardCUDA {
    /// Width of a record: the largest number of active features.
    pub fn len() -> (r: usize)
        ensures
            r == MAX_FEATURES,
    {
        MAX_FEATURES
    }

    /// The records of one position for each side: the feature indices in
    /// order, then a sentinel when there is room, then zeroes.
    pub fn from_features(feats: &Vec<(usize, usize)>) -> (r: (BoardCUDA, BoardCUDA))
        requires
            feats@.len() <= MAX_FEATURES,
            forall|k: int| 0 <= k < feats@.len() ==> (#[trigger] feats@[k]).0 <= u16::MAX && feats@[k].1 <= u16::MAX,
        ensures
            forall|j: int|
                0 <= j < MAX_FEATURES ==> #[trigger] r.0.features@[j] == record_entry(
                    feats@.len() as int,
                    |k: int| feats@[k].0 as u16,
                    j,
                ) && r.1.features@[j] == record_entry(feats@.len() as int, |k: int| feats@[k].1 as u16, j),
    {
        let mut our = [0u16; 32];
        let mut opp = [0u16; 32];
        let n = feats.len();
        let mut i: usize = 0;
        while i < n
            invariant
                n == feats@.len() <= MAX_FEATURES,
                forall|k: int| 0 <= k < feats@.len() ==> (#[trigger] feats@[k]).0 <= u16::MAX && feats@[k].1 <= u16::MAX,
                i <= n,
                forall|j: int| 0 <= j < i ==> our@[j] == feats@[j].0 as u16 && opp@[j] == feats@[j].1 as u16,
                forall|j: int| i <= j < MAX_FEATURES ==> our@[j] == 0 && opp@[j] == 0,
            decreases n - i,
        {
            let (w, b) = feats[i];
            our[i] = w as u16;
            opp[i] = b as u16;
            i = i + 1;
        }
        if n < MAX_FEATURES {
            our[n] = SENTINEL;
            opp[n] = SENTINEL;
        }
        (BoardCUDA { features: our }, BoardCUDA { features: opp })
    }
}

/// Feature pairs collected for one position, read back in order.
pub struct Features {
    pub features: Vec<(usize, usize)>,
    pub consumed: usize,
}

impl Features {
    pub fn new() -> (r: Features)
        ensures
            r.features@.len() == 0,
            r.consumed == 0,
    {
        Features { features: Vec::new(), consumed: 0 }
    }

    /// Records one active feature; a position has at most `MAX_FEATURES`.
    pub fn push(&mut self, wfeat: usize, bfeat: usize)
        requires
            old(self).features@.len() < MAX_FEATURES,
        ensures
            final(self).features@ == old(self).features@.push((wfeat, bfeat)),
            final(self).consumed == old(self).consumed,
    {
        self.features.push((wfeat, bfeat));
    }

    /// The next feature not yet read, if any.
    pub fn next(&mut self) -> (r: Option<(usize, usize)>)
        requires
            old(self).consumed <= old(self).features@.len(),
        ensures
            final(self).features == old(self).features,
            old(self).consumed == old(self).features@.len() ==> r is None && final(self).consumed
                == old(self).consumed,
            old(self).consumed < old(self).features@.len() ==> r == Some(
                old(self).features@[old(self).consumed as int],
            ) && final(self).consumed == old(self).consumed + 1,
    {
        if self.consumed == self.features.len() {
            None
        } else {
            let f = self.features[self.consumed];
            self.consumed = self.consumed + 1;
            Some(f)
        }
    }
}

} // verus!
