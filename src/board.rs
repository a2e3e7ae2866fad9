use vstd::prelude::*;
use vstd::std_specs::bits::u64_trailing_zeros;

verus! {

/// Four-bit entry `k` of a packed piece list: entry `2j` is the low half of
/// byte `j`, entry `2j + 1` its high half.
pub open spec fn nibble(pcs: Seq<u8>, k: int) -> u8 {
    if k % 2 == 0 {
        pcs[k / 2] & 15u8
    } else {
        (pcs[k / 2] >> 4u8) & 15u8
    }
}

/// The occupied squares of `occ` in increasing order, each with the packed
/// piece entry that belongs to it, starting at entry `k`; at most 32 in all.
pub open spec fn occupied(occ: u64, pcs: Seq<u8>, k: nat) -> Seq<(u8, u8)>
    decreases 32 - k,
{
    if occ == 0 || k >= 32 {
        Seq::empty()
    } else {
        seq![(nibble(pcs, k as int), u64_trailing_zeros(occ) as u8)] + occupied(
            occ & ((occ - 1) as u64),
            pcs,
            k + 1,
        )
    }
}

/// Reads piece entry `k` of `pcs`.
pub fn read_nibble(pcs: &[u8; 16], k: usize) -> (r: u8)
    requires
        k < 32,
    ensures
        r == nibble(pcs@, k as int),
        r <= 15,
{
    let byte = pcs[k / 2];
    if k % 2 == 0 {
        assert(byte & 15u8 <= 15u8) by (bit_vector);
        byte & 15u8
    } else {
        assert((byte >> 4u8) & 15u8 <= 15u8) by (bit_vector);
        (byte >> 4u8) & 15u8
    }
}

/// The (piece entry, square) pairs of a packed board, in square order: the
/// lowest occupied square takes entry 0, the next entry 1, and so on.
pub fn occupied_squares(occ: u64, pcs: &[u8; 16]) -> (r: Vec<(u8, u8)>)
    ensures
        r@ == occupied(occ, pcs@, 0),
{
    let mut out: Vec<(u8, u8)> = Vec::new();
    let mut rest = occ;
    let mut idx: usize = 0;
    while rest != 0 && idx < 32
        invariant
            idx <= 32,
            occupied(occ, pcs@, 0) == out@ + occupied(rest, pcs@, idx as nat),
        decreases 32 - idx,
    {
        let square = rest.trailing_zeros() as u8;
        proof {
            vstd::std_specs::bits::axiom_u64_trailing_zeros(rest);
        }
        let piece = read_nibble(pcs, idx);
        let ghost tail = occupied(rest & ((rest - 1) as u64), pcs@, idx as nat + 1);
        assert(occupied(rest, pcs@, idx as nat) == seq![(piece, square)] + tail);
        out.push((piece, square));
        assert(out@.drop_last() + (seq![(piece, square)] + tail) =~= out@ + tail);
        rest = rest & (rest - 1);
        idx = idx + 1;
    }
    assert(occupied(rest, pcs@, idx as nat) =~= Seq::<(u8, u8)>::empty());
    assert(out@ + Seq::<(u8, u8)>::empty() =~= out@);
    out
}

} // verus!
