use vstd::prelude::*;
use vstd::string::StringSliceAdditionalSpecFns;
use crate::board::{nibble, occupied, occupied_squares, read_nibble};
use crate::pipeline::swap_entries;
use crate::epd::{
    all_placements, entries, fields, parse_i16_or, parse_result, parse_unsigned_or, placements_valid,
    result_code, rows, scan_board, signed_value, split_fields, split_rows, unsigned_value, value_or, views,
};

verus! {

broadcast use vstd::seq_lib::group_to_multiset_ensures, vstd::multiset::group_multiset_axioms;

/// Why a text position was rejected.
#[derive(Clone, Copy, Debug, PartialEq, Eq, Structural)]
pub enum EpdError {
    /// Fewer than eight whitespace-separated fields.
    MissingField,
    /// The board does not fit: a piece off the board, more than 32 pieces,
    /// or (black to move) more than 8 rows.
    BadBoard,
    /// The last field is not `[1.0]`, `[0.5]` or `[0.0]`.
    BadResult,
}

/// The error, if any, of a text position with fields `f`, whose board is
/// read from black's side when `black`.
pub open spec fn epd_error(f: Seq<Seq<u8>>, black: bool) -> Option<EpdError> {
    if f.len() < 8 {
        Some(EpdError::MissingField)
    } else if !placements_valid(rows(f[0]), black) {
        Some(EpdError::BadBoard)
    } else if result_code(f[7]) is None {
        Some(EpdError::BadResult)
    } else {
        None
    }
}

/// Whether the side-to-move field is `b`.
pub open spec fn black_to_move(f: Seq<Seq<u8>>) -> bool {
    f.len() > 1 && f[1] == seq![98u8]
}

fn is_black_field(f: &Vec<Vec<u8>>) -> (r: bool)
    ensures
        r == black_to_move(views(f@)),
{
    if f.len() > 1 && f[1].len() == 1 && f[1][0] == 98 {
        assert(f[1]@ =~= seq![98u8]);
        true
    } else {
        false
    }
}

/// Marlinformat record: a packed position with side to move, clocks, score
/// and game result. Piece entries hold the colour in bit 3 and the piece type
/// in the low three bits (type 6 is a rook that may still castle).
#[derive(Clone, Copy, Debug, Default)]
pub struct MarlinFormat {
    pub occ: u64,
    pub pcs: [u8; 16],
    pub stm_enp: u8,
    pub hfm: u8,
    pub fmc: u16,
    pub score: i16,
    pub result: u8,
    pub extra: u8,
}

/// One marlinformat piece entry as `(colour, piece type, square)`.
pub open spec fn marlin_feature(p: (u8, u8)) -> (u8, u8, u8) {
    let piece = p.0 & 7u8;
    (p.0 >> 3u8, if piece == 6 { 3u8 } else { piece }, p.1)
}

impl MarlinFormat {
    pub open spec fn stm_spec(&self) -> u8 {
        self.stm_enp >> 7u8
    }

    /// Reads a text record as `Position::from_epd` does, storing each piece
    /// as `colour << 3 | type` from white's point of view.
    pub fn from_epd(fen: &str) -> (r: Result<MarlinFormat, EpdError>)
        ensures
            ({
                let f = fields(fen.spec_bytes());
                &&& epd_error(f, false) is Some <==> r is Err
                &&& r is Err ==> r == Err::<MarlinFormat, EpdError>(epd_error(f, false)->0)
                &&& r is Ok ==> {
                    let p = r->Ok_0;
                    let e = entries(all_placements(rows(f[0]), false)).map_values(
                        |x: (u8, u8)| relative_entry(x, false),
                    );
                    &&& p.occ == occ_of(e)
                    &&& packs(p.pcs@, e)
                    &&& p.stm_enp == if black_to_move(f) {
                        128u8
                    } else {
                        0u8
                    }
                    &&& p.hfm == value_or(unsigned_value(f[4]), 0, 255, 0)
                    &&& p.fmc == value_or(unsigned_value(f[5]), 0, 65535, 1)
                    &&& p.score == value_or(signed_value(f[6]), i16::MIN as int, i16::MAX as int, 0)
                    &&& p.result == result_code(f[7])->0
                    &&& p.extra == 0
                }
            }),
    {
        let f = split_fields(fen.as_bytes());
        if f.len() < 8 {
            return Err(EpdError::MissingField);
        }
        let rs = split_rows(&f[0]);
        let placed = match scan_board(&rs, false) {
            Some(v) => v,
            None => {
                return Err(EpdError::BadBoard);
            },
        };
        let result = match parse_result(&f[7]) {
            Some(x) => x,
            None => {
                return Err(EpdError::BadResult);
            },
        };
        let feats = relative_entries(&placed, false);
        let (occ, pcs) = pack_pieces(&feats);
        let black = is_black_field(&f);
        let hfm = parse_unsigned_or(&f[4], 255, 0) as u8;
        let fmc = parse_unsigned_or(&f[5], 65535, 1) as u16;
        let score = parse_i16_or(&f[6], 0);
        Ok(
            MarlinFormat {
                occ,
                pcs,
                stm_enp: if black {
                    128u8
                } else {
                    0u8
                },
                hfm,
                fmc,
                score,
                result,
                extra: 0,
            },
        )
    }

    /// The pieces in square order, as `(colour, piece type, square)`.
    pub open spec fn features_spec(&self) -> Seq<(u8, u8, u8)> {
        occupied(self.occ, self.pcs@, 0).map_values(|p: (u8, u8)| marlin_feature(p))
    }

    pub fn score(&self) -> (r: i16)
        ensures
            r == self.score,
    {
        self.score
    }

    pub fn result_idx(&self) -> (r: usize)
        ensures
            r == self.result,
    {
        self.result as usize
    }

    /// 1 when black is to move, else 0.
    pub fn stm(&self) -> (r: usize)
        ensures
            r == self.stm_spec(),
            r <= 1,
    {
        let s = self.stm_enp;
        assert(s >> 7u8 <= 1u8) by (bit_vector);
        (self.stm_enp >> 7u8) as usize
    }

    pub fn features(&self) -> (r: Vec<(u8, u8, u8)>)
        ensures
            r@ == self.features_spec(),
    {
        let sq = occupied_squares(self.occ, &self.pcs);
        let mut out: Vec<(u8, u8, u8)> = Vec::new();
        let mut i: usize = 0;
        while i < sq.len()
            invariant
                i <= sq@.len(),
                sq@ == occupied(self.occ, self.pcs@, 0),
                out@ == sq@.subrange(0, i as int).map_values(|p: (u8, u8)| marlin_feature(p)),
            decreases sq@.len() - i,
        {
            let (nib, square) = sq[i];
            let piece = nib & 7u8;
            let kind = if piece == 6 {
                3u8
            } else {
                piece
            };
            out.push((nib >> 3u8, kind, square));
            assert(sq@.subrange(0, i + 1).map_values(|p: (u8, u8)| marlin_feature(p))
                =~= sq@.subrange(0, i as int).map_values(|p: (u8, u8)| marlin_feature(p)).push(
                marlin_feature(sq@[i as int]),
            ));
            i = i + 1;
        }
        assert(sq@.subrange(0, sq@.len() as int) =~= sq@);
        out
    }
}

/// A position as written in a text record: white's point of view, pieces
/// packed with their index in "PNBRQKpnbrqk", black to move in bit 7 of
/// `stm_enp`, clocks, score and result (2, 1 or 0 half-points for white).
#[derive(Clone, Copy, Debug, Default)]
pub struct Position {
    pub occ: u64,
    pub pcs: [u8; 16],
    pub stm_enp: u8,
    pub hfm: u8,
    pub fmc: u16,
    pub score: i16,
    pub result: u8,
    pub extra: u8,
}

impl Position {
    pub open spec fn stm_spec(&self) -> u8 {
        self.stm_enp >> 7u8
    }

    pub fn score(&self) -> (r: i16)
        ensures
            r == self.score,
    {
        self.score
    }

    pub fn result_idx(&self) -> (r: usize)
        ensures
            r == self.result,
    {
        self.result as usize
    }

    /// 1 when black is to move, else 0.
    pub fn stm(&self) -> (r: usize)
        ensures
            r == self.stm_spec(),
            r <= 1,
    {
        let s = self.stm_enp;
        assert(s >> 7u8 <= 1u8) by (bit_vector);
        (self.stm_enp >> 7u8) as usize
    }

    /// The pieces in square order, as (index in "PNBRQKpnbrqk", square).
    pub fn features(&self) -> (r: Vec<(u8, u8)>)
        ensures
            r@ == occupied(self.occ, self.pcs@, 0),
    {
        occupied_squares(self.occ, &self.pcs)
    }

    /// Reads `<board> <side> <castling> <en passant> <halfmove> <fullmove>
    /// <score> <result>`. The board's rows run from rank 8 down to rank 1; a
    /// digit skips squares; pieces are packed in the order read (rank 1
    /// first). Unreadable clocks and score fall back to 0, 1 and 0.
    pub fn from_epd(fen: &str) -> (r: Result<Position, EpdError>)
        ensures
            ({
                let f = fields(fen.spec_bytes());
                &&& epd_error(f, false) is Some <==> r is Err
                &&& r is Err ==> r == Err::<Position, EpdError>(epd_error(f, false)->0)
                &&& r is Ok ==> {
                    let p = r->Ok_0;
                    let e = entries(all_placements(rows(f[0]), false));
                    &&& p.occ == occ_of(e)
                    &&& packs(p.pcs@, e)
                    &&& p.stm_enp == if black_to_move(f) {
                        128u8
                    } else {
                        0u8
                    }
                    &&& p.hfm == value_or(unsigned_value(f[4]), 0, 255, 0)
                    &&& p.fmc == value_or(unsigned_value(f[5]), 0, 65535, 1)
                    &&& p.score == value_or(signed_value(f[6]), i16::MIN as int, i16::MAX as int, 0)
                    &&& p.result == result_code(f[7])->0
                    &&& p.extra == 0
                }
            }),
    {
        let f = split_fields(fen.as_bytes());
        if f.len() < 8 {
            return Err(EpdError::MissingField);
        }
        let rs = split_rows(&f[0]);
        let placed = match scan_board(&rs, false) {
            Some(v) => v,
            None => {
                return Err(EpdError::BadBoard);
            },
        };
        let result = match parse_result(&f[7]) {
            Some(x) => x,
            None => {
                return Err(EpdError::BadResult);
            },
        };
        let (occ, pcs) = pack_pieces(&placed);
        let black = is_black_field(&f);
        let hfm = parse_unsigned_or(&f[4], 255, 0) as u8;
        let fmc = parse_unsigned_or(&f[5], 65535, 1) as u16;
        let score = parse_i16_or(&f[6], 0);
        Ok(
            Position {
                occ,
                pcs,
                stm_enp: if black {
                    128u8
                } else {
                    0u8
                },
                hfm,
                fmc,
                score,
                result,
                extra: 0,
            },
        )
    }
}

/// A training position from the side to move's point of view: pieces are
/// packed as in marlinformat (colour bit 3 meaning "theirs"), with the score
/// and result relative to the side to move and the square of its own king.
#[derive(Clone, Copy, Debug, Default, PartialEq, Eq)]
pub struct ChessBoard {
    pub occ: u64,
    pub pcs: [u8; 16],
    pub score: i16,
    pub result: u8,
    pub ksq: u8,
}

/// One board entry as `(colour, piece type, square, own king square)`.
pub open spec fn chess_feature(p: (u8, u8), ksq: u8) -> (u8, u8, u8, u8) {
    ((if p.0 & 8u8 > 0 { 1u8 } else { 0u8 }), p.0 & 7u8, p.1, ksq)
}

/// A marlinformat piece seen from the side to move: its entry is
/// `colour << 3 | piece`, and when black is to move colours are swapped and
/// ranks mirrored.
pub open spec fn relative_piece(f: (u8, u8, u8), stm: u8) -> (u8, u8) {
    let p = f.1 | (f.0 << 3u8);
    if stm == 1 {
        (p ^ 8u8, f.2 ^ 56u8)
    } else {
        (p, f.2)
    }
}

/// Square of the last entry that is the side to move's king, or 0.
pub open spec fn own_king(s: Seq<(u8, u8)>) -> u8
    decreases s.len(),
{
    if s.len() == 0 {
        0
    } else if s.last().0 == 5 {
        s.last().1
    } else {
        own_king(s.drop_last())
    }
}

/// The occupancy bits of a list of squares.
pub open spec fn occ_of(s: Seq<(u8, u8)>) -> u64
    decreases s.len(),
{
    if s.len() == 0 {
        0
    } else {
        occ_of(s.drop_last()) | (1u64 << s.last().1)
    }
}

/// Whether `s` is in increasing order of square.
pub open spec fn sorted_by_square(s: Seq<(u8, u8)>) -> bool {
    forall|a: int, b: int| 0 <= a <= b < s.len() ==> s[a].1 <= s[b].1
}

/// The entries of `s` packed four bits each: entry `k` is piece `k`, and all
/// entries after the last piece are 0.
pub open spec fn packs(pcs: Seq<u8>, s: Seq<(u8, u8)>) -> bool {
    &&& forall|k: int| 0 <= k < s.len() ==> #[trigger] nibble(pcs, k) == s[k].0
    &&& forall|k: int| s.len() <= k < 32 ==> #[trigger] nibble(pcs, k) == 0
}

/// Whether `b` holds the pieces `s` in square order, with score and result.
pub open spec fn holds_pieces(b: ChessBoard, s: Seq<(u8, u8)>) -> bool {
    exists|t: Seq<(u8, u8)>|
        {
            &&& t.to_multiset() == s.to_multiset()
            &&& sorted_by_square(t)
            &&& b.occ == occ_of(t)
            &&& packs(b.pcs@, t)
        }
}

proof fn lemma_set_low(b: u8, p: u8)
    requires
        b & 15u8 == 0,
        (b >> 4u8) & 15u8 == 0,
        p <= 15,
    ensures
        (b | p) & 15u8 == p,
        ((b | p) >> 4u8) & 15u8 == 0,
{
    assert((b | p) & 15u8 == p) by (bit_vector)
        requires
            b & 15u8 == 0,
            (b >> 4u8) & 15u8 == 0,
            p <= 15,
    ;
    assert(((b | p) >> 4u8) & 15u8 == 0) by (bit_vector)
        requires
            b & 15u8 == 0,
            (b >> 4u8) & 15u8 == 0,
            p <= 15,
    ;
}

proof fn lemma_set_high(b: u8, p: u8)
    requires
        (b >> 4u8) & 15u8 == 0,
        p <= 15,
    ensures
        (b | ((p << 4u8) as u8)) & 15u8 == b & 15u8,
        ((b | ((p << 4u8) as u8)) >> 4u8) & 15u8 == p,
{
    assert((b | ((p << 4u8) as u8)) & 15u8 == b & 15u8) by (bit_vector)
        requires
            p <= 15,
    ;
    assert(((b | ((p << 4u8) as u8)) >> 4u8) & 15u8 == p) by (bit_vector)
        requires
            (b >> 4u8) & 15u8 == 0,
            p <= 15,
    ;
}

/// Orders `v` by square (selection sort).
fn sort_by_square(v: &mut Vec<(u8, u8)>)
    ensures
        final(v)@.to_multiset() == old(v)@.to_multiset(),
        final(v)@.len() == old(v)@.len(),
        sorted_by_square(final(v)@),
{
    let n = v.len();
    let mut i: usize = 0;
    while i < n
        invariant
            i <= n == v@.len(),
            v@.to_multiset() == old(v)@.to_multiset(),
            sorted_by_square(v@.subrange(0, i as int)),
            forall|a: int, b: int| 0 <= a < i <= b < n ==> v@[a].1 <= v@[b].1,
        decreases n - i,
    {
        let mut m = i;
        let mut j = i + 1;
        while j < n
            invariant
                i <= m < n,
                i < j <= n == v@.len(),
                forall|b: int| i <= b < j ==> v@[m as int].1 <= v@[b].1,
            decreases n - j,
        {
            if v[j].1 < v[m].1 {
                m = j;
            }
            j = j + 1;
        }
        let ghost pre = v@;
        swap_entries(v, i, m);
        proof {
            assert forall|a: int, b: int| 0 <= a <= b < i + 1 implies #[trigger] v@[a].1
                <= #[trigger] v@[b].1 by {
                if b < i {
                    assert(pre.subrange(0, i as int)[a] == pre[a]);
                    assert(pre.subrange(0, i as int)[b] == pre[b]);
                    assert(v@[a] == pre[a]);
                    assert(v@[b] == pre[b]);
                } else if a < i {
                    assert(v@[a] == pre[a]);
                    assert(v@[b] == pre[m as int]);
                }
            }
            assert(sorted_by_square(v@.subrange(0, i + 1)));
            assert forall|a: int, b: int| 0 <= a < i + 1 <= b < n implies v@[a].1 <= v@[b].1 by {
                if a < i {
                    assert(v@[a] == pre[a]);
                } else {
                    assert(v@[a] == pre[m as int]);
                }
            }
        }
        i = i + 1;
    }
    assert(v@.subrange(0, n as int) =~= v@);
}

proof fn lemma_occupied_bounds(occ: u64, pcs: Seq<u8>, k: nat)
    requires
        k <= 32,
    ensures
        occupied(occ, pcs, k).len() <= 32 - k,
        forall|i: int|
            0 <= i < occupied(occ, pcs, k).len() ==> #[trigger] occupied(occ, pcs, k)[i].1 < 64
                && occupied(occ, pcs, k)[i].0 <= 15,
    decreases 32 - k,
{
    if occ != 0 && k < 32 {
        vstd::std_specs::bits::axiom_u64_trailing_zeros(occ);
        let b = pcs[k as int / 2];
        assert(b & 15u8 <= 15u8) by (bit_vector);
        assert((b >> 4u8) & 15u8 <= 15u8) by (bit_vector);
        lemma_occupied_bounds(occ & ((occ - 1) as u64), pcs, k + 1);
    }
}

proof fn lemma_relative_bounds(colour: u8, kind: u8, square: u8)
    requires
        colour <= 1,
        kind <= 7,
        square < 64,
    ensures
        kind | (colour << 3u8) <= 15,
        (kind | (colour << 3u8)) ^ 8u8 <= 15,
        square ^ 56u8 < 64,
{
    assert(kind | (colour << 3u8) <= 15) by (bit_vector)
        requires
            colour <= 1,
            kind <= 7,
    ;
    assert((kind | (colour << 3u8)) ^ 8u8 <= 15) by (bit_vector)
        requires
            colour <= 1,
            kind <= 7,
    ;
    assert(square ^ 56u8 < 64) by (bit_vector)
        requires
            square < 64,
    ;
}

/// Packs pieces in the given order: sets each square's occupancy bit and
/// stores piece `k` in entry `k`.
pub fn pack_pieces(feats: &Vec<(u8, u8)>) -> (r: (u64, [u8; 16]))
    requires
        feats@.len() <= 32,
        forall|j: int| 0 <= j < feats@.len() ==> #[trigger] feats@[j].0 <= 15 && feats@[j].1 < 64,
    ensures
        r.0 == occ_of(feats@),
        packs(r.1@, feats@),
{
    let mut occ: u64 = 0;
    let mut pcs: [u8; 16] = [0u8; 16];
    proof {
        assert forall|k: int| 0 <= k < 32 implies #[trigger] nibble(pcs@, k) == 0 by {
            let z = pcs@[k / 2];
            assert(z == 0);
            assert(z & 15u8 == 0 && (z >> 4u8) & 15u8 == 0) by (bit_vector)
                requires
                    z == 0,
            ;
        }
    }
    let mut idx: usize = 0;
    while idx < feats.len()
        invariant
            feats@.len() <= 32,
            forall|j: int| 0 <= j < feats@.len() ==> #[trigger] feats@[j].0 <= 15 && feats@[j].1 < 64,
            idx <= feats@.len(),
            occ == occ_of(feats@.subrange(0, idx as int)),
            packs(pcs@, feats@.subrange(0, idx as int)),
        decreases feats@.len() - idx,
    {
        let (piece, square) = feats[idx];
        let ghost before = pcs@;
        occ = occ | (1u64 << square);
        let j = idx / 2;
        let b = pcs[j];
        if idx % 2 == 0 {
            proof {
                assert(nibble(before, idx as int) == 0);
                assert(nibble(before, idx + 1) == 0);
                lemma_set_low(b, piece);
            }
            pcs[j] = b | piece;
        } else {
            proof {
                assert(nibble(before, idx as int) == 0);
                lemma_set_high(b, piece);
            }
            pcs[j] = b | ((piece << 4u8) as u8);
        }
        proof {
            let done = feats@.subrange(0, idx + 1);
            let prior = feats@.subrange(0, idx as int);
            assert(done.drop_last() =~= prior);
            assert forall|k: int| 0 <= k < 32 implies #[trigger] nibble(pcs@, k) == (if k
                < idx + 1 {
                done[k].0
            } else {
                0u8
            }) by {
                let old_nib = nibble(before, k);
                if k / 2 != j as int {
                    assert(pcs@[k / 2] == before[k / 2]);
                    if k < idx {
                        assert(done[k] == prior[k]);
                    }
                } else if k == idx as int {
                } else if idx % 2 == 0 {
                    assert(k == idx + 1);
                } else {
                    assert(k == idx - 1);
                    assert(done[k] == prior[k]);
                    assert(nibble(before, k) == prior[k].0);
                }
            }
            assert forall|k: int| 0 <= k < done.len() implies #[trigger] nibble(pcs@, k)
                == done[k].0 by {
                assert(nibble(pcs@, k) == done[k].0);
            }
            assert forall|k: int| done.len() <= k < 32 implies #[trigger] nibble(pcs@, k) == 0 by {
                assert(nibble(pcs@, k) == 0);
            }
        }
        idx = idx + 1;
    }
    assert(feats@.subrange(0, feats@.len() as int) =~= feats@);
    (occ, pcs)
}

/// A text-record piece seen from the side to move: its index in
/// "PNBRQKpnbrqk" becomes `colour << 3 | type`, and with black to move the
/// colours are swapped and the square mirrored.
pub open spec fn relative_entry(e: (u8, u8), black: bool) -> (u8, u8) {
    let piece = ((e.0 / 6) << 3u8) | (e.0 % 6);
    if black {
        (piece ^ 8u8, e.1 ^ 56u8)
    } else {
        (piece, e.1)
    }
}

/// `-v`, where the negation of the least value is that value again.
pub open spec fn neg_i16(v: i16) -> i16 {
    if v == i16::MIN {
        i16::MIN
    } else {
        (-v) as i16
    }
}

/// The pieces seen from the side to move (see `relative_entry`), and the
/// square of the last one that is the side to move's king (or 0).
fn relative_entries_with_king(placed: &Vec<(u8, u8)>, black: bool) -> (r: (Vec<(u8, u8)>, u8))
    requires
        placed@.len() <= 32,
        forall|j: int| 0 <= j < placed@.len() ==> #[trigger] placed@[j].0 <= 11 && placed@[j].1 < 64,
    ensures
        r.0@ == placed@.map_values(|x: (u8, u8)| relative_entry(x, black)),
        r.1 == own_king(r.0@),
        r.0@.len() <= 32,
        forall|j: int| 0 <= j < r.0@.len() ==> #[trigger] r.0@[j].0 <= 15 && r.0@[j].1 < 64,
{
    let ghost target = placed@.map_values(|x: (u8, u8)| relative_entry(x, black));
    let mut feats: Vec<(u8, u8)> = Vec::new();
    let mut ksq: u8 = 0;
    let mut i: usize = 0;
    while i < placed.len()
        invariant
            placed@.len() <= 32,
            forall|j: int| 0 <= j < placed@.len() ==> #[trigger] placed@[j].0 <= 11 && placed@[j].1 < 64,
            target == placed@.map_values(|x: (u8, u8)| relative_entry(x, black)),
            i <= placed@.len(),
            feats@ == target.subrange(0, i as int),
            ksq == own_king(feats@),
            forall|j: int| 0 <= j < feats@.len() ==> #[trigger] feats@[j].0 <= 15 && feats@[j].1 < 64,
        decreases placed@.len() - i,
    {
        let (p, sq) = placed[i];
        let mut piece = ((p / 6) << 3u8) | (p % 6);
        let mut square = sq;
        proof {
            let q = p / 6;
            let m = p % 6;
            assert(q <= 1 && m <= 5);
            assert((q << 3u8) | m <= 15) by (bit_vector)
                requires
                    q <= 1,
                    m <= 5,
            ;
            assert(((q << 3u8) | m) ^ 8u8 <= 15) by (bit_vector)
                requires
                    q <= 1,
                    m <= 5,
            ;
            assert(sq ^ 56u8 < 64) by (bit_vector)
                requires
                    sq < 64,
            ;
        }
        if black {
            piece = piece ^ 8u8;
            square = square ^ 56u8;
        }
        let ghost prev = feats@;
        feats.push((piece, square));
        assert(target.subrange(0, i + 1) =~= target.subrange(0, i as int).push(target[i as int]));
        assert(feats@.drop_last() =~= prev);
        if piece == 5 {
            ksq = square;
        }
        i = i + 1;
    }
    assert(target.subrange(0, placed@.len() as int) =~= target);
    (feats, ksq)
}

/// The pieces seen from the side to move (see `relative_entry`).
fn relative_entries(placed: &Vec<(u8, u8)>, black: bool) -> (r: Vec<(u8, u8)>)
    requires
        placed@.len() <= 32,
        forall|j: int| 0 <= j < placed@.len() ==> #[trigger] placed@[j].0 <= 11 && placed@[j].1 < 64,
    ensures
        r@ == placed@.map_values(|x: (u8, u8)| relative_entry(x, black)),
        r@.len() <= 32,
        forall|j: int| 0 <= j < r@.len() ==> #[trigger] r@[j].0 <= 15 && r@[j].1 < 64,
{
    relative_entries_with_king(placed, black).0
}

impl ChessBoard {
    /// Reads `<board> <side> <castling> <en passant> <halfmove> <fullmove>
    /// <score> <result>` from the side to move's point of view: with black to
    /// move, colours are swapped, squares mirrored, score negated and result
    /// reversed. An unreadable score counts as 0.
    pub fn from_epd(fen: &str) -> (r: Result<ChessBoard, EpdError>)
        ensures
            ({
                let f = fields(fen.spec_bytes());
                let black = black_to_move(f);
                &&& epd_error(f, black) is Some <==> r is Err
                &&& r is Err ==> r == Err::<ChessBoard, EpdError>(epd_error(f, black)->0)
                &&& r is Ok ==> {
                    let b = r->Ok_0;
                    let e = entries(all_placements(rows(f[0]), black)).map_values(
                        |x: (u8, u8)| relative_entry(x, black),
                    );
                    let score = value_or(signed_value(f[6]), i16::MIN as int, i16::MAX as int, 0) as i16;
                    let res = result_code(f[7])->0;
                    &&& b.occ == occ_of(e)
                    &&& packs(b.pcs@, e)
                    &&& b.ksq == own_king(e)
                    &&& b.score == if black {
                        neg_i16(score)
                    } else {
                        score
                    }
                    &&& b.result == if black {
                        2 - res
                    } else {
                        res as int
                    }
                }
            }),
    {
        let f = split_fields(fen.as_bytes());
        if f.len() < 8 {
            return Err(EpdError::MissingField);
        }
        let black = is_black_field(&f);
        let rs = split_rows(&f[0]);
        let placed = match scan_board(&rs, black) {
            Some(v) => v,
            None => {
                return Err(EpdError::BadBoard);
            },
        };
        let code = match parse_result(&f[7]) {
            Some(x) => x,
            None => {
                return Err(EpdError::BadResult);
            },
        };
        let (feats, ksq) = relative_entries_with_king(&placed, black);
        let (occ, pcs) = pack_pieces(&feats);
        let parsed = parse_i16_or(&f[6], 0);
        let (score, result) = if black {
            (if parsed == i16::MIN {
                i16::MIN
            } else {
                -parsed
            }, 2 - code)
        } else {
            (parsed, code)
        };
        Ok(ChessBoard { occ, pcs, score, result, ksq })
    }

    /// Converts a marlinformat record to the side to move's point of view:
    /// when black is to move, colours are swapped, ranks mirrored, and score
    /// and result negated. Pieces are packed in square order.
    pub fn from_marlinformat(mf: &MarlinFormat) -> (r: ChessBoard)
        requires
            mf.result <= 2,
            mf.stm_spec() == 1 ==> mf.score != i16::MIN,
        ensures
            r.score == if mf.stm_spec() == 1 {
                -mf.score
            } else {
                mf.score as int
            },
            r.result == if mf.stm_spec() == 1 {
                2 - mf.result
            } else {
                mf.result as int
            },
            r.ksq == own_king(mf.features_spec().map_values(|f: (u8, u8, u8)| relative_piece(f, mf.stm_spec()))),
            holds_pieces(r, mf.features_spec().map_values(|f: (u8, u8, u8)| relative_piece(f, mf.stm_spec()))),
    {
        let stm = mf.stm();
        let ghost stm8 = mf.stm_spec();
        let (score, result) = if stm == 1 {
            (-mf.score(), 2 - mf.result)
        } else {
            (mf.score(), mf.result)
        };
        let mff = mf.features();
        proof {
            let occd = occupied(mf.occ, mf.pcs@, 0);
            lemma_occupied_bounds(mf.occ, mf.pcs@, 0);
            assert forall|j: int| 0 <= j < mff@.len() implies #[trigger] mff@[j].0 <= 1 && mff@[j].1
                <= 7 && mff@[j].2 < 64 by {
                assert(mff@.len() == occd.len());
                assert(mff@[j] == marlin_feature(occd[j]));
                let nib = occd[j].0;
                assert(occd[j].1 < 64);
                assert(occd[j].0 <= 15);
                assert(nib >> 3u8 <= 1 && nib & 7u8 <= 7) by (bit_vector)
                    requires
                        nib <= 15,
                ;
            }
        }
        let ghost target = mff@.map_values(|f: (u8, u8, u8)| relative_piece(f, stm8));
        let mut feats: Vec<(u8, u8)> = Vec::new();
        let mut ksq: u8 = 0;
        let mut i: usize = 0;
        while i < mff.len()
            invariant
                stm == stm8,
                stm <= 1,
                mff@ == mf.features_spec(),
                mff@.len() <= 32,
                forall|j: int| 0 <= j < mff@.len() ==> #[trigger] mff@[j].0 <= 1 && mff@[j].1 <= 7
                    && mff@[j].2 < 64,
                target == mff@.map_values(|f: (u8, u8, u8)| relative_piece(f, stm8)),
                i <= mff@.len(),
                feats@ == target.subrange(0, i as int),
                ksq == own_king(feats@),
                forall|j: int| 0 <= j < feats@.len() ==> #[trigger] feats@[j].0 <= 15 && feats@[j].1 < 64,
            decreases mff@.len() - i,
        {
            let (colour, kind, sq) = mff[i];
            proof {
                lemma_relative_bounds(colour, kind, sq);
            }
            let mut piece = kind | (colour << 3u8);
            let mut square = sq;
            if stm == 1 {
                piece = piece ^ 8u8;
                square = square ^ 56u8;
            }
            let ghost prev = feats@;
            feats.push((piece, square));
            assert(target.subrange(0, i + 1) =~= target.subrange(0, i as int).push(target[i as int]));
            assert(feats@.drop_last() =~= prev);
            if piece == 5 {
                ksq = square;
            }
            i = i + 1;
        }
        assert(target.subrange(0, mff@.len() as int) =~= target);
        let ghost unsorted = feats@;
        sort_by_square(&mut feats);
        proof {
            assert forall|j: int| 0 <= j < feats@.len() implies #[trigger] feats@[j].0 <= 15
                && feats@[j].1 < 64 by {
                assert(feats@.to_multiset().count(feats@[j]) > 0);
                assert(unsorted.contains(feats@[j]));
            }
        }
        let (occ, pcs) = pack_pieces(&feats);
        proof {
            assert(feats@.to_multiset() == target.to_multiset());
        }
        ChessBoard { occ, pcs, score, result, ksq }
    }

    pub open spec fn features_spec(&self) -> Seq<(u8, u8, u8, u8)> {
        let ksq = self.ksq;
        occupied(self.occ, self.pcs@, 0).map_values(|p: (u8, u8)| chess_feature(p, ksq))
    }

    pub fn score(&self) -> (r: i16)
        ensures
            r == self.score,
    {
        self.score
    }

    pub fn result_idx(&self) -> (r: usize)
        ensures
            r == self.result,
    {
        self.result as usize
    }

    /// The pieces in square order, as `(colour, piece type, square, own king square)`.
    pub fn features(&self) -> (r: Vec<(u8, u8, u8, u8)>)
        ensures
            r@ == self.features_spec(),
    {
        let sq = occupied_squares(self.occ, &self.pcs);
        let ksq = self.ksq;
        let mut out: Vec<(u8, u8, u8, u8)> = Vec::new();
        let mut i: usize = 0;
        while i < sq.len()
            invariant
                i <= sq@.len(),
                ksq == self.ksq,
                sq@ == occupied(self.occ, self.pcs@, 0),
                out@ == sq@.subrange(0, i as int).map_values(|p: (u8, u8)| chess_feature(p, ksq)),
            decreases sq@.len() - i,
        {
            let (nib, square) = sq[i];
            let colour = if nib & 8u8 > 0 {
                1u8
            } else {
                0u8
            };
            out.push((colour, nib & 7u8, square, ksq));
            assert(sq@.subrange(0, i + 1).map_values(|p: (u8, u8)| chess_feature(p, ksq))
                =~= sq@.subrange(0, i as int).map_values(|p: (u8, u8)| chess_feature(p, ksq)).push(
                chess_feature(sq@[i as int], ksq),
            ));
            i = i + 1;
        }
        assert(sq@.subrange(0, sq@.len() as int) =~= sq@);
        out
    }
}

} // verus!
