use vstd::prelude::*;
use crate::board::occupied;
use crate::board::occupied_squares;
use crate::formats::ChessBoard;
use crate::inputs::{chess768_indices, Chess768, Feat, SENTINEL};

verus! {

/// The Chess768 `(ours, theirs)` feature indices of a board's pieces, in square order.
pub open spec fn board_indices(b: ChessBoard) -> Seq<(int, int)> {
    occupied(b.occ, b.pcs@, 0).map_values(|p: (u8, u8)| chess768_indices(p.0, p.1))
}

/// The Chess768 feature indices of each piece of `board`, in square order.
pub fn chess768_features(board: &ChessBoard) -> (r: Vec<(usize, usize)>)
    ensures
        r@.len() == board_indices(*board).len(),
        forall|i: int|
            0 <= i < r@.len() ==> (#[trigger] r@[i]).0 == board_indices(*board)[i].0 && r@[i].1
                == board_indices(*board)[i].1,
{
    let sq = occupied_squares(board.occ, &board.pcs);
    let mut out: Vec<(usize, usize)> = Vec::new();
    let mut i: usize = 0;
    while i < sq.len()
        invariant
            i <= sq@.len(),
            sq@ == occupied(board.occ, board.pcs@, 0),
            out@.len() == i,
            forall|j: int|
                0 <= j < i ==> (#[trigger] out@[j]).0 == board_indices(*board)[j].0 && out@[j].1
                    == board_indices(*board)[j].1,
        decreases sq@.len() - i,
    {
        let (piece, square) = sq[i];
        let f = Chess768::get_feature_indices((piece, square, board.ksq, 0));
        out.push(f);
        i = i + 1;
    }
    out
}

/// Slot `k` of the flat feature records: sample `k / width`, position
/// `k % width`; its features first, then one sentinel, then zeroes.
pub open spec fn record_slot(samples: Seq<Seq<(usize, usize)>>, width: int, k: int) -> Feat {
    let s = samples[k / width];
    let j = k % width;
    if j < s.len() {
        Feat { our: s[j].0 as u16, opp: s[j].1 as u16 }
    } else if j == s.len() {
        Feat { our: SENTINEL, opp: SENTINEL }
    } else {
        Feat { our: 0, opp: 0 }
    }
}

pub open spec fn sample_views(v: Seq<Vec<(usize, usize)>>) -> Seq<Seq<(usize, usize)>> {
    v.map_values(|x: Vec<(usize, usize)>| x@)
}

/// Lays out the features of each sample as a record of `width` slots, as the
/// sparse input batch takes them. Indices are stored in 16 bits.
pub fn layout_features(samples: &Vec<Vec<(usize, usize)>>, width: usize) -> (r: Vec<Feat>)
    requires
        width > 0,
        samples@.len() * width <= usize::MAX,
        forall|i: int| 0 <= i < samples@.len() ==> #[trigger] samples@[i]@.len() <= width,
        forall|i: int, j: int|
            0 <= i < samples@.len() && 0 <= j < samples@[i]@.len() ==> (#[trigger] samples@[i]@[j]).0
                <= u16::MAX && samples@[i]@[j].1 <= u16::MAX,
    ensures
        r@.len() == samples@.len() * width,
        forall|k: int|
            0 <= k < r@.len() ==> #[trigger] r@[k] == record_slot(sample_views(samples@), width as int, k),
{
    let n = samples.len();
    let mut out: Vec<Feat> = Vec::new();
    let mut i: usize = 0;
    while i < n
        invariant
            n == samples@.len(),
            width > 0,
            n * width <= usize::MAX,
            forall|i: int| 0 <= i < samples@.len() ==> #[trigger] samples@[i]@.len() <= width,
            forall|i: int, j: int|
                0 <= i < samples@.len() && 0 <= j < samples@[i]@.len() ==> (#[trigger] samples@[i]@[j]).0
                    <= u16::MAX && samples@[i]@[j].1 <= u16::MAX,
            i <= n,
            out@.len() == i * width,
            forall|k: int|
                0 <= k < out@.len() ==> #[trigger] out@[k] == record_slot(sample_views(samples@), width as int, k),
        decreases n - i,
    {
        let s = &samples[i];
        proof {
            assert forall|j: int| 0 <= j < s@.len() implies (#[trigger] s@[j]).0 <= u16::MAX && s@[j].1
                <= u16::MAX by {
                assert(s@[j] == samples@[i as int]@[j]);
            }
            assert((i + 1) * width <= n * width) by (nonlinear_arith)
                requires
                    i + 1 <= n,
            ;
            assert((i + 1) * width == i * width + width) by (nonlinear_arith);
        }
        let mut j: usize = 0;
        while j < width
            invariant
                n == samples@.len(),
                width > 0,
                i < n,
                (i + 1) * width <= usize::MAX,
                (i + 1) * width == i * width + width,
                s@ == samples@[i as int]@,
                s@.len() <= width,
                forall|j: int| 0 <= j < s@.len() ==> (#[trigger] s@[j]).0 <= u16::MAX && s@[j].1 <= u16::MAX,
                j <= width,
                out@.len() == i * width + j,
                forall|k: int|
                    0 <= k < out@.len() ==> #[trigger] out@[k] == record_slot(sample_views(samples@), width as int, k),
            decreases width - j,
        {
            let f = if j < s.len() {
                Feat { our: s[j].0 as u16, opp: s[j].1 as u16 }
            } else if j == s.len() {
                Feat { our: SENTINEL, opp: SENTINEL }
            } else {
                Feat { our: 0, opp: 0 }
            };
            proof {
                let k = i * width + j;
                vstd::arithmetic::div_mod::lemma_fundamental_div_mod_converse(
                    k as int,
                    width as int,
                    i as int,
                    j as int,
                );
                assert(sample_views(samples@)[i as int] == s@);
                assert(f == record_slot(sample_views(samples@), width as int, k as int));
            }
            out.push(f);
            j = j + 1;
        }
        i = i + 1;
    }
    out
}

/// Relies on `std::mem::size_of` for bulletformat's `ChessBoard`, which
/// that crate asserts at compile time to be 32 bytes.
#[verifier::external_body]
fn chess_board_bytes() -> (r: usize)
    ensures
        r == 32,
{
    std::mem::size_of::<bulletformat::ChessBoard>()
}

/// Reads training positions from one packed data file, `buffer_size`
/// positions per shuffle buffer.
pub struct SfBinpackLoader {
    pub file_path: String,
    pub buffer_size: usize,
}

impl SfBinpackLoader {
    /// A loader whose shuffle buffers take half of `buffer_size_mb` MiB.
    pub fn new(path: &str, buffer_size_mb: usize) -> (r: SfBinpackLoader)
        requires
            buffer_size_mb * 1024 * 1024 <= usize::MAX,
        ensures
            r.file_path@ == path@,
            r.buffer_size == buffer_size_mb * 1024 * 1024 / 32 / 2,
    {
        let bytes = chess_board_bytes();
        SfBinpackLoader {
            file_path: path.to_owned(),
            buffer_size: buffer_size_mb * 1024 * 1024 / bytes / 2,
        }
    }
}

/// Options of the file shuffler: input and output paths and the memory to use.
pub struct ShuffleOptions {
    pub input: String,
    pub output: String,
    pub mem_used_mb: usize,
}

/// The shuffler splits its input over at least this many temporary files.
pub const MIN_TMP_FILES: usize = 4;

impl ShuffleOptions {
    /// Number of temporary files for an input of `input_size` bytes: one per
    /// `mem_used_mb` thousand bytes, plus one, and at least `MIN_TMP_FILES`.
    pub fn tmp_file_count(&self, input_size: usize) -> (r: usize)
        requires
            self.mem_used_mb * 1000 <= usize::MAX,
            self.mem_used_mb > 0,
        ensures
            r == if input_size as int / (self.mem_used_mb * 1000) + 1 > MIN_TMP_FILES {
                input_size as int / (self.mem_used_mb * 1000) + 1
            } else {
                MIN_TMP_FILES as int
            },
    {
        let per = self.mem_used_mb * 1000;
        proof {
            if input_size > 0 {
                vstd::arithmetic::div_mod::lemma_div_decreases(input_size as int, per as int);
            }
        }
        let n = input_size / per + 1;
        if n > MIN_TMP_FILES {
            n
        } else {
            MIN_TMP_FILES
        }
    }

    /// Bytes read into each temporary file: an equal share of the input,
    /// rounded down to whole positions, plus one position.
    pub fn actual_buffer_size(&self, num_tmp_files: usize, input_size: usize) -> (r: usize)
        requires
            num_tmp_files > 0,
            input_size <= usize::MAX - 32,
        ensures
            r == input_size / num_tmp_files / 32 * 32 + 32,
    {
        let size = chess_board_bytes();
        let share = input_size / num_tmp_files / size;
        assert(share * 32 <= input_size) by {
            vstd::arithmetic::div_mod::lemma_div_is_ordered_by_denominator(input_size as int, 1, num_tmp_files as int);
            vstd::arithmetic::div_mod::lemma_fundamental_div_mod(
                (input_size / num_tmp_files) as int,
                32,
            );
            vstd::arithmetic::div_mod::lemma_mod_pos_bound((input_size / num_tmp_files) as int, 32);
        }
        share * size + size
    }
}

/// When the learning rate drops: once, at epoch `drop`, or every `step` epochs.
#[derive(Clone, Copy, Debug, PartialEq, Eq, Structural)]
pub enum SchedulerType {
    Drop { drop: usize },
    Step { step: usize },
}

impl SchedulerType {
    pub open spec fn drops_at_spec(self, epoch: usize) -> bool {
        match self {
            SchedulerType::Drop { drop } => drop == epoch,
            SchedulerType::Step { step } => epoch % step == 0,
        }
    }

    /// Whether the rate is multiplied by its factor at `epoch`.
    pub fn drops_at(&self, epoch: usize) -> (r: bool)
        requires
            self matches SchedulerType::Step { step } ==> step > 0,
        ensures
            r == self.drops_at_spec(epoch),
    {
        match self {
            SchedulerType::Drop { drop } => *drop == epoch,
            SchedulerType::Step { step } => epoch % *step == 0,
        }
    }
}

} // verus!
