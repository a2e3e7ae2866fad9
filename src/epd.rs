use vstd::prelude::*;

verus! {

/// ASCII whitespace: space, tab, line feed, vertical tab, form feed, carriage return.
pub open spec fn is_space(c: u8) -> bool {
    c == 32 || (9 <= c && c <= 13)
}

/// The whitespace-separated fields of `s`, when a field `cur` is already begun.
pub open spec fn fields_from(s: Seq<u8>, cur: Seq<u8>) -> Seq<Seq<u8>>
    decreases s.len(),
{
    if s.len() == 0 {
        if cur.len() > 0 {
            seq![cur]
        } else {
            Seq::empty()
        }
    } else if is_space(s[0]) {
        (if cur.len() > 0 {
            seq![cur]
        } else {
            Seq::empty()
        }) + fields_from(s.drop_first(), Seq::empty())
    } else {
        fields_from(s.drop_first(), cur.push(s[0]))
    }
}

/// The whitespace-separated fields of `s`.
pub open spec fn fields(s: Seq<u8>) -> Seq<Seq<u8>> {
    fields_from(s, Seq::empty())
}

/// The pieces of `s` between slashes, when a piece `cur` is already begun;
/// empty pieces are kept.
pub open spec fn rows_from(s: Seq<u8>, cur: Seq<u8>) -> Seq<Seq<u8>>
    decreases s.len(),
{
    if s.len() == 0 {
        seq![cur]
    } else if s[0] == 47 {
        seq![cur] + rows_from(s.drop_first(), Seq::empty())
    } else {
        rows_from(s.drop_first(), cur.push(s[0]))
    }
}

/// The rows of a board description: its pieces between slashes.
pub open spec fn rows(s: Seq<u8>) -> Seq<Seq<u8>> {
    rows_from(s, Seq::empty())
}

pub open spec fn views(v: Seq<Vec<u8>>) -> Seq<Seq<u8>> {
    v.map_values(|x: Vec<u8>| x@)
}

/// Splits `s` at ASCII whitespace, dropping empty fields.
pub fn split_fields(s: &[u8]) -> (r: Vec<Vec<u8>>)
    ensures
        views(r@) == fields(s@),
{
    let mut out: Vec<Vec<u8>> = Vec::new();
    let mut cur: Vec<u8> = Vec::new();
    let mut i: usize = 0;
    assert(s@.subrange(0, s@.len() as int) =~= s@);
    assert(views(out@) + fields(s@) =~= fields(s@));
    while i < s.len()
        invariant
            i <= s@.len(),
            views(out@) + fields_from(s@.subrange(i as int, s@.len() as int), cur@) == fields(s@),
        decreases s@.len() - i,
    {
        let c = s[i];
        let ghost rest = s@.subrange(i as int, s@.len() as int);
        assert(rest[0] == c);
        assert(rest.drop_first() =~= s@.subrange(i + 1, s@.len() as int));
        if c == 32 || (9 <= c && c <= 13) {
            assert(fields_from(rest, cur@) == (if cur@.len() > 0 {
                seq![cur@]
            } else {
                Seq::empty()
            }) + fields_from(rest.drop_first(), Seq::empty()));
            if cur.len() > 0 {
                let ghost prior = views(out@);
                let ghost tail = fields_from(rest.drop_first(), Seq::empty());
                let done = cur;
                out.push(done);
                assert(views(out@) =~= prior.push(done@));
                assert(prior + (seq![done@] + tail) =~= prior.push(done@) + tail);
                cur = Vec::new();
            } else {
                assert(cur@ =~= Seq::<u8>::empty());
                assert(Seq::<Seq<u8>>::empty() + fields_from(rest.drop_first(), Seq::empty())
                    =~= fields_from(rest.drop_first(), Seq::empty()));
            }
        } else {
            assert(fields_from(rest, cur@) == fields_from(rest.drop_first(), cur@.push(c)));
            cur.push(c);
        }
        i = i + 1;
    }
    assert(s@.subrange(i as int, s@.len() as int) =~= Seq::<u8>::empty());
    if cur.len() > 0 {
        let ghost prior = views(out@);
        let done = cur;
        out.push(done);
        assert(views(out@) =~= prior.push(done@));
        assert(prior + seq![done@] =~= prior.push(done@));
    } else {
        assert(views(out@) + Seq::<Seq<u8>>::empty() =~= views(out@));
    }
    out
}

/// Splits `s` at each slash, keeping empty pieces.
pub fn split_rows(s: &Vec<u8>) -> (r: Vec<Vec<u8>>)
    ensures
        views(r@) == rows(s@),
{
    let mut out: Vec<Vec<u8>> = Vec::new();
    let mut cur: Vec<u8> = Vec::new();
    let mut i: usize = 0;
    assert(s@.subrange(0, s@.len() as int) =~= s@);
    assert(views(out@) + rows(s@) =~= rows(s@));
    while i < s.len()
        invariant
            i <= s@.len(),
            views(out@) + rows_from(s@.subrange(i as int, s@.len() as int), cur@) == rows(s@),
        decreases s@.len() - i,
    {
        let c = s[i];
        let ghost rest = s@.subrange(i as int, s@.len() as int);
        assert(rest[0] == c);
        assert(rest.drop_first() =~= s@.subrange(i + 1, s@.len() as int));
        if c == 47 {
            assert(rows_from(rest, cur@) == seq![cur@] + rows_from(rest.drop_first(), Seq::empty()));
            let ghost prior = views(out@);
            let ghost tail = rows_from(rest.drop_first(), Seq::empty());
            let done = cur;
            out.push(done);
            assert(views(out@) =~= prior.push(done@));
            assert(prior + (seq![done@] + tail) =~= prior.push(done@) + tail);
            cur = Vec::new();
        } else {
            assert(rows_from(rest, cur@) == rows_from(rest.drop_first(), cur@.push(c)));
            cur.push(c);
        }
        i = i + 1;
    }
    assert(s@.subrange(i as int, s@.len() as int) =~= Seq::<u8>::empty());
    let ghost prior = views(out@);
    let done = cur;
    out.push(done);
    assert(views(out@) =~= prior.push(done@));
    assert(prior + seq![done@] =~= prior.push(done@));
    out
}

/// Position of `c` in "PNBRQKpnbrqk", or -1.
pub open spec fn piece_index(c: u8) -> int {
    if c == 80 {
        0
    } else if c == 78 {
        1
    } else if c == 66 {
        2
    } else if c == 82 {
        3
    } else if c == 81 {
        4
    } else if c == 75 {
        5
    } else if c == 112 {
        6
    } else if c == 110 {
        7
    } else if c == 98 {
        8
    } else if c == 114 {
        9
    } else if c == 113 {
        10
    } else if c == 107 {
        11
    } else {
        -1
    }
}

pub fn piece_index_of(c: u8) -> (r: Option<u8>)
    ensures
        piece_index(c) >= 0 ==> r == Some(piece_index(c) as u8),
        piece_index(c) < 0 ==> r is None,
{
    if c == 80 {
        Some(0)
    } else if c == 78 {
        Some(1)
    } else if c == 66 {
        Some(2)
    } else if c == 82 {
        Some(3)
    } else if c == 81 {
        Some(4)
    } else if c == 75 {
        Some(5)
    } else if c == 112 {
        Some(6)
    } else if c == 110 {
        Some(7)
    } else if c == 98 {
        Some(8)
    } else if c == 114 {
        Some(9)
    } else if c == 113 {
        Some(10)
    } else if c == 107 {
        Some(11)
    } else {
        None
    }
}

/// Columns past the edge all count as 64: no square there is on the board.
pub open spec fn advance(col: int, by: int) -> int {
    if col + by > 64 {
        64
    } else {
        col + by
    }
}

/// The pieces of one row on rank `rank`, from column `col` on, as
/// (index in "PNBRQKpnbrqk", square `8 * rank + column`). A digit skips that
/// many columns; other characters are ignored.
pub open spec fn row_scan(row: Seq<u8>, rank: int, col: int) -> Seq<(int, int)>
    decreases row.len(),
{
    if row.len() == 0 {
        Seq::empty()
    } else {
        let c = row[0];
        if 49 <= c && c <= 56 {
            row_scan(row.drop_first(), rank, advance(col, c - 48))
        } else if piece_index(c) >= 0 {
            seq![(piece_index(c), 8 * rank + col)] + row_scan(row.drop_first(), rank, advance(col, 1))
        } else {
            row_scan(row.drop_first(), rank, col)
        }
    }
}

/// The rank row `k` of `rs` is read as: with white to move the last row is
/// rank 0; with black to move the first row is rank 0 after mirroring, which
/// the caller applies, so rows are read top down from rank 7.
pub open spec fn placements(rs: Seq<Seq<u8>>, black: bool, k: int) -> Seq<(int, int)>
    decreases k,
{
    if k <= 0 {
        Seq::empty()
    } else if black {
        placements(rs, black, k - 1) + row_scan(rs[k - 1], 7 - (k - 1), 0)
    } else {
        placements(rs, black, k - 1) + row_scan(rs[rs.len() - k], k - 1, 0)
    }
}

/// All pieces of the rows, in the order they are read.
pub open spec fn all_placements(rs: Seq<Seq<u8>>, black: bool) -> Seq<(int, int)> {
    placements(rs, black, rs.len() as int)
}

/// At most 32 pieces, all on the board (and, read from black's side, at most 8 rows).
pub open spec fn placements_valid(rs: Seq<Seq<u8>>, black: bool) -> bool {
    let p = all_placements(rs, black);
    &&& !black || rs.len() <= 8
    &&& p.len() <= 32
    &&& forall|i: int| 0 <= i < p.len() ==> 0 <= #[trigger] p[i].1 < 64
}

/// Scans one row on `rank`, appending its pieces to `out`; false when a
/// piece falls off the board or there are more than 32.
fn scan_row(row: &Vec<u8>, rank: usize, out: &mut Vec<(u8, u8)>) -> (ok: bool)
    requires
        old(out)@.len() <= 32,
    ensures
        ok ==> {
            let s = row_scan(row@, rank as int, 0);
            &&& final(out)@.len() == old(out)@.len() + s.len()
            &&& final(out)@.len() <= 32
            &&& forall|i: int| 0 <= i < old(out)@.len() ==> final(out)@[i] == old(out)@[i]
            &&& forall|i: int| old(out)@.len() <= i < final(out)@.len() ==> (#[trigger] final(out)@[i]).0 <= 11
            &&& forall|i: int|
                0 <= i < s.len() ==> 0 <= #[trigger] s[i].1 < 64 && final(out)@[old(out)@.len() + i]
                    == (s[i].0 as u8, s[i].1 as u8)
        },
        !ok ==> {
            let s = row_scan(row@, rank as int, 0);
            old(out)@.len() + s.len() > 32 || exists|i: int| 0 <= i < s.len() && !(0 <= #[trigger] s[i].1 < 64)
        },
{
    let ghost start = out@.len();
    let ghost orig = out@;
    let ghost whole = row_scan(row@, rank as int, 0);
    let mut col: usize = 0;
    let mut i: usize = 0;
    assert(row@.subrange(0, row@.len() as int) =~= row@);
    assert(out@.subrange(start as int, out@.len() as int) =~= Seq::<(u8, u8)>::empty());
    assert(out@.subrange(start as int, out@.len() as int).map_values(|p: (u8, u8)| (p.0 as int, p.1 as int))
        + whole =~= whole);
    while i < row.len()
        invariant
            i <= row@.len(),
            col <= 64,
            start == orig.len(),
            orig == old(out)@,
            whole == row_scan(row@, rank as int, 0),
            out@.len() <= 32,
            out@.len() >= start,
            forall|j: int| 0 <= j < start ==> out@[j] == orig[j],
            whole == out@.subrange(start as int, out@.len() as int).map_values(|p: (u8, u8)| (p.0 as int, p.1 as int))
                + row_scan(row@.subrange(i as int, row@.len() as int), rank as int, col as int),
            forall|j: int| start <= j < out@.len() ==> (#[trigger] out@[j]).1 < 64 && out@[j].0 <= 11,
        decreases row@.len() - i,
    {
        let c = row[i];
        let ghost rest = row@.subrange(i as int, row@.len() as int);
        let ghost done = out@.subrange(start as int, out@.len() as int).map_values(|p: (u8, u8)| (p.0 as int, p.1 as int));
        assert(rest[0] == c);
        assert(rest.drop_first() =~= row@.subrange(i + 1, row@.len() as int));
        if 49 <= c && c <= 56 {
            let d = (c - 48) as usize;
            col = if col + d > 64 { 64 } else { col + d };
        } else {
            match piece_index_of(c) {
                Some(p) => {
                    if rank > 7 || 8 * rank + col >= 64 || out.len() >= 32 {
                        proof {
                            let tail = row_scan(rest, rank as int, col as int);
                            assert(tail == seq![(p as int, 8 * rank + col)] + row_scan(
                                rest.drop_first(),
                                rank as int,
                                advance(col as int, 1),
                            ));
                            assert(tail.len() >= 1);
                            assert(whole == done + tail);
                            assert(whole[done.len() as int] == tail[0]);
                            assert(done.len() == out@.len() - start);
                            if out@.len() < 32 {
                                assert(whole[done.len() as int].1 >= 64);
                                assert(!(0 <= whole[done.len() as int].1 < 64));
                            } else {
                                assert(start + whole.len() > 32);
                            }
                        }
                        return false;
                    }
                    let sq = (8 * rank + col) as u8;
                    let ghost prior = out@;
                    out.push((p, sq));
                    proof {
                        assert(out@.subrange(start as int, out@.len() as int) =~= prior.subrange(
                            start as int,
                            prior.len() as int,
                        ).push((p, sq)));
                        assert(out@.subrange(start as int, out@.len() as int).map_values(
                            |q: (u8, u8)| (q.0 as int, q.1 as int),
                        ) =~= done.push((p as int, sq as int)));
                        assert(done + (seq![(p as int, sq as int)] + row_scan(
                            rest.drop_first(),
                            rank as int,
                            advance(col as int, 1),
                        )) =~= done.push((p as int, sq as int)) + row_scan(
                            rest.drop_first(),
                            rank as int,
                            advance(col as int, 1),
                        ));
                    }
                    col = if col + 1 > 64 { 64 } else { col + 1 };
                },
                None => {},
            }
        }
        i = i + 1;
    }
    proof {
        assert(row@.subrange(i as int, row@.len() as int) =~= Seq::<u8>::empty());
        let done = out@.subrange(start as int, out@.len() as int).map_values(|p: (u8, u8)| (p.0 as int, p.1 as int));
        assert(done + Seq::<(int, int)>::empty() =~= done);
        assert forall|j: int| 0 <= j < whole.len() implies 0 <= #[trigger] whole[j].1 < 64 && out@[start + j]
            == (whole[j].0 as u8, whole[j].1 as u8) by {
            assert(done[j] == (out@[start + j].0 as int, out@[start + j].1 as int));
        }
    }
    true
}


/// The pieces as stored: (index in "PNBRQKpnbrqk", square).
pub open spec fn entries(p: Seq<(int, int)>) -> Seq<(u8, u8)> {
    p.map_values(|x: (int, int)| (x.0 as u8, x.1 as u8))
}

proof fn lemma_placements_prefix(rs: Seq<Seq<u8>>, black: bool, j: int, k: int)
    requires
        0 <= j <= k,
    ensures
        placements(rs, black, j).len() <= placements(rs, black, k).len(),
        placements(rs, black, k).subrange(0, placements(rs, black, j).len() as int)
            == placements(rs, black, j),
    decreases k,
{
    if j < k {
        lemma_placements_prefix(rs, black, j, k - 1);
        let a = placements(rs, black, j);
        let b = placements(rs, black, k - 1);
        let c = placements(rs, black, k);
        assert(c.subrange(0, b.len() as int) =~= b);
        assert(c.subrange(0, a.len() as int) =~= b.subrange(0, a.len() as int));
    } else {
        assert(placements(rs, black, k).subrange(0, placements(rs, black, k).len() as int)
            =~= placements(rs, black, k));
    }
}

/// Reads all rows of a board: with white to move from the last row (rank 0)
/// up, with black to move from the first row (rank 7) down. `None` when the
/// board does not fit: more than 32 pieces, a piece off the board, or (black
/// to move) more than 8 rows.
pub fn scan_board(rs: &Vec<Vec<u8>>, black: bool) -> (r: Option<Vec<(u8, u8)>>)
    ensures
        r is Some <==> placements_valid(views(rs@), black),
        r is Some ==> r->0@ == entries(all_placements(views(rs@), black)),
        r is Some ==> forall|i: int| 0 <= i < r->0@.len() ==> #[trigger] r->0@[i].0 <= 11 && r->0@[i].1 < 64,
{
    let ghost v = views(rs@);
    let n = rs.len();
    if black && n > 8 {
        return None;
    }
    let mut out: Vec<(u8, u8)> = Vec::new();
    let mut k: usize = 0;
    while k < n
        invariant
            v == views(rs@),
            n == rs@.len() == v.len(),
            !black || n <= 8,
            k <= n,
            out@.len() <= 32,
            out@ == entries(placements(v, black, k as int)),
            forall|i: int| 0 <= i < out@.len() ==> #[trigger] out@[i].0 <= 11 && out@[i].1 < 64,
            forall|i: int| 0 <= i < placements(v, black, k as int).len() ==> 0 <= #[trigger] placements(v, black, k as int)[i].1 < 64,
        decreases n - k,
    {
        let (row, rank) = if black {
            (&rs[k], 7 - k)
        } else {
            (&rs[n - 1 - k], k)
        };
        let ghost before = out@;
        let ghost p = placements(v, black, k as int);
        let ghost s = row_scan(row@, rank as int, 0);
        assert(row@ == if black { v[k as int] } else { v[n - (k + 1)] });
        assert(placements(v, black, k + 1) == p + s);
        let ok = scan_row(row, rank, &mut out);
        if !ok {
            proof {
                lemma_placements_prefix(v, black, k + 1, n as int);
                let all = all_placements(v, black);
                if before.len() + s.len() <= 32 {
                    let i = choose|i: int| 0 <= i < s.len() && !(0 <= #[trigger] s[i].1 < 64);
                    assert((p + s)[p.len() + i] == s[i]);
                    assert(all[p.len() + i] == (p + s)[p.len() + i]);
                }
            }
            return None;
        }
        proof {
            assert(out@ =~= entries(p + s));
        }
        k = k + 1;
    }
    Some(out)
}

pub open spec fn is_digit(c: u8) -> bool {
    48 <= c && c <= 57
}

pub open spec fn all_digits(d: Seq<u8>) -> bool {
    forall|i: int| 0 <= i < d.len() ==> is_digit(#[trigger] d[i])
}

/// The number written by the decimal digits `d`.
pub open spec fn digits_value(d: Seq<u8>) -> int
    decreases d.len(),
{
    if d.len() == 0 {
        0
    } else {
        digits_value(d.drop_last()) * 10 + (d.last() - 48)
    }
}

/// An unsigned decimal: an optional `+`, then at least one digit.
pub open spec fn unsigned_value(t: Seq<u8>) -> Option<int> {
    let d = if t.len() > 0 && t[0] == 43 {
        t.drop_first()
    } else {
        t
    };
    if d.len() > 0 && all_digits(d) {
        Some(digits_value(d))
    } else {
        None
    }
}

/// A signed decimal: an optional `+` or `-`, then at least one digit.
pub open spec fn signed_value(t: Seq<u8>) -> Option<int> {
    if t.len() > 0 && t[0] == 45 {
        let d = t.drop_first();
        if d.len() > 0 && all_digits(d) {
            Some(-digits_value(d))
        } else {
            None
        }
    } else {
        unsigned_value(t)
    }
}

/// The parsed value when there is one within `[lo, hi]`, else `default`.
pub open spec fn value_or(v: Option<int>, lo: int, hi: int, default: int) -> int {
    match v {
        Some(x) => if lo <= x <= hi {
            x
        } else {
            default
        },
        None => default,
    }
}

/// Values past this bound are all reported as the bound.
pub const DIGITS_CAP: u32 = 100000;

proof fn lemma_digits_nonneg(d: Seq<u8>)
    requires
        all_digits(d),
    ensures
        digits_value(d) >= 0,
    decreases d.len(),
{
    if d.len() > 0 {
        assert(all_digits(d.drop_last())) by {
            assert forall|i: int| 0 <= i < d.drop_last().len() implies is_digit(
                #[trigger] d.drop_last()[i],
            ) by {
                assert(d.drop_last()[i] == d[i]);
            }
        }
        assert(is_digit(d[d.len() - 1]));
        lemma_digits_nonneg(d.drop_last());
    }
}

/// The value of the digits `t[start..]`, capped at `DIGITS_CAP`; `None`
/// unless there is at least one digit and nothing else.
fn digits_capped(t: &Vec<u8>, start: usize) -> (r: Option<u32>)
    requires
        start <= t@.len(),
    ensures
        ({
            let d = t@.subrange(start as int, t@.len() as int);
            &&& r is Some <==> d.len() > 0 && all_digits(d)
            &&& r is Some ==> r->0 == if digits_value(d) > DIGITS_CAP {
                DIGITS_CAP as int
            } else {
                digits_value(d)
            }
        }),
{
    let ghost d = t@.subrange(start as int, t@.len() as int);
    if start == t.len() {
        return None;
    }
    let mut acc: u32 = 0;
    let mut i: usize = start;
    while i < t.len()
        invariant
            start <= i <= t@.len(),
            d == t@.subrange(start as int, t@.len() as int),
            all_digits(t@.subrange(start as int, i as int)),
            acc <= DIGITS_CAP,
            acc == if digits_value(t@.subrange(start as int, i as int)) > DIGITS_CAP {
                DIGITS_CAP as int
            } else {
                digits_value(t@.subrange(start as int, i as int))
            },
        decreases t@.len() - i,
    {
        let c = t[i];
        if c < 48 || c > 57 {
            proof {
                assert(d[i - start] == c);
                assert(!is_digit(d[i - start]));
            }
            return None;
        }
        let ghost pre = t@.subrange(start as int, i as int);
        let ghost next = t@.subrange(start as int, i + 1);
        proof {
            assert(next.drop_last() =~= pre);
            assert(next.last() == c);
            assert(all_digits(next)) by {
                assert forall|k: int| 0 <= k < next.len() implies is_digit(#[trigger] next[k]) by {
                    if k < pre.len() {
                        assert(next[k] == pre[k]);
                    }
                }
            }
            lemma_digits_nonneg(pre);
        }
        if acc >= DIGITS_CAP {
            acc = DIGITS_CAP;
        } else {
            let v = acc * 10 + (c - 48) as u32;
            acc = if v > DIGITS_CAP {
                DIGITS_CAP
            } else {
                v
            };
        }
        i = i + 1;
    }
    proof {
        assert(t@.subrange(start as int, i as int) =~= d);
    }
    Some(acc)
}

/// Parses an unsigned decimal of at most `max`, falling back to `default`.
pub fn parse_unsigned_or(t: &Vec<u8>, max: u32, default: u32) -> (r: u32)
    requires
        max < DIGITS_CAP,
    ensures
        r == value_or(unsigned_value(t@), 0, max as int, default as int),
{
    let start: usize = if t.len() > 0 && t[0] == 43 {
        1
    } else {
        0
    };
    proof {
        let d = if t@.len() > 0 && t@[0] == 43 {
            t@.drop_first()
        } else {
            t@
        };
        assert(t@.subrange(start as int, t@.len() as int) =~= d);
    }
    match digits_capped(t, start) {
        Some(v) => {
            proof {
                let d = t@.subrange(start as int, t@.len() as int);
                lemma_digits_nonneg(d);
            }
            if v <= max {
                v
            } else {
                default
            }
        },
        None => default,
    }
}

/// Parses a 16-bit signed decimal, falling back to `default`.
pub fn parse_i16_or(t: &Vec<u8>, default: i16) -> (r: i16)
    ensures
        r == value_or(signed_value(t@), i16::MIN as int, i16::MAX as int, default as int),
{
    if t.len() > 0 && t[0] == 45 {
        proof {
            assert(t@.subrange(1, t@.len() as int) =~= t@.drop_first());
        }
        match digits_capped(t, 1) {
            Some(v) => {
                proof {
                    lemma_digits_nonneg(t@.drop_first());
                }
                if v <= 32768 {
                    let neg: i32 = 0 - (v as i32);
                    neg as i16
                } else {
                    default
                }
            },
            None => default,
        }
    } else {
        proof {
            let d = if t@.len() > 0 && t@[0] == 43 {
                t@.drop_first()
            } else {
                t@
            };
            if d.len() > 0 && all_digits(d) {
                lemma_digits_nonneg(d);
            }
        }
        let u = parse_unsigned_or(t, 32767, 40000);
        if u <= 32767 {
            u as i16
        } else {
            default
        }
    }
}

/// The game result written as `[1.0]`, `[0.5]` or `[0.0]`: 2, 1 or 0
/// half-points for the side named first.
pub open spec fn result_code(t: Seq<u8>) -> Option<u8> {
    if t == seq![91u8, 49u8, 46u8, 48u8, 93u8] {
        Some(2u8)
    } else if t == seq![91u8, 48u8, 46u8, 53u8, 93u8] {
        Some(1u8)
    } else if t == seq![91u8, 48u8, 46u8, 48u8, 93u8] {
        Some(0u8)
    } else {
        None
    }
}

pub fn parse_result(t: &Vec<u8>) -> (r: Option<u8>)
    ensures
        r == result_code(t@),
{
    if t.len() == 5 && t[0] == 91 && t[2] == 46 && t[4] == 93 {
        if t[1] == 49 && t[3] == 48 {
            assert(t@ =~= seq![91u8, 49u8, 46u8, 48u8, 93u8]);
            return Some(2);
        } else if t[1] == 48 && t[3] == 53 {
            assert(t@ =~= seq![91u8, 48u8, 46u8, 53u8, 93u8]);
            return Some(1);
        } else if t[1] == 48 && t[3] == 48 {
            assert(t@ =~= seq![91u8, 48u8, 46u8, 48u8, 93u8]);
            return Some(0);
        }
    }
    proof {
        assert(seq![91u8, 49u8, 46u8, 48u8, 93u8][1] == 49u8);
        assert(seq![91u8, 48u8, 46u8, 53u8, 93u8][3] == 53u8);
        assert(seq![91u8, 48u8, 46u8, 48u8, 93u8][3] == 48u8);
        assert(seq![91u8, 48u8, 46u8, 48u8, 93u8][0] == 91u8);
        assert(seq![91u8, 48u8, 46u8, 48u8, 93u8][2] == 46u8);
        assert(seq![91u8, 48u8, 46u8, 48u8, 93u8][4] == 93u8);
    }
    None
}

} // verus!
