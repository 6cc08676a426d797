//! The properties the scan-line decomposition obeys, stated and proved over
//! the same model the executable contracts use: `range_seq` for the lengths
//! and passes, and `carve` for how those lengths cut the buffer into lines.

use crate::ranges::advance;
use crate::ranges::head_len;
use crate::ranges::init_cursor;
use crate::ranges::interlaced_len;
use crate::ranges::normalize;
use crate::ranges::range_seq;
use crate::ranges::ranges_valid;
use crate::ranges::simple_len;
use crate::ranges::start_row;
use crate::ranges::vert_step;
use crate::totals::lemma_interlaced_len_at_least_one;
use crate::totals::lemma_simple_count;
use crate::totals::lemma_walk_valid;
use crate::totals::walk_bytes;
use vstd::prelude::*;

verus! {

// ---------------------------------------------------------------------------
// Carving a buffer by a sequence of line lengths.
// ---------------------------------------------------------------------------

/// The byte lengths of a sequence of scan-line descriptors.
pub open spec fn line_lengths(lines: Seq<(int, Option<int>)>) -> Seq<int> {
    lines.map_values(|e: (int, Option<int>)| e.0)
}

/// Sum of a sequence of lengths.
pub open spec fn total_len(lens: Seq<int>) -> int
    decreases lens.len(),
{
    if lens.len() == 0 {
        0
    } else {
        lens[0] + total_len(lens.drop_first())
    }
}

/// The buffer cut into consecutive pieces of the given lengths: piece `i`
/// holds scan line `i` whole, filter byte first.
pub open spec fn carve(buf: Seq<u8>, lens: Seq<int>) -> Seq<Seq<u8>>
    decreases lens.len(),
{
    if lens.len() == 0 {
        Seq::empty()
    } else {
        seq![buf.take(lens[0])] + carve(buf.skip(lens[0]), lens.drop_first())
    }
}

/// Byte position where piece `i` starts: the lengths of the pieces before it.
pub open spec fn offset_at(lens: Seq<int>, i: int) -> int
    decreases i,
{
    if i <= 0 {
        0
    } else {
        lens[0] + offset_at(lens.drop_first(), i - 1)
    }
}

pub proof fn lemma_total_len_nonneg(lens: Seq<int>)
    requires
        forall|k: int| 0 <= k < lens.len() ==> lens[k] >= 0,
    ensures
        total_len(lens) >= 0,
    decreases lens.len(),
{
    if lens.len() > 0 {
        lemma_total_len_nonneg(lens.drop_first());
    }
}

/// Concatenating every carved piece, in order, reproduces the buffer byte
/// for byte. Since a piece is exactly one scan line's filter byte followed
/// by its payload, this is the round trip of the traversals.
pub proof fn lemma_round_trip(buf: Seq<u8>, lens: Seq<int>)
    requires
        forall|k: int| 0 <= k < lens.len() ==> lens[k] >= 0,
        total_len(lens) == buf.len(),
    ensures
        carve(buf, lens).flatten() == buf,
    decreases lens.len(),
{
    if lens.len() == 0 {
        assert(carve(buf, lens).flatten() =~= buf);
    } else {
        let l0 = lens[0];
        let rest = lens.drop_first();
        lemma_total_len_nonneg(rest);
        let tail = buf.skip(l0);
        lemma_round_trip(tail, rest);
        let pieces = carve(buf, lens);
        assert(pieces.drop_first() =~= carve(tail, rest));
        assert(pieces.flatten() == buf.take(l0) + carve(tail, rest).flatten());
        assert(buf.take(l0) + tail =~= buf);
    }
}

pub proof fn lemma_offset_step(lens: Seq<int>, i: int)
    requires
        0 <= i < lens.len(),
    ensures
        offset_at(lens, i + 1) == offset_at(lens, i) + lens[i],
    decreases i,
{
    if i == 0 {
        assert(offset_at(lens, 1) == lens[0] + offset_at(lens.drop_first(), 0));
        assert(offset_at(lens.drop_first(), 0) == 0);
    } else {
        lemma_offset_step(lens.drop_first(), i - 1);
        assert(offset_at(lens, i + 1) == lens[0] + offset_at(lens.drop_first(), i));
        assert(offset_at(lens, i) == lens[0] + offset_at(lens.drop_first(), i - 1));
        assert(lens.drop_first()[i - 1] == lens[i]);
    }
}

pub proof fn lemma_carve_len(buf: Seq<u8>, lens: Seq<int>)
    ensures
        carve(buf, lens).len() == lens.len(),
    decreases lens.len(),
{
    if lens.len() > 0 {
        lemma_carve_len(buf.skip(lens[0]), lens.drop_first());
    }
}

pub proof fn lemma_offset_monotone(lens: Seq<int>, i: int, j: int)
    requires
        forall|k: int| 0 <= k < lens.len() ==> lens[k] >= 0,
        0 <= i <= j <= lens.len(),
    ensures
        offset_at(lens, i) <= offset_at(lens, j),
    decreases j,
{
    if i > 0 {
        lemma_offset_monotone(lens.drop_first(), i - 1, j - 1);
    } else if j > 0 {
        lemma_offset_monotone(lens.drop_first(), 0, j - 1);
    }
}

/// Piece `i` of the carved buffer is exactly the bytes from its offset to
/// its offset plus its length.
pub proof fn lemma_carve_index(buf: Seq<u8>, lens: Seq<int>, i: int)
    requires
        forall|k: int| 0 <= k < lens.len() ==> lens[k] >= 0,
        total_len(lens) <= buf.len(),
        0 <= i < lens.len(),
    ensures
        0 <= offset_at(lens, i),
        offset_at(lens, i) + lens[i] <= buf.len(),
        carve(buf, lens)[i] == buf.subrange(offset_at(lens, i), offset_at(lens, i) + lens[i]),
    decreases i,
{
    let l0 = lens[0];
    let rest = lens.drop_first();
    lemma_total_len_nonneg(rest);
    if i == 0 {
        assert(carve(buf, lens)[0] == buf.take(l0));
        assert(buf.take(l0) =~= buf.subrange(0, l0));
    } else {
        let tail = buf.skip(l0);
        lemma_carve_len(buf, lens);
        lemma_carve_len(tail, rest);
        lemma_carve_index(tail, rest, i - 1);
        let off1 = offset_at(rest, i - 1);
        assert(carve(buf, lens) == seq![buf.take(l0)] + carve(tail, rest));
        assert(carve(buf, lens)[i] == carve(tail, rest)[i - 1]);
        assert(tail.subrange(off1, off1 + rest[i - 1]) =~= buf.subrange(
            l0 + off1,
            l0 + off1 + rest[i - 1],
        ));
    }
}

pub proof fn lemma_subrange_update_outside(buf: Seq<u8>, a: int, b: int, pos: int, v: u8)
    requires
        0 <= a <= b <= buf.len(),
        0 <= pos < buf.len(),
        pos < a || pos >= b,
    ensures
        buf.update(pos, v).subrange(a, b) == buf.subrange(a, b),
{
    assert(buf.update(pos, v).subrange(a, b) =~= buf.subrange(a, b));
}

/// Writing one byte inside scan line `i`'s payload is visible at exactly
/// that byte of the buffer, changes only line `i` — at the matching position
/// past its filter byte — and leaves every other line's bytes as they were.
pub proof fn lemma_mutation_isolated(buf: Seq<u8>, lens: Seq<int>, i: int, pos: int, v: u8)
    requires
        forall|k: int| 0 <= k < lens.len() ==> lens[k] >= 1,
        total_len(lens) == buf.len(),
        0 <= i < lens.len(),
        offset_at(lens, i) < pos < offset_at(lens, i) + lens[i],
    ensures
        buf.update(pos, v)[pos] == v,
        carve(buf.update(pos, v), lens)[i] == carve(buf, lens)[i].update(
            pos - offset_at(lens, i),
            v,
        ),
        carve(buf.update(pos, v), lens)[i][0] == carve(buf, lens)[i][0],
        forall|j: int|
            0 <= j < lens.len() && j != i ==> carve(buf.update(pos, v), lens)[j] == carve(
                buf,
                lens,
            )[j],
{
    let buf2 = buf.update(pos, v);
    let off = offset_at(lens, i);
    lemma_carve_index(buf, lens, i);
    lemma_carve_index(buf2, lens, i);
    assert(carve(buf2, lens)[i] =~= carve(buf, lens)[i].update(pos - off, v));
    assert forall|j: int|
        0 <= j < lens.len() && j != i implies carve(buf2, lens)[j] == carve(buf, lens)[j] by {
        lemma_carve_index(buf, lens, j);
        lemma_carve_index(buf2, lens, j);
        let offj = offset_at(lens, j);
        if j < i {
            lemma_offset_step(lens, j);
            lemma_offset_monotone(lens, j + 1, i);
        } else {
            lemma_offset_step(lens, i);
            lemma_offset_monotone(lens, i + 1, j);
        }
        lemma_subrange_update_outside(buf, offj, offj + lens[j], pos, v);
    }
}

// ---------------------------------------------------------------------------
// What the calculator's sequence looks like.
// ---------------------------------------------------------------------------

/// Over a valid byte budget the line lengths sum to exactly that budget, and
/// every line is at least the one filter byte long.
pub proof fn lemma_lines_cover_buffer(
    width: int,
    height: int,
    bpp: int,
    cursor: Option<(int, int)>,
    left: int,
)
    requires
        ranges_valid(width, height, bpp, cursor, left),
    ensures
        total_len(line_lengths(range_seq(width, height, bpp, cursor, left))) == left,
        forall|k: int|
            0 <= k < range_seq(width, height, bpp, cursor, left).len() ==> (#[trigger] range_seq(
                width,
                height,
                bpp,
                cursor,
                left,
            )[k]).0 >= 1,
    decreases left,
{
    let s = range_seq(width, height, bpp, cursor, left);
    if left > 0 {
        let len = head_len(width, height, bpp, cursor);
        let c2 = crate::ranges::step_cursor(width, height, cursor);
        let rest = range_seq(width, height, bpp, c2, left - len);
        lemma_lines_cover_buffer(width, height, bpp, c2, left - len);
        assert(s =~= seq![(len, crate::ranges::head_pass(width, height, cursor))] + rest);
        assert(line_lengths(s) =~= seq![len] + line_lengths(rest));
        assert(line_lengths(s).drop_first() =~= line_lengths(rest));
        assert(total_len(line_lengths(s)) == len + total_len(line_lengths(rest)));
    }
}

/// A non-interlaced image of width `W`, height `H` and `B` bits per pixel
/// over its natural buffer yields exactly `H` scan lines, each of byte
/// length `1 + ceil(W*B/8)` and with no pass; together with
/// `lemma_lines_cover_buffer`, those lengths sum to the buffer length.
pub proof fn lemma_simple_image_lines(width: int, height: int, bpp: int)
    requires
        width >= 1,
        height >= 1,
        bpp >= 0,
    ensures
        ranges_valid(width, height, bpp, init_cursor(false), height * simple_len(width, bpp)),
        range_seq(
            width,
            height,
            bpp,
            init_cursor(false),
            height * simple_len(width, bpp),
        ).len() == height,
        forall|i: int|
            0 <= i < height ==> #[trigger] range_seq(
                width,
                height,
                bpp,
                init_cursor(false),
                height * simple_len(width, bpp),
            )[i] == (simple_len(width, bpp), None::<int>),
{
    lemma_simple_count(width, height, bpp, height);
}

// ---------------------------------------------------------------------------
// The interlaced pass structure.
// ---------------------------------------------------------------------------

/// The pass number an entry carries; 0 for a non-interlaced entry.
pub open spec fn entry_pass(e: (int, Option<int>)) -> int {
    match e.1 {
        Some(p) => p,
        None => 0,
    }
}

/// Every line of a valid interlaced traversal carries a pass 1 to 7; the
/// passes never decrease along the sequence and never fall below the pass
/// the starting cursor names; a narrow image (width < 5) never shows pass 2
/// and a short one (height < 5) never shows pass 3.
pub proof fn lemma_interlaced_passes(width: int, height: int, bpp: int, c: (int, int), left: int)
    requires
        ranges_valid(width, height, bpp, Some(c), left),
    ensures
        ({
            let s = range_seq(width, height, bpp, Some(c), left);
            &&& forall|k: int|
                0 <= k < s.len() ==> (#[trigger] s[k]).1 == Some(entry_pass(s[k]))
            &&& forall|k: int| 0 <= k < s.len() ==> 1 <= #[trigger] entry_pass(s[k]) <= 7
            &&& forall|k: int|
                0 <= k < s.len() ==> #[trigger] entry_pass(s[k]) >= normalize(width, height, c).0
            &&& forall|k1: int, k2: int|
                #![trigger entry_pass(s[k1]), entry_pass(s[k2])]
                0 <= k1 <= k2 < s.len() ==> entry_pass(s[k1]) <= entry_pass(s[k2])
            &&& (width < 5 ==> forall|k: int|
                0 <= k < s.len() ==> #[trigger] entry_pass(s[k]) != 2)
            &&& (height < 5 ==> forall|k: int|
                0 <= k < s.len() ==> #[trigger] entry_pass(s[k]) != 3)
        }),
    decreases left,
{
    let s = range_seq(width, height, bpp, Some(c), left);
    if left > 0 {
        let p = normalize(width, height, c).0;
        let len = head_len(width, height, bpp, Some(c));
        let c2 = advance(height, normalize(width, height, c));
        let rest = range_seq(width, height, bpp, Some(c2), left - len);
        lemma_interlaced_passes(width, height, bpp, c2, left - len);
        assert(s =~= seq![(len, Some(p))] + rest);
        assert(normalize(width, height, c2).0 >= p);
        assert forall|k: int| 0 <= k < s.len() implies (#[trigger] s[k]).1 == Some(entry_pass(s[k]))
            && 1 <= entry_pass(s[k]) <= 7 && entry_pass(s[k]) >= p by {
            if k > 0 {
                assert(s[k] == rest[k - 1]);
            }
        }
        assert forall|k1: int, k2: int|
            #![trigger entry_pass(s[k1]), entry_pass(s[k2])]
            0 <= k1 <= k2 < s.len() implies entry_pass(s[k1]) <= entry_pass(s[k2]) by {
            if k1 > 0 {
                assert(s[k1] == rest[k1 - 1]);
                assert(s[k2] == rest[k2 - 1]);
            } else if k2 > 0 {
                assert(s[k2] == rest[k2 - 1]);
                assert(entry_pass(rest[k2 - 1]) >= normalize(width, height, c2).0);
            }
        }
        if width < 5 {
            assert forall|k: int| 0 <= k < s.len() implies #[trigger] entry_pass(s[k]) != 2 by {
                if k > 0 {
                    assert(s[k] == rest[k - 1]);
                }
            }
        }
        if height < 5 {
            assert forall|k: int| 0 <= k < s.len() implies #[trigger] entry_pass(s[k]) != 3 by {
                if k > 0 {
                    assert(s[k] == rest[k - 1]);
                }
            }
        }
    }
}

/// How many lines of the sequence belong to pass `p`.
pub open spec fn count_pass(s: Seq<(int, Option<int>)>, p: int) -> int
    decreases s.len(),
{
    if s.len() == 0 {
        0
    } else {
        count_pass(s.drop_last(), p) + if s.last().1 == Some(p) {
            1int
        } else {
            0int
        }
    }
}

/// When every entry carries a pass 1 to 7, the per-pass row counts sum to
/// the number of lines: each line belongs to exactly one pass.
pub proof fn lemma_pass_partition(s: Seq<(int, Option<int>)>)
    requires
        forall|k: int|
            0 <= k < s.len() ==> (#[trigger] s[k]).1 == Some(entry_pass(s[k])) && 1 <= entry_pass(
                s[k],
            ) <= 7,
    ensures
        count_pass(s, 1) + count_pass(s, 2) + count_pass(s, 3) + count_pass(s, 4) + count_pass(
            s,
            5,
        ) + count_pass(s, 6) + count_pass(s, 7) == s.len(),
    decreases s.len(),
{
    if s.len() > 0 {
        let t = s.drop_last();
        assert(forall|k: int| 0 <= k < t.len() ==> t[k] == s[k]);
        lemma_pass_partition(t);
        assert(s.last() == s[s.len() - 1]);
    }
}

/// An interlaced traversal's lines split exactly into the seven passes —
/// the per-pass row counts sum to the total — and the passes appear in
/// non-decreasing order from 1 to 7.
pub proof fn lemma_interlaced_partition_and_order(width: int, height: int, bpp: int, left: int)
    requires
        ranges_valid(width, height, bpp, init_cursor(true), left),
    ensures
        ({
            let s = range_seq(width, height, bpp, init_cursor(true), left);
            &&& count_pass(s, 1) + count_pass(s, 2) + count_pass(s, 3) + count_pass(s, 4)
                + count_pass(s, 5) + count_pass(s, 6) + count_pass(s, 7) == s.len()
            &&& forall|k1: int, k2: int|
                #![trigger entry_pass(s[k1]), entry_pass(s[k2])]
                0 <= k1 <= k2 < s.len() ==> entry_pass(s[k1]) <= entry_pass(s[k2])
        }),
{
    lemma_interlaced_passes(width, height, bpp, (1, 0), left);
    lemma_pass_partition(range_seq(width, height, bpp, init_cursor(true), left));
}

/// An image narrower than 5 pixels has no pass-2 scan line: pass 2 has no
/// column there and is skipped whole.
pub proof fn lemma_narrow_image_skips_pass_two(width: int, height: int, bpp: int, left: int)
    requires
        width < 5,
        ranges_valid(width, height, bpp, init_cursor(true), left),
    ensures
        forall|k: int|
            0 <= k < range_seq(width, height, bpp, init_cursor(true), left).len()
                ==> (#[trigger] range_seq(width, height, bpp, init_cursor(true), left)[k]).1
                != Some(2int),
{
    lemma_interlaced_passes(width, height, bpp, (1, 0), left);
    let s = range_seq(width, height, bpp, init_cursor(true), left);
    assert forall|k: int| 0 <= k < s.len() implies (#[trigger] s[k]).1 != Some(2int) by {
        assert(s[k].1 == Some(entry_pass(s[k])));
        assert(entry_pass(s[k]) != 2);
    }
}

/// An image shorter than 5 pixels has no pass-3 scan line: pass 3 has no
/// row there and is skipped whole.
pub proof fn lemma_short_image_skips_pass_three(width: int, height: int, bpp: int, left: int)
    requires
        height < 5,
        ranges_valid(width, height, bpp, init_cursor(true), left),
    ensures
        forall|k: int|
            0 <= k < range_seq(width, height, bpp, init_cursor(true), left).len()
                ==> (#[trigger] range_seq(width, height, bpp, init_cursor(true), left)[k]).1
                != Some(3int),
{
    lemma_interlaced_passes(width, height, bpp, (1, 0), left);
    let s = range_seq(width, height, bpp, init_cursor(true), left);
    assert forall|k: int| 0 <= k < s.len() implies (#[trigger] s[k]).1 != Some(3int) by {
        assert(s[k].1 == Some(entry_pass(s[k])));
        assert(entry_pass(s[k]) != 3);
    }
}

// ---------------------------------------------------------------------------
// Per-pass row counts.
// ---------------------------------------------------------------------------

/// Rows a pass contributes from row `r` on, with row advance `t`: one per
/// step until the advance leaves the image. The row the cursor stands on is
/// always produced, even when it already lies outside a short image.
pub open spec fn row_count_from(height: int, r: int, t: int) -> int
    decreases (if r < height { height - r } else { 0int }),
{
    if t <= 0 {
        1
    } else if r + t >= height {
        1
    } else {
        1 + row_count_from(height, r + t, t)
    }
}

/// Rows pass `p` contributes to a whole interlaced traversal: none when the
/// small-image jumps skip it, else one per row advance from its start row.
pub open spec fn rows_in_pass(width: int, height: int, p: int) -> int {
    if (p == 2 && width < 5) || (p == 3 && height < 5) {
        0
    } else {
        row_count_from(height, start_row(p), vert_step(p))
    }
}

pub proof fn lemma_count_pass_prepend(e: (int, Option<int>), s: Seq<(int, Option<int>)>, q: int)
    ensures
        count_pass(seq![e] + s, q) == count_pass(s, q) + (if e.1 == Some(q) {
            1int
        } else {
            0int
        }),
    decreases s.len(),
{
    let es = seq![e] + s;
    assert(es.len() == 1 + s.len());
    if s.len() == 0 {
        assert(es.drop_last() =~= Seq::<(int, Option<int>)>::empty());
        assert(es.last() == e);
        assert(count_pass(es, q) == count_pass(es.drop_last(), q) + (if es.last().1 == Some(q) {
            1int
        } else {
            0int
        }));
        assert(count_pass(es.drop_last(), q) == 0);
        assert(count_pass(s, q) == 0);
    } else {
        lemma_count_pass_prepend(e, s.drop_last(), q);
        assert(es.drop_last() =~= seq![e] + s.drop_last());
        assert(es.last() == s.last());
        assert(count_pass(es, q) == count_pass(es.drop_last(), q) + (if es.last().1 == Some(q) {
            1int
        } else {
            0int
        }));
        assert(count_pass(s, q) == count_pass(s.drop_last(), q) + (if s.last().1 == Some(q) {
            1int
        } else {
            0int
        }));
    }
}

/// From cursor `c` over the walk's own byte budget, pass `q` contributes:
/// nothing when the walk already stands past `q`; the rows from the
/// cursor's row on when it stands in `q`; its whole `rows_in_pass` when `q`
/// is still to come.
pub proof fn lemma_walk_count(width: int, height: int, bpp: int, c: (int, int), q: int)
    requires
        width >= 1,
        height >= 1,
        bpp >= 0,
        1 <= c.0,
        1 <= q <= 7,
    ensures
        ({
            let s = range_seq(width, height, bpp, Some(c), walk_bytes(width, height, bpp, c));
            count_pass(s, q) == if c.0 > 7 {
                0int
            } else {
                let n = normalize(width, height, c);
                if n.0 > q {
                    0int
                } else if n.0 == q {
                    row_count_from(height, n.1, vert_step(q))
                } else {
                    rows_in_pass(width, height, q)
                }
            }
        }),
    decreases 8 - c.0, (if c.1 < height { height - c.1 } else { 0int }),
{
    let s = range_seq(width, height, bpp, Some(c), walk_bytes(width, height, bpp, c));
    if c.0 > 7 {
        assert(s =~= Seq::<(int, Option<int>)>::empty());
    } else {
        let n = normalize(width, height, c);
        let len = interlaced_len(width, bpp, n.0);
        let adv = advance(height, n);
        lemma_interlaced_len_at_least_one(width, bpp, n.0);
        lemma_walk_valid(width, height, bpp, adv);
        let rest = range_seq(width, height, bpp, Some(adv), walk_bytes(width, height, bpp, adv));
        assert(s =~= seq![(len, Some(n.0))] + rest);
        lemma_count_pass_prepend((len, Some(n.0)), rest, q);
        lemma_walk_count(width, height, bpp, adv, q);
        assert(normalize(width, height, adv).0 >= adv.0);
        if adv.0 == n.0 {
            // The walk stayed in its pass; the jumps cannot fire again.
            assert(normalize(width, height, adv) == adv);
        }
    }
}

/// Each pass of a whole interlaced traversal contributes exactly its row
/// count, and those seven counts sum to the number of scan lines produced.
pub proof fn lemma_interlaced_pass_row_counts(width: int, height: int, bpp: int)
    requires
        width >= 1,
        height >= 1,
        bpp >= 0,
    ensures
        ({
            let s = range_seq(
                width,
                height,
                bpp,
                init_cursor(true),
                walk_bytes(width, height, bpp, (1int, 0int)),
            );
            &&& forall|q: int|
                1 <= q <= 7 ==> #[trigger] count_pass(s, q) == rows_in_pass(width, height, q)
            &&& rows_in_pass(width, height, 1) + rows_in_pass(width, height, 2) + rows_in_pass(
                width,
                height,
                3,
            ) + rows_in_pass(width, height, 4) + rows_in_pass(width, height, 5) + rows_in_pass(
                width,
                height,
                6,
            ) + rows_in_pass(width, height, 7) == s.len()
        }),
{
    let s = range_seq(
        width,
        height,
        bpp,
        init_cursor(true),
        walk_bytes(width, height, bpp, (1int, 0int)),
    );
    assert forall|q: int|
        1 <= q <= 7 implies #[trigger] count_pass(s, q) == rows_in_pass(width, height, q) by {
        lemma_walk_count(width, height, bpp, (1, 0), q);
        assert(normalize(width, height, (1int, 0int)) == (1int, 0int));
    }
    lemma_walk_valid(width, height, bpp, (1, 0));
    lemma_interlaced_passes(width, height, bpp, (1, 0), walk_bytes(width, height, bpp, (1int, 0int)));
    lemma_pass_partition(s);
}

} // verus!
