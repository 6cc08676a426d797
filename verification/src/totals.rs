//! How many bytes a descriptor's scan lines take in all. `required_len`
//! computes that total and proves it a valid byte budget, so a caller can
//! size a buffer — or check one handed in from upstream — before starting a
//! traversal.

use crate::ranges::advance;
use crate::ranges::init_cursor;
use crate::ranges::interlaced_len;
use crate::ranges::lemma_pass_pixels_le_width;
use crate::ranges::normalize;
use crate::ranges::pass_pixels;
use crate::ranges::ranges_valid;
use crate::ranges::simple_len;
use vstd::arithmetic::div_mod::lemma_div_pos_is_pos;
use vstd::arithmetic::mul::lemma_mul_inequality;
use vstd::arithmetic::mul::lemma_mul_is_distributive_sub_other_way;
use vstd::arithmetic::mul::lemma_mul_nonnegative;
use vstd::prelude::*;

verus! {

/// Total bytes of every scan line an interlaced walk still yields from
/// cursor `c` up to the end of pass 7.
pub open spec fn walk_bytes(width: int, height: int, bpp: int, c: (int, int)) -> int
    decreases 8 - c.0, (if c.1 < height { height - c.1 } else { 0int }),
{
    if c.0 < 1 || c.0 > 7 {
        0
    } else {
        let n = normalize(width, height, c);
        interlaced_len(width, bpp, n.0) + walk_bytes(width, height, bpp, advance(height, n))
    }
}

/// The byte budget of a whole traversal: every row of the single implicit
/// pass, or the calculator's seven-pass walk from its start. For an
/// interlaced image of at least three pixels in each direction this is
/// exactly the datastream's length, since every pass the walk visits then
/// has pixels and rows; a smaller interlaced image may use any shorter
/// budget that ends on a line boundary.
pub open spec fn expected_len(width: int, height: int, bpp: int, interlaced: bool) -> int {
    if interlaced {
        walk_bytes(width, height, bpp, (1int, 0int))
    } else {
        height * simple_len(width, bpp)
    }
}

/// One scan line is never shorter than its filter byte.
pub proof fn lemma_interlaced_len_at_least_one(width: int, bpp: int, p: int)
    requires
        width >= 1,
        bpp >= 0,
        1 <= p <= 7,
    ensures
        1 <= interlaced_len(width, bpp, p),
{
    lemma_pass_pixels_le_width(width, p);
    lemma_mul_nonnegative(pass_pixels(width, p), bpp);
    lemma_div_pos_is_pos(pass_pixels(width, p) * bpp + 7, 8);
}

/// The walk total is a valid byte budget: a calculator started on it runs
/// out exactly at the end of pass 7, never in the middle of a line.
pub proof fn lemma_walk_valid(width: int, height: int, bpp: int, c: (int, int))
    requires
        width >= 1,
        height >= 1,
        bpp >= 0,
        1 <= c.0,
    ensures
        walk_bytes(width, height, bpp, c) >= 0,
        ranges_valid(width, height, bpp, Some(c), walk_bytes(width, height, bpp, c)),
    decreases 8 - c.0, (if c.1 < height { height - c.1 } else { 0int }),
{
    if c.0 <= 7 {
        let n = normalize(width, height, c);
        lemma_interlaced_len_at_least_one(width, bpp, n.0);
        lemma_walk_valid(width, height, bpp, advance(height, n));
    }
}

/// A non-interlaced image over `count` whole lines of `simple_len` bytes is
/// a valid byte budget and yields one entry per line: length `simple_len`,
/// no pass.
pub proof fn lemma_simple_count(width: int, height: int, bpp: int, count: int)
    requires
        width >= 1,
        height >= 1,
        bpp >= 0,
        count >= 0,
    ensures
        ranges_valid(width, height, bpp, None, count * simple_len(width, bpp)),
        crate::ranges::range_seq(width, height, bpp, None, count * simple_len(width, bpp))
            =~= Seq::new(count as nat, |i: int| (simple_len(width, bpp), None::<int>)),
    decreases count,
{
    let ll = simple_len(width, bpp);
    lemma_mul_nonnegative(width, bpp);
    lemma_div_pos_is_pos(width * bpp + 7, 8);
    assert(ll >= 1);
    if count == 0 {
        assert(count * ll == 0) by (nonlinear_arith)
            requires
                count == 0,
        ;
    } else {
        lemma_simple_count(width, height, bpp, count - 1);
        lemma_mul_is_distributive_sub_other_way(ll, count, 1);
        assert((count - 1) * ll == count * ll - ll);
        lemma_mul_nonnegative(count - 1, ll);
        let left = count * ll;
        assert(crate::ranges::head_len(width, height, bpp, None) == ll);
        assert(ranges_valid(width, height, bpp, None, left));
        let s = crate::ranges::range_seq(width, height, bpp, None, left);
        let rest = crate::ranges::range_seq(width, height, bpp, None, left - ll);
        assert(s =~= seq![(ll, None::<int>)] + rest);
        assert(s =~= Seq::new(count as nat, |i: int| (ll, None::<int>)));
    }
}

/// Byte length of one scan line of pass `p`.
fn pass_line_len(width: u32, bits_per_pixel: u8, p: u8) -> (l: usize)
    requires
        1 <= width,
        1 <= p <= 7,
        (width as int) * (bits_per_pixel as int) + 7 <= u32::MAX as int,
    ensures
        l as int == interlaced_len(width as int, bits_per_pixel as int, p as int),
        1 <= l,
{
    proof {
        lemma_pass_pixels_le_width(width as int, p as int);
    }
    let pixels_factor: u32 = if p <= 2 {
        8
    } else if p <= 4 {
        4
    } else if p <= 6 {
        2
    } else {
        1
    };
    let threshold: u32 = if p == 2 {
        5
    } else if p == 4 {
        3
    } else if p == 6 {
        2
    } else {
        1
    };
    let mut pixels: u32 = width / pixels_factor;
    let gap: u32 = width % pixels_factor;
    if gap >= threshold {
        pixels = pixels + 1;
    }
    proof {
        assert(pixels as int == pass_pixels(width as int, p as int));
        lemma_mul_inequality(pixels as int, width as int, bits_per_pixel as int);
        lemma_mul_nonnegative(pixels as int, bits_per_pixel as int);
    }
    let bits: u32 = pixels * (bits_per_pixel as u32);
    ((bits + 7) / 8) as usize + 1
}

/// The byte budget of a whole traversal — see [`expected_len`] — or `None`
/// when it does not fit a `usize`. A `Some` result is a valid budget for a
/// traversal of the same descriptor.
pub fn required_len(width: u32, height: u32, bits_per_pixel: u8, interlaced: bool) -> (r: Option<
    usize,
>)
    requires
        1 <= width,
        1 <= height,
        (width as int) * (bits_per_pixel as int) + 7 <= u32::MAX as int,
    ensures
        r matches Some(n) ==> {
            &&& n as int == expected_len(
                width as int,
                height as int,
                bits_per_pixel as int,
                interlaced,
            )
            &&& ranges_valid(
                width as int,
                height as int,
                bits_per_pixel as int,
                init_cursor(interlaced),
                n as int,
            )
        },
        r is None ==> expected_len(width as int, height as int, bits_per_pixel as int, interlaced)
            > usize::MAX as int,
{
    let ghost w = width as int;
    let ghost h = height as int;
    let ghost bpp = bits_per_pixel as int;
    if !interlaced {
        let bits: u32 = width * (bits_per_pixel as u32);
        let line: usize = ((bits + 7) / 8) as usize + 1;
        proof {
            assert(line as int == simple_len(w, bpp));
        }
        let r = (height as usize).checked_mul(line);
        proof {
            if r is Some {
                lemma_simple_count(w, h, bpp, h);
            }
        }
        r
    } else {
        let ghost total = walk_bytes(w, h, bpp, (1int, 0int));
        let mut p: u8 = 1;
        let mut row: u32 = 0;
        let mut acc: usize = 0;
        while p <= 7
            invariant
                1 <= width,
                1 <= height,
                w == width as int,
                h == height as int,
                bpp == bits_per_pixel as int,
                (width as int) * (bits_per_pixel as int) + 7 <= u32::MAX as int,
                interlaced,
                1 <= p <= 8,
                total == walk_bytes(w, h, bpp, (1int, 0int)),
                acc as int + walk_bytes(w, h, bpp, (p as int, row as int)) == total,
            decreases 8 - p as int, (if (row as int) < h { h - row as int } else { 0int }),
        {
            let ghost c0 = (p as int, row as int);
            if width < 5 && p == 2 {
                p = 3;
                row = 4;
            }
            if height < 5 && p == 3 {
                p = 4;
                row = 0;
            }
            let ghost n = (p as int, row as int);
            proof {
                assert(n == normalize(w, h, c0));
                assert(normalize(w, h, n) == n);
                assert(walk_bytes(w, h, bpp, c0) == interlaced_len(w, bpp, n.0) + walk_bytes(
                    w,
                    h,
                    bpp,
                    advance(h, n),
                ));
            }
            let len: usize = pass_line_len(width, bits_per_pixel, p);
            match acc.checked_add(len) {
                Some(a) => {
                    acc = a;
                },
                None => {
                    proof {
                        lemma_walk_valid(w, h, bpp, advance(h, n));
                        assert(total >= acc as int + len as int);
                    }
                    return None;
                },
            }
            let y_steps: u32 = if p <= 3 {
                8
            } else if p <= 5 {
                4
            } else {
                2
            };
            if row as u64 + y_steps as u64 >= height as u64 {
                let p2: u8 = p + 1;
                row = if p2 == 3 {
                    4
                } else if p2 == 5 {
                    2
                } else if p2 == 7 {
                    1
                } else {
                    0
                };
                p = p2;
            } else {
                row = row + y_steps;
            }
            proof {
                assert((p as int, row as int) == advance(h, n));
            }
        }
        proof {
            assert(walk_bytes(w, h, bpp, (p as int, row as int)) == 0);
            assert(acc as int == total);
            lemma_walk_valid(w, h, bpp, (1int, 0int));
        }
        Some(acc)
    }
}

} // verus!
