//! The pass-length calculator: for a given image descriptor it yields, one
//! scan line at a time, the line's total byte length (filter byte included)
//! and the Adam7 pass it belongs to (`None` for non-interlaced images).

use vstd::arithmetic::div_mod::lemma_div_pos_is_pos;
use vstd::arithmetic::div_mod::lemma_fundamental_div_mod;
use vstd::arithmetic::mul::lemma_mul_inequality;
use vstd::arithmetic::mul::lemma_mul_nonnegative;
use vstd::prelude::*;

verus! {

// ---------------------------------------------------------------------------
// Adam7 geometry, specification side.
//
// Pass p of the seven covers the pixels at columns c with
// c % horiz_factor(p) == column offset of p, on the rows listed by
// start_row(p), start_row(p) + vert_step(p), ... .
// ---------------------------------------------------------------------------

/// Horizontal sampling factor of pass `p`: one pixel of the pass per
/// `horiz_factor(p)` columns of the image.
pub open spec fn horiz_factor(p: int) -> int {
    if p <= 2 {
        8
    } else if p <= 4 {
        4
    } else if p <= 6 {
        2
    } else {
        1
    }
}

/// Row distance between two consecutive scan lines of pass `p`.
pub open spec fn vert_step(p: int) -> int {
    if p <= 3 {
        8
    } else if p <= 5 {
        4
    } else {
        2
    }
}

/// A partial sampling block at the right edge contributes one more pixel to
/// pass `p` exactly when `width % horiz_factor(p)` reaches this threshold
/// (the pass's starting column within its block, plus one).
pub open spec fn extra_threshold(p: int) -> int {
    if p == 2 {
        5
    } else if p == 4 {
        3
    } else if p == 6 {
        2
    } else {
        1
    }
}

/// First image row covered by pass `p`.
pub open spec fn start_row(p: int) -> int {
    if p == 3 {
        4
    } else if p == 5 {
        2
    } else if p == 7 {
        1
    } else {
        0
    }
}

/// Number of pixels on one scan line of pass `p`.
pub open spec fn pass_pixels(width: int, p: int) -> int {
    width / horiz_factor(p) + if width % horiz_factor(p) >= extra_threshold(p) {
        1int
    } else {
        0int
    }
}

/// Byte length of one scan line of pass `p`: the filter byte plus the pixel
/// bits rounded up to whole bytes.
pub open spec fn interlaced_len(width: int, bpp: int, p: int) -> int {
    1 + (pass_pixels(width, p) * bpp + 7) / 8
}

/// Byte length of one scan line of a non-interlaced image.
pub open spec fn simple_len(width: int, bpp: int) -> int {
    1 + (width * bpp + 7) / 8
}

/// The small-image jumps, applied one after the other in this order: a pass-2
/// cursor jumps to pass 3, row 4 when the image is narrower than 5 columns
/// (pass 2 then has no pixels), and a pass-3 cursor jumps to pass 4, row 0
/// when the image is shorter than 5 rows (pass 3 then has no rows).
pub open spec fn normalize(width: int, height: int, c: (int, int)) -> (int, int) {
    let c1 = if width < 5 && c.0 == 2 {
        (3int, 4int)
    } else {
        c
    };
    if height < 5 && c1.0 == 3 {
        (4int, 0int)
    } else {
        c1
    }
}

/// Cursor after one scan line of the (already normalized) cursor `c` has been
/// produced: the next row of the same pass, or the first row of the next pass
/// once the row advance would leave the image.
pub open spec fn advance(height: int, c: (int, int)) -> (int, int) {
    if c.1 + vert_step(c.0) >= height {
        (c.0 + 1, start_row(c.0 + 1))
    } else {
        (c.0, c.1 + vert_step(c.0))
    }
}

/// Pass cursor a fresh calculator starts from.
pub open spec fn init_cursor(interlaced: bool) -> Option<(int, int)> {
    if interlaced {
        Some((1int, 0int))
    } else {
        None
    }
}

/// Byte length of the next scan line the state `cursor` will produce.
pub open spec fn head_len(width: int, height: int, bpp: int, cursor: Option<(int, int)>) -> int {
    match cursor {
        None => simple_len(width, bpp),
        Some(c) => interlaced_len(width, bpp, normalize(width, height, c).0),
    }
}

/// Pass number reported for the next scan line.
pub open spec fn head_pass(width: int, height: int, cursor: Option<(int, int)>) -> Option<int> {
    match cursor {
        None => None,
        Some(c) => Some(normalize(width, height, c).0),
    }
}

/// Cursor after the next scan line has been produced.
pub open spec fn step_cursor(width: int, height: int, cursor: Option<(int, int)>) -> Option<
    (int, int),
> {
    match cursor {
        None => None,
        Some(c) => Some(advance(height, normalize(width, height, c))),
    }
}

/// The interlaced cursor, once normalized, names one of the seven passes.
pub open spec fn cursor_ok(width: int, height: int, cursor: Option<(int, int)>) -> bool {
    match cursor {
        None => true,
        Some(c) => 1 <= normalize(width, height, c).0 <= 7,
    }
}

/// `left` bytes are exactly a whole number of scan lines from state `cursor`
/// on: the calculator started on them runs out at a line boundary, never in
/// the middle of a line and never past pass 7.
pub open spec fn ranges_valid(
    width: int,
    height: int,
    bpp: int,
    cursor: Option<(int, int)>,
    left: int,
) -> bool
    decreases left,
{
    if left <= 0 {
        left == 0
    } else {
        let len = head_len(width, height, bpp, cursor);
        &&& cursor_ok(width, height, cursor)
        &&& 1 <= len
        &&& len <= left
        &&& ranges_valid(width, height, bpp, step_cursor(width, height, cursor), left - len)
    }
}

/// The whole sequence of (byte length, pass) pairs the calculator yields from
/// state `cursor` over `left` bytes.
pub open spec fn range_seq(
    width: int,
    height: int,
    bpp: int,
    cursor: Option<(int, int)>,
    left: int,
) -> Seq<(int, Option<int>)>
    decreases left,
{
    if left <= 0 {
        Seq::empty()
    } else {
        let len = head_len(width, height, bpp, cursor);
        let head = (len, head_pass(width, height, cursor));
        if 1 <= len && len <= left {
            seq![head] + range_seq(width, height, bpp, step_cursor(width, height, cursor), left - len)
        } else {
            seq![head]
        }
    }
}

/// Spec view of an exec pass number.
pub open spec fn pass_view(p: Option<u8>) -> Option<int> {
    match p {
        None => None,
        Some(x) => Some(x as int),
    }
}

// ---------------------------------------------------------------------------
// Arithmetic facts used while producing a line.
// ---------------------------------------------------------------------------

/// A pass's line never has more pixels than the image has columns.
pub proof fn lemma_pass_pixels_le_width(width: int, p: int)
    requires
        width >= 1,
        1 <= p <= 7,
    ensures
        0 <= pass_pixels(width, p) <= width,
{
    let f = horiz_factor(p);
    let q = width / f;
    let r = width % f;
    lemma_div_pos_is_pos(width, f);
    lemma_fundamental_div_mod(width, f);
    lemma_mul_inequality(1, f, q);
    if r >= extra_threshold(p) {
        assert(r >= 1);
        assert(width >= q + 1);
    } else {
        assert(width >= q);
    }
}

// ---------------------------------------------------------------------------
// The executable calculator.
// ---------------------------------------------------------------------------

/// A stateful generator of scan-line descriptors: each call of [`Self::next`]
/// yields the byte length and pass of one more scan line, until the `left`
/// byte budget is used up.
#[derive(Clone, Debug)]
pub struct ScanLineRanges {
    /// Current pass number and 0-indexed row within the pass; `None` for a
    /// non-interlaced image.
    pub pass: Option<(u8, u32)>,
    pub bits_per_pixel: u8,
    pub width: u32,
    pub height: u32,
    /// Bytes of the buffer not yet accounted for.
    pub left: usize,
}

impl ScanLineRanges {
    /// The pass cursor as a specification value.
    pub open spec fn cursor(self) -> Option<(int, int)> {
        match self.pass {
            None => None,
            Some(c) => Some((c.0 as int, c.1 as int)),
        }
    }

    /// The scan lines this state will still yield.
    pub open spec fn lines(self) -> Seq<(int, Option<int>)> {
        range_seq(
            self.width as int,
            self.height as int,
            self.bits_per_pixel as int,
            self.cursor(),
            self.left as int,
        )
    }

    /// Well-formed state: positive dimensions, line arithmetic that fits in
    /// `u32`, and a byte budget that is a whole number of scan lines.
    pub open spec fn wf(self) -> bool {
        &&& 1 <= self.width
        &&& 1 <= self.height
        &&& (self.width as int) * (self.bits_per_pixel as int) + 7 <= u32::MAX as int
        &&& ranges_valid(
            self.width as int,
            self.height as int,
            self.bits_per_pixel as int,
            self.cursor(),
            self.left as int,
        )
    }

    /// A fresh calculator for an image of the given dimensions over a buffer
    /// of `byte_len` bytes. The caller supplies a buffer whose length is
    /// exactly the sum of the scan-line lengths the descriptor dictates;
    /// anything else is an upstream consistency error this component does
    /// not recover from.
    pub fn new(
        width: u32,
        height: u32,
        bits_per_pixel: u8,
        interlaced: bool,
        byte_len: usize,
    ) -> (r: ScanLineRanges)
        requires
            1 <= width,
            1 <= height,
            (width as int) * (bits_per_pixel as int) + 7 <= u32::MAX as int,
            ranges_valid(
                width as int,
                height as int,
                bits_per_pixel as int,
                init_cursor(interlaced),
                byte_len as int,
            ),
        ensures
            r.wf(),
            r.width == width,
            r.height == height,
            r.bits_per_pixel == bits_per_pixel,
            r.left == byte_len,
            r.cursor() == init_cursor(interlaced),
    {
        ScanLineRanges {
            bits_per_pixel,
            width,
            height,
            left: byte_len,
            pass: if interlaced {
                Some((1u8, 0u32))
            } else {
                None
            },
        }
    }

    /// Produce the next scan-line descriptor: its total byte length (filter
    /// byte included) and the pass it belongs to, or `None` once the byte
    /// budget has run out.
    pub fn next(&mut self) -> (r: Option<(usize, Option<u8>)>)
        requires
            old(self).wf(),
        ensures
            final(self).wf(),
            final(self).width == old(self).width,
            final(self).height == old(self).height,
            final(self).bits_per_pixel == old(self).bits_per_pixel,
            r is Some <==> old(self).left > 0,
            old(self).left == 0 ==> *final(self) == *old(self),
            r matches Some(x) ==> {
                &&& 1 <= x.0
                &&& x.0 as int == old(self).lines()[0].0
                &&& pass_view(x.1) == old(self).lines()[0].1
                &&& final(self).left == old(self).left - x.0
                &&& final(self).cursor() == step_cursor(
                    old(self).width as int,
                    old(self).height as int,
                    old(self).cursor(),
                )
                &&& final(self).lines() == old(self).lines().drop_first()
            },
    {
        if self.left == 0 {
            return None;
        }
        let ghost w = self.width as int;
        let ghost h = self.height as int;
        let ghost bpp = self.bits_per_pixel as int;
        let ghost cursor0 = self.cursor();
        let ghost left0 = self.left as int;
        let (pixels_per_line, current_pass): (u32, Option<u8>) = match self.pass {
            Some(c) => {
                let mut p: u8 = c.0;
                let mut row: u32 = c.1;
                // Small-image jumps, applied one after the other so that a
                // narrow and short image passes through both.
                if self.width < 5 && p == 2 {
                    p = 3;
                    row = 4;
                }
                if self.height < 5 && p == 3 {
                    p = 4;
                    row = 0;
                }
                proof {
                    assert((p as int, row as int) == normalize(w, h, (c.0 as int, c.1 as int)));
                    assert(1 <= p <= 7);
                }
                let pixels_factor: u32 = if p <= 2 {
                    8
                } else if p <= 4 {
                    4
                } else if p <= 6 {
                    2
                } else {
                    1
                };
                let y_steps: u32 = if p <= 3 {
                    8
                } else if p <= 5 {
                    4
                } else {
                    2
                };
                let threshold: u32 = if p == 2 {
                    5
                } else if p == 4 {
                    3
                } else if p == 6 {
                    2
                } else {
                    1
                };
                proof {
                    lemma_pass_pixels_le_width(w, p as int);
                }
                let mut pixels: u32 = self.width / pixels_factor;
                let gap: u32 = self.width % pixels_factor;
                if gap >= threshold {
                    pixels = pixels + 1;
                }
                proof {
                    assert(pixels as int == pass_pixels(w, p as int));
                }
                // Advance the cursor: next row of this pass, or the first row
                // of the next pass once the step would leave the image.
                if row as u64 + y_steps as u64 >= self.height as u64 {
                    let p2: u8 = p + 1;
                    let row2: u32 = if p2 == 3 {
                        4
                    } else if p2 == 5 {
                        2
                    } else if p2 == 7 {
                        1
                    } else {
                        0
                    };
                    self.pass = Some((p2, row2));
                } else {
                    self.pass = Some((p, row + y_steps));
                }
                proof {
                    assert(self.cursor() == step_cursor(w, h, cursor0));
                }
                (pixels, Some(p))
            },
            None => (self.width, None),
        };
        proof {
            assert(pixels_per_line as int <= w) by {
                match cursor0 {
                    Some(c) => {
                        let p = normalize(w, h, c).0;
                        lemma_pass_pixels_le_width(w, p);
                    },
                    None => {},
                }
            }
            lemma_mul_inequality(pixels_per_line as int, w, bpp);
            lemma_mul_nonnegative(pixels_per_line as int, bpp);
        }
        let bits_per_line: u32 = pixels_per_line * (self.bits_per_pixel as u32);
        let bytes_per_line: usize = ((bits_per_line + 7) / 8) as usize;
        let len: usize = bytes_per_line + 1;
        proof {
            assert(len as int == head_len(w, h, bpp, cursor0));
            assert(pass_view(current_pass) == head_pass(w, h, cursor0));
            assert(len <= left0);
        }
        self.left = self.left - len;
        proof {
            assert(self.lines() =~= range_seq(w, h, bpp, step_cursor(w, h, cursor0), left0 - len));
            assert(range_seq(w, h, bpp, cursor0, left0) =~= seq![
                (len as int, pass_view(current_pass)),
            ] + self.lines());
            assert(self.lines() =~= range_seq(w, h, bpp, cursor0, left0).drop_first());
        }
        Some((len, current_pass))
    }
}

} // verus!
