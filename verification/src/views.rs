//! The two traversals over the raw buffer: a read-only one that hands out
//! shared sub-slices, and a write-capable one that owns the buffer for its
//! whole lifetime and hands out disjoint payload ranges.

use crate::ranges::init_cursor;
use crate::ranges::pass_view;
use crate::ranges::range_seq;
use crate::ranges::ranges_valid;
use crate::ranges::ScanLineRanges;
use vstd::prelude::*;
use vstd::slice::slice_index_get;
use vstd::slice::slice_subrange;

verus! {

/// One scan line of a read-only traversal.
#[derive(Clone, Debug)]
pub struct ScanLine<'a> {
    /// The filter type the line was encoded with (0-4; not validated here).
    pub filter: u8,
    /// The line's pixel payload, still encoded with that filter.
    pub data: &'a [u8],
    /// The Adam7 pass the line belongs to, if the image is interlaced.
    pub pass: Option<u8>,
}

/// A read-only traversal of a PNG image's scan lines. Several may run over
/// the same buffer at once.
#[derive(Clone, Debug)]
pub struct ScanLines<'a> {
    pub iter: ScanLineRanges,
    /// The still unconsumed tail of the image's raw byte buffer.
    pub raw_data: &'a [u8],
}

impl<'a> ScanLines<'a> {
    /// The bytes not yet consumed.
    pub open spec fn buf(self) -> Seq<u8> {
        self.raw_data@
    }

    /// The scan lines still to come.
    pub open spec fn lines(self) -> Seq<(int, Option<int>)> {
        self.iter.lines()
    }

    pub open spec fn wf(self) -> bool {
        &&& self.iter.wf()
        &&& self.iter.left as int == self.raw_data@.len()
    }

    /// A traversal over `raw_data` for an image of the given dimensions. The
    /// buffer must be exactly as long as the scan lines the descriptor
    /// dictates; a mismatch is an upstream consistency error.
    pub fn new(
        width: u32,
        height: u32,
        bits_per_pixel: u8,
        interlaced: bool,
        raw_data: &'a [u8],
    ) -> (r: ScanLines<'a>)
        requires
            1 <= width,
            1 <= height,
            (width as int) * (bits_per_pixel as int) + 7 <= u32::MAX as int,
            ranges_valid(
                width as int,
                height as int,
                bits_per_pixel as int,
                init_cursor(interlaced),
                raw_data@.len() as int,
            ),
        ensures
            r.wf(),
            r.buf() == raw_data@,
            r.lines() == range_seq(
                width as int,
                height as int,
                bits_per_pixel as int,
                init_cursor(interlaced),
                raw_data@.len() as int,
            ),
    {
        let n: usize = raw_data.len();
        ScanLines { iter: ScanLineRanges::new(width, height, bits_per_pixel, interlaced, n), raw_data }
    }

    /// The next scan line: its filter byte split off the front, the payload
    /// as a shared slice, and its pass; `None` once the buffer is consumed.
    pub fn next(&mut self) -> (r: Option<ScanLine<'a>>)
        requires
            old(self).wf(),
        ensures
            final(self).wf(),
            r is Some <==> old(self).buf().len() > 0,
            old(self).buf().len() == 0 ==> *final(self) == *old(self),
            r matches Some(sl) ==> {
                let len = old(self).lines()[0].0;
                &&& 1 <= len <= old(self).buf().len()
                &&& sl.filter == old(self).buf()[0]
                &&& sl.data@ == old(self).buf().subrange(1, len)
                &&& pass_view(sl.pass) == old(self).lines()[0].1
                &&& final(self).buf() == old(self).buf().subrange(len, old(self).buf().len() as int)
                &&& final(self).lines() == old(self).lines().drop_first()
            },
    {
        match self.iter.next() {
            None => None,
            Some((len, pass)) => {
                let rd: &'a [u8] = self.raw_data;
                let (head, rest) = rd.split_at(len);
                self.raw_data = rest;
                let filter: u8 = *slice_index_get(head, 0);
                let data: &'a [u8] = slice_subrange(head, 1, len);
                Some(ScanLine { filter, data, pass })
            },
        }
    }
}

/// One scan line of a write-capable traversal, named by position: its
/// payload is the `data_len` bytes of the buffer starting at `data_start`,
/// right after the line's filter byte. Lines never overlap, so writing
/// within one line's payload leaves every other line untouched.
#[derive(Debug)]
pub struct ScanLineMut {
    /// The filter type the line was encoded with (0-4; not validated here).
    pub filter: u8,
    /// Position of the first payload byte in the buffer.
    pub data_start: usize,
    /// Payload length in bytes.
    pub data_len: usize,
    /// The Adam7 pass the line belongs to, if the image is interlaced.
    pub pass: Option<u8>,
}

/// A write-capable traversal of a PNG image's scan lines. It takes the
/// buffer over, so no other view can alias it while writes happen; the
/// buffer comes back through [`Self::into_inner`].
#[derive(Debug)]
pub struct ScanLinesMut {
    pub iter: ScanLineRanges,
    /// The whole raw byte buffer, exclusively owned.
    pub raw_data: Vec<u8>,
    /// How many leading bytes the traversal has already handed out.
    pub offset: usize,
}

impl ScanLinesMut {
    /// The whole buffer in its current state.
    pub open spec fn buf(self) -> Seq<u8> {
        self.raw_data@
    }

    /// The scan lines still to come.
    pub open spec fn lines(self) -> Seq<(int, Option<int>)> {
        self.iter.lines()
    }

    pub open spec fn wf(self) -> bool {
        &&& self.iter.wf()
        &&& self.offset as int + self.iter.left as int == self.raw_data@.len()
    }

    /// A traversal that takes `raw_data` over for an image of the given
    /// dimensions. The buffer must be exactly as long as the scan lines the
    /// descriptor dictates; a mismatch is an upstream consistency error.
    pub fn new(
        width: u32,
        height: u32,
        bits_per_pixel: u8,
        interlaced: bool,
        raw_data: Vec<u8>,
    ) -> (r: ScanLinesMut)
        requires
            1 <= width,
            1 <= height,
            (width as int) * (bits_per_pixel as int) + 7 <= u32::MAX as int,
            ranges_valid(
                width as int,
                height as int,
                bits_per_pixel as int,
                init_cursor(interlaced),
                raw_data@.len() as int,
            ),
        ensures
            r.wf(),
            r.buf() == raw_data@,
            r.offset == 0,
            r.lines() == range_seq(
                width as int,
                height as int,
                bits_per_pixel as int,
                init_cursor(interlaced),
                raw_data@.len() as int,
            ),
    {
        let n: usize = raw_data.len();
        ScanLinesMut {
            iter: ScanLineRanges::new(width, height, bits_per_pixel, interlaced, n),
            raw_data,
            offset: 0,
        }
    }

    /// The next scan line: its filter byte, the position and length of its
    /// payload within the buffer, and its pass; `None` once every line has
    /// been handed out. Payload ranges of successive lines follow each other
    /// without a gap and never overlap.
    pub fn next(&mut self) -> (r: Option<ScanLineMut>)
        requires
            old(self).wf(),
        ensures
            final(self).wf(),
            final(self).buf() == old(self).buf(),
            r is Some <==> old(self).offset < old(self).buf().len(),
            old(self).offset == old(self).buf().len() ==> *final(self) == *old(self),
            r matches Some(sl) ==> {
                let len = old(self).lines()[0].0;
                &&& 1 <= len
                &&& sl.filter == old(self).buf()[old(self).offset as int]
                &&& sl.data_start == old(self).offset + 1
                &&& sl.data_len == len - 1
                &&& sl.data_start + sl.data_len == final(self).offset
                &&& final(self).offset == old(self).offset + len
                &&& final(self).offset <= final(self).buf().len()
                &&& pass_view(sl.pass) == old(self).lines()[0].1
                &&& final(self).lines() == old(self).lines().drop_first()
            },
    {
        match self.iter.next() {
            None => None,
            Some((len, pass)) => {
                let n: usize = self.raw_data.len();
                let filter: u8 = self.raw_data[self.offset];
                let start: usize = self.offset + 1;
                self.offset = self.offset + len;
                Some(ScanLineMut { filter, data_start: start, data_len: len - 1, pass })
            },
        }
    }

    /// Read one byte of the buffer.
    pub fn get(&self, i: usize) -> (b: u8)
        requires
            i < self.buf().len(),
        ensures
            b == self.buf()[i as int],
    {
        self.raw_data[i]
    }

    /// Write one byte of the buffer in place; everything else stays as it
    /// was.
    pub fn set(&mut self, i: usize, v: u8)
        requires
            i < old(self).buf().len(),
        ensures
            final(self).buf() == old(self).buf().update(i as int, v),
            final(self).iter == old(self).iter,
            final(self).offset == old(self).offset,
            final(self).lines() == old(self).lines(),
            old(self).wf() ==> final(self).wf(),
    {
        self.raw_data[i] = v;
    }

    /// Give the buffer back to the caller.
    pub fn into_inner(self) -> (v: Vec<u8>)
        ensures
            v@ == self.buf(),
    {
        self.raw_data
    }
}

} // verus!
