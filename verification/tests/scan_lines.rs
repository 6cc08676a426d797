//! Exercises the scan-line decomposition end to end: the pass-length
//! calculator alone, the read-only traversal, and the write-capable one.

use scanlines::ScanLineRanges;
use scanlines::ScanLines;
use scanlines::ScanLinesMut;

fn collect_ranges(
    width: u32,
    height: u32,
    bits_per_pixel: u8,
    interlaced: bool,
    byte_len: usize,
) -> Vec<(usize, Option<u8>)> {
    let mut it = ScanLineRanges::new(width, height, bits_per_pixel, interlaced, byte_len);
    let mut out: Vec<(usize, Option<u8>)> = Vec::new();
    while let Some(x) = it.next() {
        out.push(x);
        assert!(out.len() <= byte_len, "ran longer than the buffer");
    }
    out
}

fn patterned(n: usize) -> Vec<u8> {
    let mut v: Vec<u8> = Vec::new();
    let mut i: usize = 0;
    while i < n {
        v.push((i as u8).wrapping_mul(31).wrapping_add(7));
        i += 1;
    }
    v
}

#[test]
fn simple_10x3_lines() {
    let ranges = collect_ranges(10, 3, 8, false, 33);
    assert_eq!(ranges.len(), 3);
    for r in &ranges {
        assert_eq!(*r, (11, None));
    }
    let total: usize = ranges.iter().map(|r| r.0).sum();
    assert_eq!(total, 33);
}

#[test]
fn simple_10x3_view() {
    let buf = patterned(33);
    let mut view = ScanLines::new(10, 3, 8, false, &buf);
    let mut count: usize = 0;
    while let Some(line) = view.next() {
        assert_eq!(line.filter, buf[count * 11]);
        assert_eq!(line.data, &buf[count * 11 + 1..(count + 1) * 11]);
        assert_eq!(line.data.len(), 10);
        assert_eq!(line.pass, None);
        count += 1;
    }
    assert_eq!(count, 3);
}

#[test]
fn interlaced_1x1_single_line() {
    let ranges = collect_ranges(1, 1, 8, true, 2);
    assert_eq!(ranges, vec![(2, Some(1))]);

    let buf: Vec<u8> = vec![4, 42];
    let mut view = ScanLines::new(1, 1, 8, true, &buf);
    let first = view.next().expect("one scan line");
    assert_eq!(first.filter, 4);
    assert_eq!(first.data, &[42]);
    assert_eq!(first.pass, Some(1));
    assert!(view.next().is_none());
}

#[test]
fn interlaced_8x8_pass_structure() {
    let ranges = collect_ranges(8, 8, 8, true, 79);
    let expected: Vec<(usize, Option<u8>)> = vec![
        (2, Some(1)),
        (2, Some(2)),
        (3, Some(3)),
        (3, Some(4)),
        (3, Some(4)),
        (5, Some(5)),
        (5, Some(5)),
        (5, Some(6)),
        (5, Some(6)),
        (5, Some(6)),
        (5, Some(6)),
        (9, Some(7)),
        (9, Some(7)),
        (9, Some(7)),
        (9, Some(7)),
    ];
    assert_eq!(ranges, expected);
    // Passes never decrease, and the per-pass counts sum to the total.
    let mut last: u8 = 1;
    let mut counts: [usize; 8] = [0; 8];
    for r in &ranges {
        let p = r.1.expect("interlaced lines carry a pass");
        assert!(p >= last && p <= 7);
        last = p;
        counts[p as usize] += 1;
    }
    let total: usize = counts.iter().sum();
    assert_eq!(total, ranges.len());
    assert_eq!(counts, [0, 1, 1, 1, 2, 2, 4, 4], "row count of each pass for 8x8");
}

#[test]
fn narrow_image_has_no_pass_two() {
    let ranges = collect_ranges(3, 8, 8, true, 38);
    assert!(!ranges.is_empty());
    for r in &ranges {
        assert_ne!(r.1, Some(2), "width < 5 must skip pass 2");
    }
    let total: usize = ranges.iter().map(|r| r.0).sum();
    assert_eq!(total, 38);
}

#[test]
fn short_image_has_no_pass_three() {
    let ranges = collect_ranges(8, 3, 8, true, 31);
    let expected: Vec<(usize, Option<u8>)> = vec![
        (2, Some(1)),
        (2, Some(2)),
        (3, Some(4)),
        (5, Some(5)),
        (5, Some(6)),
        (5, Some(6)),
        (9, Some(7)),
    ];
    assert_eq!(ranges, expected);
    for r in &ranges {
        assert_ne!(r.1, Some(3), "height < 5 must skip pass 3");
    }
}

#[test]
fn sub_byte_depths_round_up() {
    // 10 pixels at 1 bit per pixel: ceil(10/8) = 2 payload bytes per line.
    let ranges = collect_ranges(10, 2, 1, false, 6);
    assert_eq!(ranges, vec![(3, None), (3, None)]);
    // 5 pixels at 4 bits per pixel: ceil(20/8) = 3 payload bytes per line.
    let ranges = collect_ranges(5, 2, 4, false, 8);
    assert_eq!(ranges, vec![(4, None), (4, None)]);
}

#[test]
fn interlaced_5x5_16bpp_lengths() {
    let ranges = collect_ranges(5, 5, 16, true, 61);
    let expected: Vec<(usize, Option<u8>)> = vec![
        (3, Some(1)),
        (3, Some(2)),
        (5, Some(3)),
        (3, Some(4)),
        (3, Some(4)),
        (7, Some(5)),
        (5, Some(6)),
        (5, Some(6)),
        (5, Some(6)),
        (11, Some(7)),
        (11, Some(7)),
    ];
    assert_eq!(ranges, expected);
}

#[test]
fn required_len_matches_traversal() {
    let cases: Vec<(u32, u32, u8, bool)> = vec![
        (10, 3, 8, false),
        (8, 8, 8, true),
        (3, 8, 8, true),
        (8, 3, 8, true),
        (5, 5, 16, true),
        (10, 2, 1, false),
        (4, 4, 8, true),
        (1, 1, 8, true),
    ];
    for (w, h, bpp, inter) in cases {
        let n = scanlines::required_len(w, h, bpp, inter).expect("total fits a usize");
        let ranges = collect_ranges(w, h, bpp, inter, n);
        let total: usize = ranges.iter().map(|r| r.0).sum();
        assert_eq!(total, n, "the traversal must end exactly at the computed total");
    }
    // For images of at least 3x3 pixels the walk total is the datastream
    // length itself.
    assert_eq!(scanlines::required_len(10, 3, 8, false), Some(33));
    assert_eq!(scanlines::required_len(8, 8, 8, true), Some(79));
    assert_eq!(scanlines::required_len(3, 8, 8, true), Some(38));
    assert_eq!(scanlines::required_len(8, 3, 8, true), Some(31));
    assert_eq!(scanlines::required_len(5, 5, 16, true), Some(61));
}

#[test]
fn exhausted_calculator_stays_exhausted() {
    let mut it = ScanLineRanges::new(10, 3, 8, false, 33);
    let mut count: usize = 0;
    while it.next().is_some() {
        count += 1;
    }
    assert_eq!(count, 3);
    assert!(it.next().is_none());
    assert!(it.next().is_none());
}

#[test]
fn round_trip_simple() {
    let buf = patterned(33);
    let mut view = ScanLines::new(10, 3, 8, false, &buf);
    let mut rebuilt: Vec<u8> = Vec::new();
    while let Some(line) = view.next() {
        rebuilt.push(line.filter);
        rebuilt.extend_from_slice(line.data);
    }
    assert_eq!(rebuilt, buf);
}

#[test]
fn round_trip_interlaced() {
    let buf = patterned(79);
    let mut view = ScanLines::new(8, 8, 8, true, &buf);
    let mut rebuilt: Vec<u8> = Vec::new();
    while let Some(line) = view.next() {
        rebuilt.push(line.filter);
        rebuilt.extend_from_slice(line.data);
    }
    assert_eq!(rebuilt, buf);
}

#[test]
fn mutable_view_matches_readonly() {
    let buf = patterned(38);
    let mut ro = ScanLines::new(3, 8, 8, true, &buf);
    let mut rw = ScanLinesMut::new(3, 8, 8, true, buf.clone());
    loop {
        match (ro.next(), rw.next()) {
            (Some(a), Some(b)) => {
                assert_eq!(a.filter, b.filter);
                assert_eq!(a.pass, b.pass);
                assert_eq!(a.data.len(), b.data_len);
                assert_eq!(a.data, &buf[b.data_start..b.data_start + b.data_len]);
            }
            (None, None) => break,
            _ => panic!("the two traversals must end together"),
        }
    }
}

#[test]
fn mutation_is_visible_and_isolated() {
    let buf = patterned(33);
    let mut view = ScanLinesMut::new(10, 3, 8, false, buf.clone());
    let mut lines: Vec<scanlines::ScanLineMut> = Vec::new();
    while let Some(line) = view.next() {
        lines.push(line);
    }
    assert_eq!(lines.len(), 3);
    // Write one byte through scan line 1's payload range.
    let target: usize = lines[1].data_start + 4;
    let old = view.get(target);
    let new = old.wrapping_add(1);
    view.set(target, new);
    assert_eq!(view.get(target), new, "the write must be visible on re-read");
    let after = view.into_inner();
    assert_eq!(after.len(), buf.len());
    let mut i: usize = 0;
    while i < after.len() {
        if i == target {
            assert_eq!(after[i], new);
        } else {
            assert_eq!(after[i], buf[i], "no byte of any other scan line may change");
        }
        i += 1;
    }
    // The changed position belongs to line 1's payload and no other line's.
    assert!(lines[1].data_start <= target && target < lines[1].data_start + lines[1].data_len);
    assert!(target >= lines[0].data_start + lines[0].data_len);
    assert!(target < lines[2].data_start - 1);
}
