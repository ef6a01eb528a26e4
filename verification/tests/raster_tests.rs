use pixel_displace::raster::{RasterBuffer, RasterFormat};

fn format(width: u32, height: u32, spp: u32, stride: usize) -> RasterFormat {
    RasterFormat { width, height, samples_per_pixel: spp, bit_depth: 8, stride }
}

fn buffer_from(width: u32, height: u32, spp: u32, stride: usize, pixels: Vec<u8>) -> RasterBuffer {
    assert_eq!(pixels.len(), stride * height as usize);
    RasterBuffer { format: format(width, height, spp, stride), pixels }
}

fn pixel(buf: &RasterBuffer, row: usize, col: usize) -> Vec<u8> {
    let off = buf.pixel_offset(row, col);
    buf.pixels[off..off + buf.format.samples_per_pixel as usize].to_vec()
}

#[test]
fn pixel_offset_matches_formula_with_padding() {
    // 4 pixels of 3 samples per row, stride 14: two padding bytes per row.
    let buf = buffer_from(4, 3, 3, 14, vec![0; 42]);
    for row in 0..3 {
        for col in 0..4 {
            assert_eq!(buf.pixel_offset(row, col), row * 14 + col * 3);
        }
    }
}

#[test]
fn pixel_offsets_are_distinct_over_the_grid() {
    let buf = buffer_from(5, 4, 3, 15, vec![0; 60]);
    let mut seen = Vec::new();
    for row in 0..4 {
        for col in 0..5 {
            let off = buf.pixel_offset(row, col);
            assert!(!seen.contains(&off));
            assert!(off + 3 <= buf.pixels.len());
            seen.push(off);
        }
    }
}

#[test]
fn allocate_is_zero_filled_with_exact_size() {
    let fmt = format(6, 5, 4, 24);
    let buf = RasterBuffer::allocate(fmt);
    assert_eq!(buf.format, fmt);
    assert_eq!(buf.pixels.len(), 120);
    assert!(buf.pixels.iter().all(|&b| b == 0));
}

#[test]
fn copy_pixel_roundtrip_one_sample() {
    let src = buffer_from(3, 2, 1, 3, vec![1, 2, 3, 4, 5, 6]);
    let mut dst = RasterBuffer::allocate(src.format);
    dst.copy_pixel(&src, 1, 2);
    assert_eq!(pixel(&dst, 1, 2), pixel(&src, 1, 2));
    assert_eq!(pixel(&dst, 1, 2), vec![6]);
}

#[test]
fn copy_pixel_roundtrip_three_samples() {
    let src = buffer_from(2, 2, 3, 6, vec![10, 11, 12, 20, 21, 22, 30, 31, 32, 40, 41, 42]);
    let mut dst = RasterBuffer::allocate(src.format);
    dst.copy_pixel(&src, 1, 0);
    assert_eq!(pixel(&dst, 1, 0), vec![30, 31, 32]);
    // Every other pixel of the destination is still zero.
    assert_eq!(pixel(&dst, 0, 0), vec![0, 0, 0]);
    assert_eq!(pixel(&dst, 0, 1), vec![0, 0, 0]);
    assert_eq!(pixel(&dst, 1, 1), vec![0, 0, 0]);
}

#[test]
fn copy_pixel_roundtrip_four_samples() {
    let src = buffer_from(2, 1, 4, 8, vec![1, 2, 3, 4, 5, 6, 7, 8]);
    let mut dst = RasterBuffer::allocate(src.format);
    dst.copy_pixel(&src, 0, 1);
    assert_eq!(pixel(&dst, 0, 1), vec![5, 6, 7, 8]);
    assert_eq!(pixel(&dst, 0, 0), vec![0, 0, 0, 0]);
}

#[test]
fn copy_row_copies_only_that_row() {
    let src = buffer_from(2, 3, 1, 2, vec![1, 2, 3, 4, 5, 6]);
    let mut dst = buffer_from(2, 3, 1, 2, vec![9; 6]);
    dst.copy_row(&src, 1);
    assert_eq!(dst.pixels, vec![9, 9, 3, 4, 9, 9]);
}

#[test]
fn copy_col_copies_only_that_column() {
    let src = buffer_from(2, 3, 1, 2, vec![1, 2, 3, 4, 5, 6]);
    let mut dst = buffer_from(2, 3, 1, 2, vec![9; 6]);
    dst.copy_col(&src, 0);
    assert_eq!(dst.pixels, vec![1, 9, 3, 9, 5, 9]);
}

#[test]
fn copy_row_leaves_padding_alone() {
    // Width 2, one sample per pixel, stride 3: last byte of each row is padding.
    let src = buffer_from(2, 2, 1, 3, vec![1, 2, 7, 3, 4, 7]);
    let mut dst = buffer_from(2, 2, 1, 3, vec![9; 6]);
    dst.copy_row(&src, 0);
    assert_eq!(dst.pixels, vec![1, 2, 9, 9, 9, 9]);
}

#[test]
fn swap_pixel_exchanges_both_positions() {
    let mut buf = buffer_from(2, 2, 2, 4, vec![1, 2, 3, 4, 5, 6, 7, 8]);
    buf.swap_pixel(0, 0, 1, 1);
    assert_eq!(buf.pixels, vec![7, 8, 3, 4, 5, 6, 1, 2]);
}

#[test]
fn swap_pixel_with_itself_changes_nothing() {
    let mut buf = buffer_from(2, 2, 2, 4, vec![1, 2, 3, 4, 5, 6, 7, 8]);
    buf.swap_pixel(1, 0, 1, 0);
    assert_eq!(buf.pixels, vec![1, 2, 3, 4, 5, 6, 7, 8]);
}

#[test]
fn flip_vertical_mirrors_rows() {
    let mut buf = buffer_from(2, 3, 1, 2, vec![1, 2, 3, 4, 5, 6]);
    buf.flip_vertical();
    assert_eq!(buf.pixels, vec![5, 6, 3, 4, 1, 2]);
}

#[test]
fn flip_vertical_even_height() {
    let mut buf = buffer_from(1, 4, 1, 1, vec![1, 2, 3, 4]);
    buf.flip_vertical();
    assert_eq!(buf.pixels, vec![4, 3, 2, 1]);
}

#[test]
fn format_supported_rejects_non_eight_bit() {
    let mut fmt = format(2, 2, 1, 2);
    assert!(fmt.supported());
    fmt.bit_depth = 16;
    assert!(!fmt.supported());
}

#[test]
fn format_supported_rejects_short_stride() {
    let fmt = format(4, 2, 3, 11);
    assert!(!fmt.supported());
}
