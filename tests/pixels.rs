use etl_bitmaps::bitmap::{to_bmp, u16_as_bytes, u32_as_bytes};
use etl_bitmaps::flip::vertically_flip_image;
use etl_bitmaps::normalize::shift_6bpp_image;
use etl_bitmaps::palette::color_table;

fn repack_6bpp(samples: &[u8]) -> Vec<u8> {
    let mut out = Vec::new();
    for g in samples.chunks(4) {
        let (a, b, c, d) = (g[0] & 63, g[1] & 63, g[2] & 63, g[3] & 63);
        out.push((a << 2) | (b >> 4));
        out.push((b << 4) | (c >> 2));
        out.push((c << 6) | d);
    }
    out
}

#[test]
fn six_bit_triple_unpacks_to_four_samples() {
    assert_eq!(shift_6bpp_image(vec![0xAB, 0xCD, 0xEF]), vec![42, 60, 55, 47]);
}

#[test]
fn six_bit_round_trip_on_every_first_byte() {
    for b0 in 0..=255u8 {
        for &(b1, b2) in &[(0u8, 0u8), (0xFF, 0xFF), (0x5A, 0xA5), (0x12, 0xFE)] {
            let samples = shift_6bpp_image(vec![b0, b1, b2]);
            assert_eq!(samples.len(), 4);
            assert!(samples.iter().all(|&s| s < 64));
            assert_eq!(repack_6bpp(&samples), vec![b0, b1, b2]);
        }
    }
}

#[test]
fn six_bit_buffer_of_several_groups() {
    let input = vec![0xFF, 0xFF, 0xFF, 0x00, 0x00, 0x00, 0x04, 0x10, 0x41];
    let out = shift_6bpp_image(input.clone());
    assert_eq!(out, vec![63, 63, 63, 63, 0, 0, 0, 0, 1, 1, 1, 1]);
    assert_eq!(repack_6bpp(&out), input);
}

#[test]
fn six_bit_empty_buffer() {
    assert_eq!(shift_6bpp_image(vec![]), Vec::<u8>::new());
}

#[test]
fn flip_reverses_rows() {
    assert_eq!(vertically_flip_image(vec![1, 2, 3, 4, 5, 6], 2), vec![5, 6, 3, 4, 1, 2]);
    assert_eq!(vertically_flip_image(vec![1, 2, 3, 4, 5, 6], 3), vec![4, 5, 6, 1, 2, 3]);
    assert_eq!(vertically_flip_image(vec![1, 2, 3], 3), vec![1, 2, 3]);
    assert_eq!(vertically_flip_image(vec![], 4), Vec::<u8>::new());
}

#[test]
fn flip_twice_is_identity() {
    let x: Vec<u8> = (0..60u8).collect();
    for s in [1u8, 2, 3, 4, 5, 6, 10, 12, 15, 20, 30] {
        let once = vertically_flip_image(x.clone(), s);
        assert_ne!(once, x);
        assert_eq!(vertically_flip_image(once, s), x);
    }
    assert_eq!(vertically_flip_image(x.clone(), 60), x);
}

#[test]
fn palette_one_bit() {
    assert_eq!(color_table(2, 1), vec![0, 0, 0, 0, 255, 255, 255, 0]);
}

#[test]
fn palette_four_bit_steps_of_seventeen() {
    let t = color_table(16, 4);
    assert_eq!(t.len(), 64);
    for i in 0..16 {
        let v = (17 * i) as u8;
        assert_eq!(&t[4 * i..4 * i + 4], &[v, v, v, 0]);
    }
}

#[test]
fn palette_six_bit_rounds_and_caps() {
    let t = color_table(256, 6);
    assert_eq!(t.len(), 1024);
    assert_eq!(&t[0..4], &[0, 0, 0, 0]);
    assert_eq!(t[4], 4);
    assert_eq!(t[4 * 11], 45);
    assert_eq!(t[4 * 32], 130);
    assert_eq!(t[4 * 63], 255);
    assert_eq!(t[4 * 64], 255);
    assert_eq!(t[4 * 255], 255);
}

#[test]
fn palette_entries_never_decrease() {
    for (n, bpp) in [(2u32, 1u8), (16, 4), (256, 6), (256, 8)] {
        let t = color_table(n, bpp);
        assert_eq!(&t[0..4], &[0, 0, 0, 0]);
        for i in 1..n as usize {
            assert!(t[4 * i] >= t[4 * (i - 1)]);
            assert_eq!(t[4 * i], t[4 * i + 1]);
            assert_eq!(t[4 * i], t[4 * i + 2]);
            assert_eq!(t[4 * i + 3], 0);
        }
    }
}

#[test]
fn palette_empty() {
    assert_eq!(color_table(0, 4), Vec::<u8>::new());
}

#[test]
fn little_endian_numbers() {
    assert_eq!(u32_as_bytes(0x12345678), vec![0x78, 0x56, 0x34, 0x12]);
    assert_eq!(u32_as_bytes(2134), vec![0x56, 0x08, 0, 0]);
    assert_eq!(u32_as_bytes(u32::MAX), vec![255, 255, 255, 255]);
    assert_eq!(u16_as_bytes(0x0102), vec![2, 1]);
    assert_eq!(u16_as_bytes(4), vec![4, 0]);
}

fn u32_at(b: &[u8], at: usize) -> u32 {
    u32::from_le_bytes([b[at], b[at + 1], b[at + 2], b[at + 3]])
}

fn u16_at(b: &[u8], at: usize) -> u16 {
    u16::from_le_bytes([b[at], b[at + 1]])
}

#[test]
fn bmp_four_bit_64_by_63() {
    let pixels: Vec<u8> = (0..2016u32).map(|i| (i % 251) as u8).collect();
    let bmp = to_bmp(pixels.clone(), 4, 64, 63);
    assert_eq!(bmp.len(), 2134);
    assert_eq!(&bmp[0..2], b"BM");
    assert_eq!(u32_at(&bmp, 2), 2134);
    assert_eq!(u32_at(&bmp, 6), 0);
    assert_eq!(u32_at(&bmp, 10), 118);
    assert_eq!(u32_at(&bmp, 14), 40);
    assert_eq!(u32_at(&bmp, 18), 64);
    assert_eq!(u32_at(&bmp, 22), 63);
    assert_eq!(u16_at(&bmp, 26), 1);
    assert_eq!(u16_at(&bmp, 28), 4);
    assert_eq!(u32_at(&bmp, 30), 0);
    assert_eq!(u32_at(&bmp, 34), 0);
    assert_eq!(u32_at(&bmp, 38), 0);
    assert_eq!(u32_at(&bmp, 42), 0);
    assert_eq!(u32_at(&bmp, 46), 16);
    assert_eq!(u32_at(&bmp, 50), 16);
    assert_eq!(&bmp[54..118], &color_table(16, 4)[..]);
    assert_eq!(&bmp[118..], &pixels[..]);
}

#[test]
fn bmp_six_bit_declares_eight() {
    let pixels = vec![7u8; 3600];
    let bmp = to_bmp(pixels, 6, 60, 60);
    assert_eq!(bmp.len(), 1078 + 3600);
    assert_eq!(u32_at(&bmp, 2), 4678);
    assert_eq!(u32_at(&bmp, 10), 1078);
    assert_eq!(u16_at(&bmp, 28), 8);
    assert_eq!(u32_at(&bmp, 46), 256);
    assert_eq!(&bmp[54..1078], &color_table(256, 6)[..]);
}

#[test]
fn bmp_one_bit_empty_pixels() {
    let bmp = to_bmp(vec![], 1, 8, 1);
    assert_eq!(bmp.len(), 62);
    assert_eq!(u32_at(&bmp, 2), 62);
    assert_eq!(u16_at(&bmp, 28), 1);
    assert_eq!(u32_at(&bmp, 46), 2);
    assert_eq!(&bmp[54..62], &[0, 0, 0, 0, 255, 255, 255, 0]);
}
