//! Assembly of a complete indexed BMP file: headers, colour table, pixel data.

use vstd::prelude::*;
use vstd::arithmetic::power2::{pow2, lemma2_to64};
use crate::palette::{palette_bytes, color_table, two_to_the};

verus! {

/// The four bytes of `n`, least significant first.
pub open spec fn le_u32(n: u32) -> Seq<u8> {
    seq![
        (n % 256) as u8,
        (n / 256 % 256) as u8,
        (n / 65536 % 256) as u8,
        (n / 16777216) as u8,
    ]
}

/// The two bytes of `n`, least significant first.
pub open spec fn le_u16(n: u16) -> Seq<u8> {
    seq![(n % 256) as u8, (n / 256) as u8]
}

/// The depths of source samples that a bitmap can be made from.
pub open spec fn supported_depth(bits_per_pixel: u8) -> bool {
    bits_per_pixel == 1 || bits_per_pixel == 4 || bits_per_pixel == 6
}

/// The depth declared in the bitmap: 6-bit samples are stored one per byte.
pub open spec fn effective_bpp(bits_per_pixel: u8) -> u8 {
    if bits_per_pixel == 6 {
        8
    } else {
        bits_per_pixel
    }
}

/// The number of colour table entries: two to the declared depth.
pub open spec fn color_count(bits_per_pixel: u8) -> nat {
    pow2(effective_bpp(bits_per_pixel) as nat)
}

/// The bytes before the pixel data: file header, info header and colour table.
pub open spec fn header_size(bits_per_pixel: u8) -> nat {
    14 + 40 + 4 * color_count(bits_per_pixel)
}

/// The complete bitmap file for the given pixel data, depth and size.
pub open spec fn bmp_bytes(pixels: Seq<u8>, bits_per_pixel: u8, width: u8, height: u8) -> Seq<u8> {
    let n = color_count(bits_per_pixel);
    let hs = header_size(bits_per_pixel);
    seq![66u8, 77u8] + le_u32((hs + pixels.len()) as u32) + le_u32(0) + le_u32(hs as u32) + le_u32(
        40,
    ) + le_u32(width as u32) + le_u32(height as u32) + le_u16(1) + le_u16(
        effective_bpp(bits_per_pixel) as u16,
    ) + le_u32(0) + le_u32(0) + le_u32(0) + le_u32(0) + le_u32(n as u32) + le_u32(n as u32)
        + palette_bytes(n, bits_per_pixel as nat) + pixels
}

/// The size of the headers of a bitmap at any supported depth.
pub proof fn lemma_header_size(bits_per_pixel: u8)
    requires
        supported_depth(bits_per_pixel),
    ensures
        header_size(bits_per_pixel) == if bits_per_pixel == 1 {
            62nat
        } else if bits_per_pixel == 4 {
            118
        } else {
            1078
        },
{
    lemma2_to64();
}

/// The little-endian bytes of a 32-bit number.
pub fn u32_as_bytes(number: u32) -> (r: Vec<u8>)
    ensures
        r@ == le_u32(number),
{
    let r = vec![
        (number % 256) as u8,
        (number / 256 % 256) as u8,
        (number / 65536 % 256) as u8,
        (number / 16777216) as u8,
    ];
    assert(r@ =~= le_u32(number));
    r
}

/// The little-endian bytes of a 16-bit number.
pub fn u16_as_bytes(number: u16) -> (r: Vec<u8>)
    ensures
        r@ == le_u16(number),
{
    let r = vec![(number % 256) as u8, (number / 256) as u8];
    assert(r@ =~= le_u16(number));
    r
}

/// Encodes pixel data, already in final row order, as an uncompressed
/// indexed bitmap with a greyscale colour table.
pub fn to_bmp(image_bytes: Vec<u8>, bits_per_pixel: u8, width: u8, height: u8) -> (r: Vec<u8>)
    requires
        supported_depth(bits_per_pixel),
        header_size(bits_per_pixel) + image_bytes@.len() <= u32::MAX,
    ensures
        r@ == bmp_bytes(image_bytes@, bits_per_pixel, width, height),
        r@.len() == header_size(bits_per_pixel) + image_bytes@.len(),
{
    proof {
        lemma2_to64();
    }
    let bmp_valid_bpp: u8 = if bits_per_pixel == 6 {
        8
    } else {
        bits_per_pixel
    };
    let n_colors: u32 = two_to_the(bmp_valid_bpp);
    let header_size: u32 = 14 + 40 + 4 * n_colors;
    let mut image_bytes = image_bytes;
    let ghost pixels = image_bytes@;
    let mut out: Vec<u8> = vec![66u8, 77u8];
    out.append(&mut u32_as_bytes(header_size + (image_bytes.len() as u32)));
    out.append(&mut u32_as_bytes(0));
    out.append(&mut u32_as_bytes(header_size));
    out.append(&mut u32_as_bytes(40));
    out.append(&mut u32_as_bytes(width as u32));
    out.append(&mut u32_as_bytes(height as u32));
    out.append(&mut u16_as_bytes(1));
    out.append(&mut u16_as_bytes(bmp_valid_bpp as u16));
    out.append(&mut u32_as_bytes(0));
    out.append(&mut u32_as_bytes(0));
    out.append(&mut u32_as_bytes(0));
    out.append(&mut u32_as_bytes(0));
    out.append(&mut u32_as_bytes(n_colors));
    out.append(&mut u32_as_bytes(n_colors));
    out.append(&mut color_table(n_colors, bits_per_pixel));
    out.append(&mut image_bytes);
    assert(out@ =~= bmp_bytes(pixels, bits_per_pixel, width, height));
    out
}

} // verus!
