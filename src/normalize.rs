//! Unpacking of 6-bit samples, four to every three bytes, into one byte each.

use vstd::prelude::*;

verus! {

/// Sample `k` of a buffer packed at 6 bits per pixel: group `k / 4` of three
/// bytes holds four samples, most significant bits first.
pub open spec fn sample_6bpp(x: Seq<u8>, k: int) -> u8 {
    let g = 3 * (k / 4);
    let j = k % 4;
    if j == 0 {
        x[g] >> 2u8
    } else if j == 1 {
        ((x[g] & 3u8) << 4u8) | (x[g + 1] >> 4u8)
    } else if j == 2 {
        ((x[g + 1] & 15u8) << 2u8) | (x[g + 2] >> 6u8)
    } else {
        x[g + 2] & 63u8
    }
}

/// The samples of a 6-bit packed buffer, one byte each.
pub open spec fn unpack_6bpp(x: Seq<u8>) -> Seq<u8> {
    Seq::new((x.len() / 3 * 4) as nat, |k: int| sample_6bpp(x, k))
}

/// Byte `k` of the packing of the low 6 bits of the samples `y`.
pub open spec fn packed_byte_6bpp(y: Seq<u8>, k: int) -> u8 {
    let g = 4 * (k / 3);
    let j = k % 3;
    if j == 0 {
        ((y[g] & 63u8) << 2u8) | ((y[g + 1] & 63u8) >> 4u8)
    } else if j == 1 {
        ((y[g + 1] & 63u8) << 4u8) | ((y[g + 2] & 63u8) >> 2u8)
    } else {
        ((y[g + 2] & 63u8) << 6u8) | (y[g + 3] & 63u8)
    }
}

/// The low 6 bits of each sample of `y`, packed four samples to three bytes.
pub open spec fn pack_6bpp(y: Seq<u8>) -> Seq<u8> {
    Seq::new((y.len() / 4 * 3) as nat, |k: int| packed_byte_6bpp(y, k))
}

/// The four samples of one group of three bytes, packed again, give back the three bytes.
pub proof fn lemma_triple_round_trip(b0: u8, b1: u8, b2: u8)
    ensures
        ({
            let o0 = b0 >> 2u8;
            let o1 = ((b0 & 3u8) << 4u8) | (b1 >> 4u8);
            let o2 = ((b1 & 15u8) << 2u8) | (b2 >> 6u8);
            let o3 = b2 & 63u8;
            &&& o0 < 64 && o1 < 64 && o2 < 64 && o3 < 64
            &&& ((o0 & 63u8) << 2u8) | ((o1 & 63u8) >> 4u8) == b0
            &&& ((o1 & 63u8) << 4u8) | ((o2 & 63u8) >> 2u8) == b1
            &&& ((o2 & 63u8) << 6u8) | (o3 & 63u8) == b2
        }),
{
    assert(b0 >> 2u8 < 64) by (bit_vector);
    assert(((b0 & 3u8) << 4u8) | (b1 >> 4u8) < 64) by (bit_vector);
    assert(((b1 & 15u8) << 2u8) | (b2 >> 6u8) < 64) by (bit_vector);
    assert(b2 & 63u8 < 64) by (bit_vector);
    assert((((b0 >> 2u8) & 63u8) << 2u8) | (((((b0 & 3u8) << 4u8) | (b1 >> 4u8)) & 63u8) >> 4u8)
        == b0) by (bit_vector);
    assert((((((b0 & 3u8) << 4u8) | (b1 >> 4u8)) & 63u8) << 4u8) | (((((b1 & 15u8) << 2u8) | (
    b2 >> 6u8)) & 63u8) >> 2u8) == b1) by (bit_vector);
    assert((((((b1 & 15u8) << 2u8) | (b2 >> 6u8)) & 63u8) << 6u8) | ((b2 & 63u8) & 63u8) == b2)
        by (bit_vector);
}

/// Every sample of an unpacked buffer fits in 6 bits.
pub proof fn lemma_samples_fit_6_bits(x: Seq<u8>, k: int)
    requires
        x.len() % 3 == 0,
        0 <= k < unpack_6bpp(x).len(),
    ensures
        unpack_6bpp(x)[k] < 64,
{
    let g = 3 * (k / 4);
    lemma_triple_round_trip(x[g], x[g + 1], x[g + 2]);
}

/// Packing the low 6 bits of the unpacked samples again gives back the buffer.
pub proof fn lemma_unpack_round_trip(x: Seq<u8>)
    requires
        x.len() % 3 == 0,
    ensures
        pack_6bpp(unpack_6bpp(x)) == x,
{
    let y = unpack_6bpp(x);
    assert forall|k: int| 0 <= k < x.len() implies #[trigger] pack_6bpp(y)[k] == x[k] by {
        let g = k / 3;
        lemma_triple_round_trip(x[3 * g], x[3 * g + 1], x[3 * g + 2]);
        assert(y[4 * g] == sample_6bpp(x, 4 * g));
        assert(y[4 * g + 1] == sample_6bpp(x, 4 * g + 1));
        assert(y[4 * g + 2] == sample_6bpp(x, 4 * g + 2));
        assert(y[4 * g + 3] == sample_6bpp(x, 4 * g + 3));
    }
    assert(pack_6bpp(y) =~= x);
}

/// Unpacks a buffer of 6-bit samples, four to every three bytes, into one
/// byte per sample, each in the low 6 bits.
pub fn shift_6bpp_image(image_bytes: Vec<u8>) -> (r: Vec<u8>)
    requires
        image_bytes@.len() % 3 == 0,
    ensures
        r@ == unpack_6bpp(image_bytes@),
        forall|k: int| 0 <= k < r@.len() ==> #[trigger] r@[k] < 64,
{
    let n = image_bytes.len();
    let groups = n / 3;
    let ghost want = unpack_6bpp(image_bytes@);
    let mut out: Vec<u8> = Vec::new();
    let mut i: usize = 0;
    while i < groups
        invariant
            n == image_bytes@.len(),
            n % 3 == 0,
            groups == n / 3,
            i <= groups,
            want == unpack_6bpp(image_bytes@),
            out@ =~= want.take(4 * i as int),
        decreases groups - i,
    {
        let a = image_bytes[3 * i];
        let b = image_bytes[3 * i + 1];
        let c = image_bytes[3 * i + 2];
        out.push(a >> 2u8);
        out.push(((a & 3u8) << 4u8) | (b >> 4u8));
        out.push(((b & 15u8) << 2u8) | (c >> 6u8));
        out.push(c & 63u8);
        i += 1;
        assert(out@ =~= want.take(4 * i as int));
    }
    assert(out@ =~= want);
    proof {
        assert forall|k: int| 0 <= k < out@.len() implies #[trigger] out@[k] < 64 by {
            lemma_samples_fit_6_bits(image_bytes@, k);
        }
    }
    out
}

} // verus!
