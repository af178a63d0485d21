//! The greyscale colour table of an indexed bitmap.

use vstd::prelude::*;
use vstd::arithmetic::power2::{pow2, lemma2_to64, lemma_pow2_unfold, lemma_pow2_strictly_increases};
use vstd::arithmetic::div_mod::{lemma_div_is_ordered, lemma_fundamental_div_mod_converse};

verus! {

/// The number of steps of a ramp at `bits_per_pixel` bits: `2^bits_per_pixel - 1`.
pub open spec fn ramp_steps(bits_per_pixel: nat) -> int {
    pow2(bits_per_pixel) - 1
}

/// The grey level of palette entry `i`: `255 * i / ramp_steps` rounded to the
/// nearest integer, and at most 255.
#[verifier::opaque]
pub open spec fn palette_level(i: int, bits_per_pixel: nat) -> int {
    let d = ramp_steps(bits_per_pixel);
    let v = (510 * i + d) / (2 * d);
    if v > 255 {
        255
    } else {
        v
    }
}

/// The colour table of `n_colors` entries, each four bytes: blue, green and
/// red at the entry's grey level, then a zero byte.
pub open spec fn palette_bytes(n_colors: nat, bits_per_pixel: nat) -> Seq<u8> {
    Seq::new(
        4 * n_colors,
        |k: int|
            if k % 4 == 3 {
                0u8
            } else {
                palette_level(k / 4, bits_per_pixel) as u8
            },
    )
}

/// `2^e`, for the exponents that a bitmap's bit depth can take.
pub(crate) fn two_to_the(e: u8) -> (r: u32)
    requires
        e <= 8,
    ensures
        r as nat == pow2(e as nat),
        1 <= r <= 256,
        e >= 1 ==> r >= 2,
{
    proof {
        lemma2_to64();
    }
    let mut p: u32 = 1;
    let mut j: u8 = 0;
    while j < e
        invariant
            j <= e <= 8,
            p as nat == pow2(j as nat),
        decreases e - j,
    {
        proof {
            lemma_pow2_unfold((j + 1) as nat);
            lemma_pow2_strictly_increases(j as nat, 8);
            lemma2_to64();
        }
        p = p * 2;
        j += 1;
    }
    proof {
        if e < 8 {
            lemma_pow2_strictly_increases(e as nat, 8);
        }
        if e >= 1 {
            lemma_pow2_strictly_increases(0, e as nat);
        }
    }
    p
}

/// A ramp of at least one bit has at least one step.
proof fn lemma_ramp_steps_positive(bits_per_pixel: nat)
    requires
        1 <= bits_per_pixel,
    ensures
        ramp_steps(bits_per_pixel) >= 1,
{
    lemma_pow2_strictly_increases(0, bits_per_pixel);
    lemma2_to64();
}

/// The level of entry 0 is black.
proof fn lemma_level_zero(bits_per_pixel: nat)
    requires
        1 <= bits_per_pixel,
    ensures
        palette_level(0, bits_per_pixel) == 0,
{
    let d = ramp_steps(bits_per_pixel);
    lemma_ramp_steps_positive(bits_per_pixel);
    lemma_fundamental_div_mod_converse(d, 2 * d, 0, d);
    reveal(palette_level);
}

/// Levels are ordered as their entries are, and lie within a byte.
proof fn lemma_level_ordered(i: int, j: int, bits_per_pixel: nat)
    requires
        1 <= bits_per_pixel,
        0 <= i <= j,
    ensures
        0 <= palette_level(i, bits_per_pixel) <= palette_level(j, bits_per_pixel) <= 255,
{
    let d = ramp_steps(bits_per_pixel);
    lemma_ramp_steps_positive(bits_per_pixel);
    lemma_level_zero(bits_per_pixel);
    lemma_div_is_ordered(d, 510 * i + d, 2 * d);
    lemma_div_is_ordered(510 * i + d, 510 * j + d, 2 * d);
    reveal(palette_level);
}

/// The grey levels of a palette never decrease from one entry to the next,
/// start at black and stay within a byte; within an entry blue, green and red
/// are equal, and the fourth byte is zero.
pub proof fn lemma_palette_ramp(n_colors: nat, bits_per_pixel: nat)
    requires
        1 <= bits_per_pixel <= 8,
    ensures
        palette_bytes(n_colors, bits_per_pixel).len() == 4 * n_colors,
        forall|i: int, j: int|
            0 <= i <= j < n_colors ==> 0 <= #[trigger] palette_level(i, bits_per_pixel)
                <= #[trigger] palette_level(j, bits_per_pixel) <= 255,
        forall|a: int, b: int|
            0 <= a < 4 * n_colors && 0 <= b < 4 * n_colors && a / 4 <= b / 4 && a % 4 != 3 && b
                % 4 != 3 ==> #[trigger] palette_bytes(n_colors, bits_per_pixel)[a]
                <= #[trigger] palette_bytes(n_colors, bits_per_pixel)[b],
        forall|a: int|
            #![trigger palette_bytes(n_colors, bits_per_pixel)[a]]
            0 <= a < 4 * n_colors ==> if a % 4 == 3 {
                palette_bytes(n_colors, bits_per_pixel)[a] == 0
            } else {
                palette_bytes(n_colors, bits_per_pixel)[a] == palette_level(a / 4, bits_per_pixel)
            },
        n_colors > 0 ==> palette_bytes(n_colors, bits_per_pixel).take(4) == seq![0u8, 0u8, 0u8, 0u8],
{
    let p = palette_bytes(n_colors, bits_per_pixel);
    lemma_level_zero(bits_per_pixel);
    assert forall|i: int, j: int|
        0 <= i <= j < n_colors implies 0 <= #[trigger] palette_level(i, bits_per_pixel)
            <= #[trigger] palette_level(j, bits_per_pixel) <= 255 by {
        lemma_level_ordered(i, j, bits_per_pixel);
    }
    assert forall|a: int, b: int|
        0 <= a < 4 * n_colors && 0 <= b < 4 * n_colors && a / 4 <= b / 4 && a % 4 != 3 && b % 4
            != 3 implies #[trigger] p[a] <= #[trigger] p[b] by {
        lemma_level_ordered(a / 4, b / 4, bits_per_pixel);
    }
    if n_colors > 0 {
        assert(p.take(4) =~= seq![0u8, 0u8, 0u8, 0u8]);
    }
}

/// Builds the greyscale colour table of `n_colors` entries for samples of
/// `bits_per_pixel` bits: a linear ramp from black, rounded, capped at white.
pub fn color_table(n_colors: u32, bits_per_pixel: u8) -> (r: Vec<u8>)
    requires
        1 <= bits_per_pixel <= 8,
        4 * n_colors <= usize::MAX,
    ensures
        r@ == palette_bytes(n_colors as nat, bits_per_pixel as nat),
{
    let d: u64 = (two_to_the(bits_per_pixel) - 1) as u64;
    let ghost want = palette_bytes(n_colors as nat, bits_per_pixel as nat);
    let mut out: Vec<u8> = Vec::new();
    let mut i: u32 = 0;
    while i < n_colors
        invariant
            1 <= bits_per_pixel <= 8,
            d == ramp_steps(bits_per_pixel as nat),
            1 <= d <= 255,
            i <= n_colors,
            want == palette_bytes(n_colors as nat, bits_per_pixel as nat),
            out@ =~= want.take(4 * i as int),
        decreases n_colors - i,
    {
        let v: u64 = (510 * (i as u64) + d) / (2 * d);
        let c: u8 = if v > 255 {
            255
        } else {
            v as u8
        };
        assert(c == palette_level(i as int, bits_per_pixel as nat)) by {
            reveal(palette_level);
        }
        out.push(c);
        out.push(c);
        out.push(c);
        out.push(0);
        i += 1;
        assert(out@ =~= want.take(4 * i as int));
    }
    assert(out@ =~= want);
    out
}

} // verus!
