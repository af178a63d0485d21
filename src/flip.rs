//! Reversal of the row order of a pixel buffer.

use vstd::prelude::*;
use vstd::arithmetic::div_mod::lemma_fundamental_div_mod_converse;

verus! {

/// The buffer `x`, read as rows of `s` bytes, with the rows in reverse order.
pub open spec fn flip_rows(x: Seq<u8>, s: nat) -> Seq<u8> {
    let w = s as int;
    let rows = x.len() as int / w;
    Seq::new(x.len(), |k: int| x[(rows - 1 - k / w) * w + k % w])
}

/// The index that byte `k` of a flipped buffer is read from, and where it lies.
proof fn lemma_flip_index(k: int, rows: int, s: int)
    requires
        s > 0,
        0 <= k < rows * s,
    ensures
        0 <= (rows - 1 - k / s) * s + k % s < rows * s,
        ((rows - 1 - k / s) * s + k % s) / s == rows - 1 - k / s,
        ((rows - 1 - k / s) * s + k % s) % s == k % s,
        0 <= k / s < rows,
        (rows - 1 - k / s) * s <= (rows - 1 - k / s) * s + k % s,
{
    let q = k / s;
    let r = k % s;
    assert(k == q * s + r) by (nonlinear_arith)
        requires
            q == k / s,
            r == k % s,
            s > 0,
    ;
    assert(0 <= q < rows) by (nonlinear_arith)
        requires
            k == q * s + r,
            0 <= r < s,
            0 <= k < rows * s,
    ;
    assert(0 <= (rows - 1 - q) * s + r < rows * s) by (nonlinear_arith)
        requires
            0 <= q < rows,
            0 <= r < s,
    ;
    lemma_fundamental_div_mod_converse((rows - 1 - q) * s + r, s, rows - 1 - q, r);
}

/// Flipping the rows twice with the same stride gives back the buffer.
pub proof fn lemma_flip_involution(x: Seq<u8>, s: nat)
    requires
        s > 0,
        x.len() % s == 0,
    ensures
        flip_rows(flip_rows(x, s), s) == x,
{
    let y = flip_rows(x, s);
    let rows = x.len() as int / s as int;
    assert(rows * s == x.len()) by (nonlinear_arith)
        requires
            rows == x.len() as int / s as int,
            x.len() as int % s as int == 0,
            s > 0,
    ;
    assert forall|k: int| 0 <= k < x.len() implies #[trigger] flip_rows(y, s)[k] == x[k] by {
        lemma_flip_index(k, rows, s as int);
        let j = (rows - 1 - k / s as int) * s + k % s as int;
        lemma_flip_index(j, rows, s as int);
        assert(k == (k / s as int) * s + k % s as int) by (nonlinear_arith)
            requires
                s > 0,
        ;
        assert((rows - 1 - (rows - 1 - k / s as int)) * s + k % s as int == k);
    }
    assert(flip_rows(y, s) =~= x);
}

/// Returns the buffer with its rows, `width` bytes each, in reverse order.
pub fn vertically_flip_image(image_bytes: Vec<u8>, width: u8) -> (r: Vec<u8>)
    requires
        width > 0,
        image_bytes@.len() % (width as nat) == 0,
    ensures
        r@ == flip_rows(image_bytes@, width as nat),
{
    let s = width as usize;
    let n = image_bytes.len();
    let rows = n / s;
    let ghost want = flip_rows(image_bytes@, s as nat);
    assert(rows * s == n) by (nonlinear_arith)
        requires
            rows == n / s,
            n % s == 0,
            s > 0,
    ;
    let mut out: Vec<u8> = Vec::new();
    let mut k: usize = 0;
    while k < n
        invariant
            s == width as usize,
            s > 0,
            n == image_bytes@.len(),
            rows == n / s,
            rows * s == n,
            k <= n,
            want == flip_rows(image_bytes@, s as nat),
            out@ =~= want.take(k as int),
        decreases n - k,
    {
        proof {
            lemma_flip_index(k as int, rows as int, s as int);
        }
        let q = k / s;
        let c = k % s;
        let j = (rows - 1 - q) * s + c;
        out.push(image_bytes[j]);
        k += 1;
        assert(out@ =~= want.take(k as int));
    }
    out
}

} // verus!
