use vstd::prelude::*;

use vstd::string::StringSliceAdditionalSpecFns;

use crate::ppm::{decimal, push_decimal};

verus! {

/// The seed of the random stream of the pixel in column `i` of row `j` of an
/// image `width` pixels wide: its row-major index `j * width + i`.
pub open spec fn seed_of(i: nat, j: nat, width: nat) -> nat {
    j * width + i
}

/// The seed for pixel `(i, j)`. Each pixel draws its samples from a stream
/// seeded by its own position, so what a pixel receives does not depend on
/// which worker renders it or when.
pub fn pixel_seed(i: usize, j: usize, width: usize) -> (r: u64)
    requires
        i < width,
        seed_of(i as nat, j as nat, width as nat) <= u64::MAX,
    ensures
        r as nat == seed_of(i as nat, j as nat, width as nat),
{
    assert(j * width <= j * width + i) by (nonlinear_arith)
        requires
            i < width,
    ;
    let row_start: u64 = (j as u64) * (width as u64);
    row_start + i as u64
}

/// Two pixels of one image share a seed only if they are the same pixel,
/// so no two pixels replay the same random stream.
pub proof fn lemma_pixel_seeds_distinct(i1: nat, j1: nat, i2: nat, j2: nat, width: nat)
    requires
        i1 < width,
        i2 < width,
        seed_of(i1, j1, width) == seed_of(i2, j2, width),
    ensures
        i1 == i2,
        j1 == j2,
{
    assert(j1 == j2 && i1 == i2) by (nonlinear_arith)
        requires
            i1 < width,
            i2 < width,
            j1 * width + i1 == j2 * width + i2,
    {
        if j1 < j2 {
            assert(j1 * width + width <= j2 * width);
        } else if j2 < j1 {
            assert(j2 * width + width <= j1 * width);
        }
    }
}

/// The progress report written while rendering:
/// `\rScanlines remaining: {n} `, which overwrites the previous one.
pub open spec fn progress_text(remaining: nat) -> Seq<u8> {
    seq![13u8] + "Scanlines remaining: ".spec_bytes() + decimal(remaining) + seq![
        32u8,
    ]
}

/// The progress report for `remaining` rows still to render.
pub fn progress_line(remaining: u64) -> (r: Vec<u8>)
    ensures
        r@ == progress_text(remaining as nat),
{
    let mut out: Vec<u8> = Vec::new();
    out.push(13u8);
    let bytes = "Scanlines remaining: ".as_bytes();
    let mut k: usize = 0;
    while k < bytes.len()
        invariant
            k <= bytes@.len(),
            bytes@ == "Scanlines remaining: ".spec_bytes(),
            out@ == seq![13u8] + bytes@.take(k as int),
        decreases bytes@.len() - k,
    {
        out.push(bytes[k]);
        assert(bytes@.take(k + 1) =~= bytes@.take(k as int).push(bytes@[k as int]));
        k = k + 1;
    }
    assert(bytes@.take(k as int) =~= bytes@);
    push_decimal(&mut out, remaining);
    out.push(32u8);
    assert(out@ =~= progress_text(remaining as nat));
    out
}

} // verus!
