use vstd::prelude::*;

use crate::color::Rgb8;

verus! {

/// The ASCII decimal digits of `n`, most significant first, without sign
/// or leading zeros.
pub open spec fn decimal(n: nat) -> Seq<u8>
    decreases n,
{
    if n < 10 {
        seq![(48 + n) as u8]
    } else {
        decimal(n / 10).push((48 + n % 10) as u8)
    }
}

/// Appends the decimal digits of `n` to `out`.
pub fn push_decimal(out: &mut Vec<u8>, n: u64)
    ensures
        final(out)@ == old(out)@ + decimal(n as nat),
    decreases n,
{
    if n >= 10 {
        push_decimal(out, n / 10);
    }
    let d: u8 = (n % 10) as u8;
    out.push(48u8 + d);
    assert(out@ =~= old(out)@ + decimal(n as nat));
}

/// The header of a plain (ASCII) PPM image of the given size, with 255 as
/// the largest channel value: `P3\n{w} {h}\n255\n`.
pub open spec fn header_text(width: nat, height: nat) -> Seq<u8> {
    seq![80u8, 51u8, 10u8] + decimal(width) + seq![32u8] + decimal(height) + seq![10u8, 50u8,
        53u8, 53u8, 10u8]
}

/// The line of one pixel: `{r} {g} {b}\n`.
pub open spec fn pixel_text(c: Rgb8) -> Seq<u8> {
    decimal(c.r as nat) + seq![32u8] + decimal(c.g as nat) + seq![32u8] + decimal(c.b as nat)
        + seq![10u8]
}

/// The lines of a row of pixels, left to right.
pub open spec fn row_text(row: Seq<Rgb8>) -> Seq<u8>
    decreases row.len(),
{
    if row.len() == 0 {
        seq![]
    } else {
        row_text(row.drop_last()) + pixel_text(row.last())
    }
}

/// The lines of all rows, in the order given (top row first).
pub open spec fn rows_text(rows: Seq<Seq<Rgb8>>) -> Seq<u8>
    decreases rows.len(),
{
    if rows.len() == 0 {
        seq![]
    } else {
        rows_text(rows.drop_last()) + row_text(rows.last())
    }
}

/// Whether `rows` is a grid of `height` rows of `width` pixels each.
pub open spec fn is_grid(rows: Seq<Seq<Rgb8>>, width: nat, height: nat) -> bool {
    rows.len() == height && forall|k: int| 0 <= k < rows.len() ==> #[trigger] rows[k].len() == width
}

/// The whole image: header, then one line per pixel, rows top to bottom.
pub open spec fn image_text(rows: Seq<Seq<Rgb8>>, width: nat, height: nat) -> Seq<u8> {
    header_text(width, height) + rows_text(rows)
}

fn push_byte(out: &mut Vec<u8>, b: u8)
    ensures
        final(out)@ == old(out)@.push(b),
{
    out.push(b);
}

/// The header of an image `width` pixels wide and `height` pixels high.
pub fn ppm_header(width: u64, height: u64) -> (r: Vec<u8>)
    ensures
        r@ == header_text(width as nat, height as nat),
{
    let mut out: Vec<u8> = Vec::new();
    push_byte(&mut out, 80u8);
    push_byte(&mut out, 51u8);
    push_byte(&mut out, 10u8);
    push_decimal(&mut out, width);
    push_byte(&mut out, 32u8);
    push_decimal(&mut out, height);
    push_byte(&mut out, 10u8);
    push_byte(&mut out, 50u8);
    push_byte(&mut out, 53u8);
    push_byte(&mut out, 53u8);
    push_byte(&mut out, 10u8);
    assert(out@ =~= header_text(width as nat, height as nat));
    out
}

/// Appends the line of pixel `c` to `out`.
pub fn push_pixel(out: &mut Vec<u8>, c: Rgb8)
    ensures
        final(out)@ == old(out)@ + pixel_text(c),
{
    push_decimal(out, c.r as u64);
    push_byte(out, 32u8);
    push_decimal(out, c.g as u64);
    push_byte(out, 32u8);
    push_decimal(out, c.b as u64);
    push_byte(out, 10u8);
    assert(out@ =~= old(out)@ + pixel_text(c));
}

/// Appends the lines of every pixel of `rows`, rows in order and each row
/// left to right.
pub fn push_rows(out: &mut Vec<u8>, rows: &Vec<Vec<Rgb8>>)
    ensures
        final(out)@ == old(out)@ + rows_text(rows@.map_values(|row: Vec<Rgb8>| row@)),
{
    let ghost grid = rows@.map_values(|row: Vec<Rgb8>| row@);
    let mut k: usize = 0;
    while k < rows.len()
        invariant
            k <= rows@.len(),
            grid == rows@.map_values(|row: Vec<Rgb8>| row@),
            out@ == old(out)@ + rows_text(grid.take(k as int)),
        decreases rows@.len() - k,
    {
        let row = &rows[k];
        let ghost before = out@;
        let mut m: usize = 0;
        while m < row.len()
            invariant
                m <= row@.len(),
                row@ == grid[k as int],
                out@ == before + row_text(row@.take(m as int)),
            decreases row@.len() - m,
        {
            push_pixel(out, row[m]);
            assert(row@.take(m + 1).drop_last() =~= row@.take(m as int));
            assert(out@ =~= before + row_text(row@.take(m + 1)));
            m = m + 1;
        }
        assert(row@.take(m as int) =~= row@);
        assert(grid.take(k + 1).drop_last() =~= grid.take(k as int));
        assert(out@ =~= old(out)@ + rows_text(grid.take(k + 1)));
        k = k + 1;
    }
    assert(grid.take(k as int) =~= grid);
}

/// Encodes a grid of pixels, given top row first, as a plain (ASCII) PPM
/// image. Returns `None` when `rows` is not `height` rows of `width`
/// pixels each.
pub fn encode_ppm(width: usize, height: usize, rows: &Vec<Vec<Rgb8>>) -> (r: Option<Vec<u8>>)
    ensures
        r is Some <==> is_grid(rows@.map_values(|row: Vec<Rgb8>| row@), width as nat, height as nat),
        r matches Some(bytes) ==> bytes@ == image_text(
            rows@.map_values(|row: Vec<Rgb8>| row@),
            width as nat,
            height as nat,
        ),
{
    let ghost grid = rows@.map_values(|row: Vec<Rgb8>| row@);
    if rows.len() != height {
        return None;
    }
    let mut k: usize = 0;
    while k < rows.len()
        invariant
            k <= rows@.len(),
            grid == rows@.map_values(|row: Vec<Rgb8>| row@),
            forall|q: int| 0 <= q < k ==> #[trigger] grid[q].len() == width,
        decreases rows@.len() - k,
    {
        if rows[k].len() != width {
            assert(grid[k as int].len() != width);
            return None;
        }
        k = k + 1;
    }
    let mut out = ppm_header(width as u64, height as u64);
    push_rows(&mut out, rows);
    Some(out)
}

/// The pixels of `rows` in reading order: the first row left to right, then
/// the next, and so on.
pub open spec fn flatten(rows: Seq<Seq<Rgb8>>) -> Seq<Rgb8>
    decreases rows.len(),
{
    if rows.len() == 0 {
        seq![]
    } else {
        flatten(rows.drop_last()) + rows.last()
    }
}

proof fn lemma_row_text_concat(a: Seq<Rgb8>, b: Seq<Rgb8>)
    ensures
        row_text(a + b) == row_text(a) + row_text(b),
    decreases b.len(),
{
    if b.len() == 0 {
        assert(a + b =~= a);
        assert(row_text(a) + row_text(b) =~= row_text(a));
    } else {
        lemma_row_text_concat(a, b.drop_last());
        assert((a + b).drop_last() =~= a + b.drop_last());
        assert((a + b).last() == b.last());
        assert(row_text(a + b) =~= row_text(a) + row_text(b));
    }
}

proof fn lemma_rows_text_flat(rows: Seq<Seq<Rgb8>>)
    ensures
        rows_text(rows) == row_text(flatten(rows)),
    decreases rows.len(),
{
    if rows.len() > 0 {
        lemma_rows_text_flat(rows.drop_last());
        lemma_row_text_concat(flatten(rows.drop_last()), rows.last());
    }
}

proof fn lemma_flatten_index(rows: Seq<Seq<Rgb8>>, width: nat, height: nat)
    requires
        width > 0,
        is_grid(rows, width, height),
    ensures
        flatten(rows).len() == width * height,
        forall|k: int|
            0 <= k < width * height ==> #[trigger] flatten(rows)[k] == rows[k / width as int][k
                % width as int],
    decreases height,
{
    if height == 0 {
        assert(width * height == 0) by (nonlinear_arith)
            requires
                height == 0,
        ;
    } else {
        let prev = rows.drop_last();
        assert(is_grid(prev, width, (height - 1) as nat)) by {
            assert forall|q: int| 0 <= q < prev.len() implies #[trigger] prev[q].len() == width by {
                assert(prev[q] == rows[q]);
            }
        }
        lemma_flatten_index(prev, width, (height - 1) as nat);
        let base = width * (height - 1) as nat;
        assert(width * height == base + width) by (nonlinear_arith)
            requires
                base == width * (height - 1) as nat,
                height > 0,
        ;
        assert(rows.last() == rows[height - 1]);
        assert(flatten(rows) == flatten(prev) + rows.last());
        assert(flatten(rows).len() == base + width);
        assert forall|k: int| 0 <= k < width * height implies #[trigger] flatten(rows)[k]
            == rows[k / width as int][k % width as int] by {
            if k < base {
                let w = width as int;
                assert(flatten(rows)[k] == flatten(prev)[k]);
                vstd::arithmetic::div_mod::lemma_fundamental_div_mod(k, w);
                let q = k / w;
                let r = k % w;
                assert(q < height - 1) by (nonlinear_arith)
                    requires
                        k == w * q + r,
                        0 <= r < w,
                        k < base,
                        base == w * (height - 1),
                        w > 0,
                ;
                assert(q >= 0) by (nonlinear_arith)
                    requires
                        k == w * q + r,
                        r < w,
                        k >= 0,
                        w > 0,
                ;
                assert(prev[q] == rows[q]);
            } else {
                let m = k - base;
                assert(flatten(rows)[k] == rows.last()[m]);
                assert(k == (height - 1) as int * (width as int) + m) by (nonlinear_arith)
                    requires
                        m == k - base,
                        base == width * (height - 1),
                        height > 0,
                ;
                vstd::arithmetic::div_mod::lemma_fundamental_div_mod_converse(
                    k,
                    width as int,
                    (height - 1) as int,
                    m,
                );
            }
        }
    }
}

/// The pixel lines of an image come in reading order: after the header,
/// line `k` (counting from zero) is the pixel in row `k / width` (from the
/// top) and column `k % width`, so an image of `height` rows of `width`
/// pixels has `width * height` pixel lines, the first being the top-left
/// pixel and the last the bottom-right one.
pub proof fn lemma_image_pixel_order(rows: Seq<Seq<Rgb8>>, width: nat, height: nat)
    requires
        width > 0,
        is_grid(rows, width, height),
    ensures
        image_text(rows, width, height) == header_text(width, height) + row_text(flatten(rows)),
        flatten(rows).len() == width * height,
        forall|k: int|
            0 <= k < width * height ==> #[trigger] flatten(rows)[k] == rows[k / width as int][k
                % width as int],
{
    lemma_rows_text_flat(rows);
    lemma_flatten_index(rows, width, height);
}

/// In an image of at least one pixel, the header is followed at once by the
/// line of the top-left pixel, and the text ends with the line of the
/// bottom-right pixel.
pub proof fn lemma_image_first_and_last_lines(rows: Seq<Seq<Rgb8>>, width: nat, height: nat)
    requires
        width > 0,
        height > 0,
        is_grid(rows, width, height),
    ensures
        ({
            let text = image_text(rows, width, height);
            let head = header_text(width, height) + pixel_text(rows[0][0]);
            let tail = pixel_text(rows[height - 1][width - 1]);
            &&& text.subrange(0, head.len() as int) == head
            &&& text.subrange(text.len() - tail.len(), text.len() as int) == tail
        }),
{
    lemma_image_pixel_order(rows, width, height);
    let px = flatten(rows);
    assert(width * height >= 1) by (nonlinear_arith)
        requires
            width > 0,
            height > 0,
    ;
    let last = width * height - 1;
    assert(last / width as int == height - 1 && last % width as int == width - 1) by {
        assert(last == (height - 1) as int * (width as int) + (width - 1)) by (nonlinear_arith)
            requires
                last == width * height - 1,
                height > 0,
        ;
        vstd::arithmetic::div_mod::lemma_fundamental_div_mod_converse(
            last,
            width as int,
            (height - 1) as int,
            (width - 1) as int,
        );
    }
    assert(px[0] == rows[0][0]) by {
        vstd::arithmetic::div_mod::lemma_fundamental_div_mod_converse(0, width as int, 0, 0);
    }
    assert(px.last() == rows[height - 1][width - 1]);
    lemma_row_text_concat(seq![px[0]], px.drop_first());
    assert(seq![px[0]] + px.drop_first() =~= px);
    let one = seq![px[0]];
    assert(one.drop_last() =~= Seq::<Rgb8>::empty());
    assert(one.last() == px[0]);
    assert(row_text(one.drop_last()) =~= Seq::<u8>::empty());
    assert(row_text(one) == row_text(one.drop_last()) + pixel_text(one.last()));
    assert(row_text(one) =~= pixel_text(px[0]));
    let text = image_text(rows, width, height);
    let head = header_text(width, height) + pixel_text(rows[0][0]);
    let tail = pixel_text(rows[height - 1][width - 1]);
    assert(text =~= head + row_text(px.drop_first()));
    assert(text.subrange(0, head.len() as int) =~= head);
    assert(text =~= header_text(width, height) + row_text(px.drop_last()) + tail);
    assert(text.subrange(text.len() - tail.len(), text.len() as int) =~= tail);
}

} // verus!
