use vstd::prelude::*;
use crate::collections::mask::{Mask, mask_bits};

verus! {

/// Weight of the dot in column `tx` (0 or 1) and row `ty` (0 to 3) of a
/// braille cell, as in the Unicode braille block.
pub open spec fn dot_weight(tx: int, ty: int) -> nat {
    if tx == 0 {
        if ty == 0 { 1 } else if ty == 1 { 2 } else if ty == 2 { 4 } else { 64 }
    } else {
        if ty == 0 { 8 } else if ty == 1 { 16 } else if ty == 2 { 32 } else { 128 }
    }
}

/// Position in the bits of the dot in column `tx` and row `ty` of cell
/// (`ix`, `iy`), when the bits form rows of `row` dots.
pub open spec fn dot_index(row: int, ix: int, iy: int, tx: int, ty: int) -> int {
    (iy * 4 + ty) * row + ix * 2 + tx
}

/// Contribution of one dot: its weight when it lies within a row and its
/// bit exists and is set.
pub open spec fn dot(bits: Seq<bool>, row: int, ix: int, iy: int, tx: int, ty: int) -> nat {
    let i = dot_index(row, ix, iy, tx, ty);
    if ix * 2 + tx < row && 0 <= i < bits.len() && bits[i] { dot_weight(tx, ty) } else { 0 }
}

/// The dots of cell (`ix`, `iy`): each cell covers two columns and four
/// rows of the dots.
pub open spec fn cell_code(bits: Seq<bool>, row: int, ix: int, iy: int) -> nat {
    dot(bits, row, ix, iy, 0, 0) + dot(bits, row, ix, iy, 0, 1)
        + dot(bits, row, ix, iy, 0, 2) + dot(bits, row, ix, iy, 0, 3)
        + dot(bits, row, ix, iy, 1, 0) + dot(bits, row, ix, iy, 1, 1)
        + dot(bits, row, ix, iy, 1, 2) + dot(bits, row, ix, iy, 1, 3)
}

/// The `cols` characters of row `iy` of the rendering.
pub open spec fn braille_row(bits: Seq<bool>, row: int, cols: nat, iy: int) -> Seq<char> {
    Seq::new(cols, |ix: int| (0x2800 + cell_code(bits, row, ix, iy)) as char)
}

/// The first `rows` rows of the rendering, joined by `new_line`.
pub open spec fn braille_text(bits: Seq<bool>, row: int, cols: nat, rows: nat, new_line: Seq<char>) -> Seq<char>
    decreases rows,
{
    if rows == 0 {
        seq![]
    } else if rows == 1 {
        braille_row(bits, row, cols, 0)
    } else {
        braille_text(bits, row, cols, (rows - 1) as nat, new_line) + new_line + braille_row(bits, row, cols, rows - 1)
    }
}

/// Every set bit falls within the first `rows` rows of cells, when the bits
/// form rows of `row` dots.
pub open spec fn fits_cells(bits: Seq<bool>, row: int, rows: int) -> bool {
    &&& (bits.len() > 0 ==> row > 0)
    &&& forall|i: int| 0 <= i < bits.len() && bits[i] ==> #[trigger] (i / row) / 4 < rows
}

/// `char::from_u32`: the character of a Unicode scalar value.
#[verifier::external_body]
fn char_from_u32(v: u32) -> (r: Option<char>)
    ensures
        r == (if v < 0xD800 || (0xE000 <= v && v <= 0x10FFFF) { Some(v as char) } else { None::<char> }),
{
    std::char::from_u32(v)
}

/// `String::push`: append one character.
#[verifier::external_body]
fn string_push(s: &mut String, c: char)
    ensures
        final(s)@ == old(s)@.push(c),
{
    s.push(c)
}

fn bit_or_zero(bits: &Mask, len: usize, i: usize, weight: u32) -> (r: u32)
    requires
        len == mask_bits(*bits).len(),
    ensures
        r == (if i < len && mask_bits(*bits)[i as int] { weight } else { 0 }),
{
    if i < len && bits.get(i) { weight } else { 0 }
}

fn cell(bits: &Mask, len: usize, row: usize, ix: usize, iy: usize) -> (r: u32)
    requires
        len == mask_bits(*bits).len(),
        2 * ix < row,
        4 * row * (iy + 2) <= usize::MAX,
    ensures
        r == cell_code(mask_bits(*bits), row as int, ix as int, iy as int),
        r <= 255,
{
    let ghost b = mask_bits(*bits);
    assert(iy * 4 * row + 3 * row + 2 * ix + 1 <= usize::MAX && iy * 4 <= usize::MAX && iy * 4 * row <= usize::MAX)
        by (nonlinear_arith)
        requires
            4 * row * (iy + 2) <= usize::MAX,
            2 * ix < row;
    let base = iy * 4 * row + 2 * ix;
    assert forall|ty: int, tx: int| 0 <= ty < 4 && 0 <= tx < 2 implies
        #[trigger] dot_index(row as int, ix as int, iy as int, tx, ty) == base + ty * row + tx by {
        assert((iy * 4 + ty) * row == iy * 4 * row + ty * row) by (nonlinear_arith);
    }
    let left = bit_or_zero(bits, len, base, 1) + bit_or_zero(bits, len, base + row, 2)
        + bit_or_zero(bits, len, base + 2 * row, 4) + bit_or_zero(bits, len, base + 3 * row, 64);
    if 2 * ix + 1 < row {
        left + bit_or_zero(bits, len, base + 1, 8) + bit_or_zero(bits, len, base + row + 1, 16)
            + bit_or_zero(bits, len, base + 2 * row + 1, 32) + bit_or_zero(bits, len, base + 3 * row + 1, 128)
    } else {
        left
    }
}

/// Render `rows` rows of `cols` braille cells from bits that form rows of
/// `row` dots, joined by `new_line`.
fn render(bits: &Mask, row: usize, cols: usize, rows: usize, new_line: &str) -> (r: String)
    requires
        4 * row * (rows + 1) <= usize::MAX,
        2 * cols <= row + 1,
        fits_cells(mask_bits(*bits), row as int, rows as int),
    ensures
        r@ == braille_text(mask_bits(*bits), row as int, cols as nat, rows as nat, new_line@),
{
    let len = bits.len();
    let mut out = String::new();
    let mut y: usize = 0;
    while y < rows
        invariant
            y <= rows,
            len == mask_bits(*bits).len(),
            4 * row * (rows + 1) <= usize::MAX,
            2 * cols <= row + 1,
            out@ == braille_text(mask_bits(*bits), row as int, cols as nat, y as nat, new_line@),
        decreases rows - y,
    {
        if y > 0 {
            out.append(new_line);
        }
        let ghost prefix = out@;
        let mut x: usize = 0;
        while x < cols
            invariant
                x <= cols,
                y < rows,
                len == mask_bits(*bits).len(),
                4 * row * (rows + 1) <= usize::MAX,
                2 * cols <= row + 1,
                out@ == prefix + braille_row(mask_bits(*bits), row as int, cols as nat, y as int).subrange(0, x as int),
            decreases cols - x,
        {
            assert(4 * row * (y + 2) <= usize::MAX) by (nonlinear_arith)
                requires 4 * row * (rows + 1) <= usize::MAX, y < rows;
            let code = cell(bits, len, row, x, y);
            let ch = char_from_u32(0x2800 + code);
            match ch {
                Some(c) => string_push(&mut out, c),
                None => {},
            }
            x = x + 1;
            assert(out@ =~= prefix + braille_row(mask_bits(*bits), row as int, cols as nat, y as int).subrange(0, x as int));
        }
        assert(braille_row(mask_bits(*bits), row as int, cols as nat, y as int).subrange(0, cols as int)
            =~= braille_row(mask_bits(*bits), row as int, cols as nat, y as int));
        y = y + 1;
    }
    out
}

/// Render a mask as braille characters, `width` cells per row and `height`
/// rows, joined by `new_line`: the bits form rows of `2 * width` dots.
pub fn braille_fmt2(bits: &Mask, width: usize, height: usize, new_line: &str) -> (r: String)
    requires
        8 * width * (height + 1) <= usize::MAX,
        fits_cells(mask_bits(*bits), 2 * width, height as int),
    ensures
        r@ == braille_text(mask_bits(*bits), 2 * width, width as nat, height as nat, new_line@),
{
    assert(2 * width <= 8 * width * (height + 1)) by (nonlinear_arith);
    render(bits, 2 * width, width, height, new_line)
}

/// Render a mask of `width` x `height` dots, row by row, as braille
/// characters: half as many cells per row as dots, a quarter as many rows,
/// both rounded up; rows joined by `new_line`.
pub fn braille_grid(bits: &Mask, width: usize, height: usize, new_line: &str) -> (r: String)
    requires
        4 * width * (height / 4 + 2) <= usize::MAX,
        fits_cells(mask_bits(*bits), width as int, (height as int + 3) / 4),
    ensures
        r@ == braille_text(
            mask_bits(*bits),
            width as int,
            ((width + 1) / 2) as nat,
            ((height + 3) / 4) as nat,
            new_line@,
        ),
{
    assert((height + 3) / 4 + 1 <= height / 4 + 2);
    assert(4 * width * ((height + 3) / 4 + 1) <= 4 * width * (height / 4 + 2)) by (nonlinear_arith)
        requires (height + 3) / 4 + 1 <= height / 4 + 2;
    let cols = width / 2 + width % 2;
    let rows = height / 4 + if height % 4 > 0 { 1 } else { 0 };
    render(bits, width, cols, rows, new_line)
}

/// Number of braille cells `braille_fmt` renders `len` bits into: half the
/// number of four-bit groups, rounded down.
pub open spec fn braille_width(len: nat) -> int {
    (((len + 3) / 4) / 2) as int
}

/// Render a mask as a single row of braille characters.
pub fn braille_fmt(bits: &Mask) -> (r: String)
    requires
        mask_bits(*bits).len() <= 0x100_0000,
        fits_cells(mask_bits(*bits), 2 * braille_width(mask_bits(*bits).len()), 1),
    ensures
        r@ == braille_text(
            mask_bits(*bits),
            2 * braille_width(mask_bits(*bits).len()),
            braille_width(mask_bits(*bits).len()) as nat,
            1,
            seq![],
        ),
{
    let l = bits.len();
    let w = ((l + 3) / 4) / 2;
    let h: usize = 1;
    proof {
        reveal_strlit("");
    }
    braille_fmt2(bits, w, h, "")
}

} // verus!
