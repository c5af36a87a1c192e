//! The binary pixel-map encoding of a raster: a short textual header, then
//! three bytes for each cell in row-major order.

use vstd::prelude::*;
use vstd::arithmetic::div_mod::lemma_fundamental_div_mod_converse;
use crate::color::Color;
use crate::raster::Raster;

verus! {

/// The largest value of a channel, as the header announces it.
pub const MAX_CHANNEL: u8 = 255;

/// The two characters that open the header.
pub open spec fn format_tag() -> Seq<u8> {
    seq![0x50u8, 0x36u8]
}

/// The character for a digit below ten.
pub open spec fn digit(d: nat) -> u8 {
    (0x30 + d) as u8
}

/// The decimal text of `n`, most significant digit first, with no leading zero.
pub open spec fn decimal(n: nat) -> Seq<u8>
    decreases n,
{
    if n < 10 {
        seq![digit(n)]
    } else {
        decimal(n / 10).push(digit(n % 10))
    }
}

/// The number that a decimal text stands for.
pub open spec fn decimal_value(text: Seq<u8>) -> nat
    decreases text.len(),
{
    if text.len() == 0 {
        0
    } else {
        10 * decimal_value(text.drop_last()) + (text.last() - 0x30) as nat
    }
}

/// The header for a raster of the given dimensions: the format tag and a
/// newline, the width, a space, the height, a space, the largest channel value
/// and a newline.
pub open spec fn header(width: nat, height: nat) -> Seq<u8> {
    format_tag() + seq![0x0Au8] + decimal(width) + seq![0x20u8] + decimal(height) + seq![0x20u8]
        + decimal(MAX_CHANNEL as nat) + seq![0x0Au8]
}

/// The bytes of the cells: for each row from the top, for each cell from the
/// left, the red byte, the green byte and the blue byte.
pub open spec fn body(grid: Seq<Seq<Color>>) -> Seq<u8> {
    Seq::new(
        3 * grid.len() * grid[0].len(),
        |i: int| grid[(i / 3) / (grid[0].len() as int)][(i / 3) % (grid[0].len() as int)].channel(i % 3),
    )
}

/// The whole encoding of a grid: its header, then its body.
pub open spec fn encoded(grid: Seq<Seq<Color>>) -> Seq<u8> {
    header(grid[0].len(), grid.len()) + body(grid)
}

/// The decimal text of a number stands for that number.
pub proof fn lemma_decimal_value(n: nat)
    ensures
        decimal_value(decimal(n)) == n,
    decreases n,
{
    if n < 10 {
        let text = decimal(n);
        assert(text.drop_last() =~= Seq::<u8>::empty());
        assert(decimal_value(text.drop_last()) == 0);
    } else {
        lemma_decimal_value(n / 10);
        let text = decimal(n);
        assert(text.drop_last() =~= decimal(n / 10));
    }
}

/// The decimal text of a number holds digits only, at least one, and starts
/// with a zero only where the number is zero.
pub proof fn lemma_decimal_digits(n: nat)
    ensures
        decimal(n).len() >= 1,
        forall|i: int| 0 <= i < decimal(n).len() ==> 0x30 <= #[trigger] decimal(n)[i] <= 0x39,
        decimal(n)[0] == 0x30 <==> n == 0,
    decreases n,
{
    if n >= 10 {
        lemma_decimal_digits(n / 10);
    }
}

/// The largest channel value is written as the three digits 2, 5, 5.
pub proof fn lemma_max_channel_text()
    ensures
        decimal(MAX_CHANNEL as nat) == seq![0x32u8, 0x35u8, 0x35u8],
{
    reveal_with_fuel(decimal, 4);
    assert(decimal(255) =~= seq![0x32u8, 0x35u8, 0x35u8]);
}

/// Where a cell's bytes stand in the body: the cell at `row` and `col` of a
/// grid `width` wide has its channel `k` at place `3 * (row * width + col) + k`.
pub proof fn lemma_body_cell(grid: Seq<Seq<Color>>, row: int, col: int, k: int)
    requires
        0 <= row < grid.len(),
        0 <= col < grid[0].len(),
        0 <= k < 3,
    ensures
        0 <= 3 * (row * grid[0].len() + col) + k < body(grid).len(),
        body(grid)[3 * (row * grid[0].len() + col) + k] == grid[row][col].channel(k),
{
    let w = grid[0].len() as int;
    let h = grid.len() as int;
    let cell = row * w + col;
    assert(0 <= cell < h * w) by (nonlinear_arith)
        requires
            0 <= row < h,
            0 <= col < w,
            cell == row * w + col,
    ;
    assert(3 * h * w == 3 * (h * w)) by (nonlinear_arith);
    lemma_fundamental_div_mod_converse(cell, w, row, col);
    assert((3 * cell + k) / 3 == cell);
    assert((3 * cell + k) % 3 == k);
}

/// Every cell can be read back from the encoding: after the header, the three
/// bytes at the cell's place are its red, green and blue channels.
pub proof fn lemma_encoded_cell(grid: Seq<Seq<Color>>, row: int, col: int)
    requires
        0 <= row < grid.len(),
        0 <= col < grid[0].len(),
    ensures
        ({
            let start = header(grid[0].len(), grid.len()).len() + 3 * (row * grid[0].len() + col);
            &&& start + 2 < encoded(grid).len()
            &&& encoded(grid)[start] == grid[row][col].red
            &&& encoded(grid)[start + 1] == grid[row][col].green
            &&& encoded(grid)[start + 2] == grid[row][col].blue
        }),
{
    lemma_body_cell(grid, row, col, 0);
    lemma_body_cell(grid, row, col, 1);
    lemma_body_cell(grid, row, col, 2);
}

/// The encoding is the header followed by exactly three bytes for each cell.
pub proof fn lemma_encoded_len(grid: Seq<Seq<Color>>)
    ensures
        encoded(grid).len() == header(grid[0].len(), grid.len()).len() + 3 * grid.len()
            * grid[0].len(),
        encoded(grid).subrange(0, header(grid[0].len(), grid.len()).len() as int) == header(
            grid[0].len(),
            grid.len(),
        ),
{
    let head = header(grid[0].len(), grid.len());
    assert(encoded(grid).subrange(0, head.len() as int) =~= head);
}

/// Appends the decimal text of `n` to `out`.
pub fn push_decimal(out: &mut Vec<u8>, n: usize)
    ensures
        final(out)@ == old(out)@ + decimal(n as nat),
    decreases n,
{
    if n >= 10 {
        push_decimal(out, n / 10);
    }
    let low: u8 = (n % 10) as u8;
    out.push(0x30u8 + low);
    assert(out@ =~= old(out)@ + decimal(n as nat));
}

/// Appends the header for a raster of the given dimensions to `out`.
pub fn push_header(out: &mut Vec<u8>, width: usize, height: usize)
    ensures
        final(out)@ == old(out)@ + header(width as nat, height as nat),
{
    out.push(0x50u8);
    out.push(0x36u8);
    out.push(0x0Au8);
    push_decimal(out, width);
    out.push(0x20u8);
    push_decimal(out, height);
    out.push(0x20u8);
    push_decimal(out, MAX_CHANNEL as usize);
    out.push(0x0Au8);
    assert(out@ =~= old(out)@ + header(width as nat, height as nat));
}

/// Encodes a raster: the header for its dimensions, then the red, green and
/// blue byte of each cell, row by row from the top and from left to right.
pub fn encode(image: &Raster) -> (bytes: Vec<u8>)
    ensures
        bytes@ == encoded(image@),
        bytes@.len() == header(image.spec_width(), image.spec_height()).len() + 3
            * image.spec_height() * image.spec_width(),
{
    let width: usize = image.width();
    let height: usize = image.height();
    let ghost grid = image@;
    let ghost w: int = width as int;
    let ghost h: int = height as int;
    let mut bytes: Vec<u8> = Vec::new();
    push_header(&mut bytes, width, height);
    let ghost head = header(width as nat, height as nat);
    assert(bytes@ =~= head);
    let mut row: usize = 0;
    while row < height
        invariant
            row <= height,
            width == w,
            height == h,
            w > 0,
            h > 0,
            grid == image@,
            image.spec_width() == w,
            image.spec_height() == h,
            bytes@.len() == head.len() + 3 * (row * w),
            bytes@.subrange(0, head.len() as int) == head,
            forall|i: int|
                0 <= i < 3 * (row * w) ==> #[trigger] bytes@[head.len() + i] == body(grid)[i],
        decreases height - row,
    {
        let mut col: usize = 0;
        while col < width
            invariant
                row < height,
                col <= width,
                width == w,
                height == h,
                w > 0,
                h > 0,
                grid == image@,
                image.spec_width() == w,
                image.spec_height() == h,
                bytes@.len() == head.len() + 3 * (row * w + col),
                bytes@.subrange(0, head.len() as int) == head,
                forall|i: int|
                    0 <= i < 3 * (row * w + col) ==> #[trigger] bytes@[head.len() + i] == body(
                        grid,
                    )[i],
            decreases width - col,
        {
            let ghost before = bytes@;
            let found: Option<Color> = image.get(row, col);
            match found {
                Some(color) => {
                    bytes.push(color.red);
                    bytes.push(color.green);
                    bytes.push(color.blue);
                    proof {
                        lemma_body_cell(grid, row as int, col as int, 0);
                        lemma_body_cell(grid, row as int, col as int, 1);
                        lemma_body_cell(grid, row as int, col as int, 2);
                        let start = 3 * (row * w + col);
                        assert(bytes@[head.len() + start] == body(grid)[start]);
                        assert(bytes@[head.len() + start + 1] == body(grid)[start + 1]);
                        assert(bytes@[head.len() + start + 2] == body(grid)[start + 2]);
                        assert forall|i: int| 0 <= i < start + 3 implies #[trigger] bytes@[head.len()
                            + i] == body(grid)[i] by {
                            if i < start {
                                assert(bytes@[head.len() + i] == before[head.len() + i]);
                            }
                        }
                        assert(bytes@.subrange(0, head.len() as int) =~= before.subrange(
                            0,
                            head.len() as int,
                        ));
                    }
                },
                None => {},
            }
            col += 1;
        }
        proof {
            assert(row * w + w == (row + 1) * w) by (nonlinear_arith);
        }
        row += 1;
    }
    proof {
        assert(3 * (h * w) == 3 * h * w) by (nonlinear_arith);
        assert forall|i: int| 0 <= i < encoded(grid).len() implies bytes@[i] == encoded(grid)[i] by {
            if i < head.len() {
                assert(bytes@.subrange(0, head.len() as int)[i] == bytes@[i]);
            } else {
                assert(bytes@[head.len() + (i - head.len())] == body(grid)[i - head.len()]);
            }
        }
        assert(bytes@ =~= encoded(grid));
    }
    bytes
}

} // verus!
