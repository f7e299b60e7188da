//! The plain-text PPM encoding of a canvas.
//!
//! The file is a header (the magic number, the width and height, the maximum channel value
//! 255) followed by one block per row. A row lists three decimal numbers per
//! pixel, red, green and blue, each clamped to `0..=255`, separated by single
//! spaces. No line reaches 70 characters: a number that would make it do so
//! starts a new line instead. Every row ends with a newline.
use crate::canvas::Canvas;
use vstd::prelude::*;

verus! {

/// The largest channel value written.
pub const PPM_COLOR_MAX: i64 = 255;

/// A line is broken before it reaches this many characters.
pub const PPM_MAX_LINE_LENGTH: usize = 70;

pub const NEWLINE: u8 = 10;

pub const SPACE: u8 = 32;

pub const DIGIT_ZERO: u8 = 48;

/// A color scaled to the channel range, not yet clamped into it.
#[derive(Clone, Copy, Debug, PartialEq, Eq, Structural)]
pub struct ScaledColor {
    pub red: i64,
    pub green: i64,
    pub blue: i64,
}

/// `v` limited to `0..=255`.
pub open spec fn clamp_channel(v: int) -> int {
    if v < 0 {
        0
    } else if v > PPM_COLOR_MAX {
        PPM_COLOR_MAX as int
    } else {
        v
    }
}

/// The ASCII decimal digits of `n`, without leading zeros.
pub open spec fn decimal(n: nat) -> Seq<u8>
    decreases n,
{
    if n < 10 {
        seq![(DIGIT_ZERO + n) as u8]
    } else {
        decimal(n / 10).push((DIGIT_ZERO + n % 10) as u8)
    }
}

/// The three numbers written for a pixel.
pub open spec fn pixel_tokens(c: ScaledColor) -> Seq<Seq<u8>> {
    seq![
        decimal(clamp_channel(c.red as int) as nat),
        decimal(clamp_channel(c.green as int) as nat),
        decimal(clamp_channel(c.blue as int) as nat),
    ]
}

/// The numbers of row `y`, three per pixel from left to right.
pub open spec fn row_tokens(canvas: Canvas<ScaledColor>, y: int) -> Seq<Seq<u8>> {
    Seq::new(3 * canvas.spec_width(), |k: int| pixel_tokens(canvas.pixel(k / 3, y))[k % 3])
}

/// What is written for `token` on a line that already holds `col` characters.
pub open spec fn step_text(token: Seq<u8>, col: nat) -> Seq<u8> {
    if col + token.len() >= PPM_MAX_LINE_LENGTH {
        seq![NEWLINE] + token
    } else if col == 0 {
        token
    } else {
        seq![SPACE] + token
    }
}

/// The length of the line after `token` was written on one of `col` characters.
pub open spec fn step_col(token: Seq<u8>, col: nat) -> nat {
    if col + token.len() >= PPM_MAX_LINE_LENGTH || col == 0 {
        token.len()
    } else {
        col + token.len() + 1
    }
}

/// `tokens` written one after another, starting on a line of `col` characters.
pub open spec fn layout(tokens: Seq<Seq<u8>>, col: nat) -> Seq<u8>
    decreases tokens.len(),
{
    if tokens.len() == 0 {
        Seq::empty()
    } else {
        step_text(tokens[0], col) + layout(tokens.drop_first(), step_col(tokens[0], col))
    }
}

/// The line length after `tokens` were written starting on a line of `col`
/// characters.
pub open spec fn end_col(tokens: Seq<Seq<u8>>, col: nat) -> nat
    decreases tokens.len(),
{
    if tokens.len() == 0 {
        col
    } else {
        end_col(tokens.drop_first(), step_col(tokens[0], col))
    }
}

/// The rows `0..n` of `canvas`, each ended by a newline.
pub open spec fn rows_text(canvas: Canvas<ScaledColor>, n: nat) -> Seq<u8>
    decreases n,
{
    if n == 0 {
        Seq::empty()
    } else {
        rows_text(canvas, (n - 1) as nat) + layout(row_tokens(canvas, n - 1), 0) + seq![NEWLINE]
    }
}

/// The magic number of plain-text PPM, the width and height, and the maximum
/// channel value, one per line.
pub open spec fn header_text(width: nat, height: nat) -> Seq<u8> {
    seq![80u8, 51u8, NEWLINE] + decimal(width) + seq![SPACE] + decimal(height) + seq![NEWLINE]
        + seq![50u8, 53u8, 53u8, NEWLINE]
}

/// The whole PPM file for `canvas`.
pub open spec fn ppm_text(canvas: Canvas<ScaledColor>) -> Seq<u8> {
    header_text(canvas.spec_width(), canvas.spec_height()) + rows_text(
        canvas,
        canvas.spec_height(),
    )
}

proof fn lemma_decimal_len(n: nat)
    ensures
        decimal(n).len() >= 1,
        n < 10 ==> decimal(n).len() == 1,
        n < 100 ==> decimal(n).len() <= 2,
        n < 1000 ==> decimal(n).len() <= 3,
    decreases n,
{
    if n >= 10 {
        lemma_decimal_len(n / 10);
    }
}

proof fn lemma_layout_concat(a: Seq<Seq<u8>>, b: Seq<Seq<u8>>, col: nat)
    ensures
        layout(a + b, col) == layout(a, col) + layout(b, end_col(a, col)),
    decreases a.len(),
{
    if a.len() == 0 {
        assert(a + b =~= b);
        assert(layout(a, col) =~= Seq::<u8>::empty());
        assert(layout(a + b, col) =~= layout(a, col) + layout(b, end_col(a, col)));
    } else {
        assert((a + b).drop_first() =~= a.drop_first() + b);
        assert((a + b)[0] == a[0]);
        lemma_layout_concat(a.drop_first(), b, step_col(a[0], col));
        assert(layout(a + b, col) =~= layout(a, col) + layout(b, end_col(a, col)));
    }
}

/// Appends the decimal digits of `n`.
fn push_decimal(out: &mut Vec<u8>, n: u64)
    ensures
        final(out)@ == old(out)@ + decimal(n as nat),
    decreases n,
{
    if n >= 10 {
        push_decimal(out, n / 10);
    }
    out.push(DIGIT_ZERO + (n % 10) as u8);
    assert(out@ =~= old(out)@ + decimal(n as nat));
}

/// `v` limited to `0..=255`.
pub fn clamp_channel_value(v: i64) -> (r: u64)
    ensures
        r == clamp_channel(v as int),
{
    if v < 0 {
        0
    } else if v > PPM_COLOR_MAX {
        PPM_COLOR_MAX as u64
    } else {
        v as u64
    }
}

/// Writes one channel value on a line of `col` characters and returns the
/// new line length.
fn push_token(out: &mut Vec<u8>, start: usize, value: u64) -> (new_col: usize)
    requires
        start <= PPM_MAX_LINE_LENGTH,
        value <= 255,
    ensures
        new_col <= PPM_MAX_LINE_LENGTH,
        new_col == step_col(decimal(value as nat), start as nat),
        final(out)@ == old(out)@ + step_text(decimal(value as nat), start as nat),
{
    let mut token: Vec<u8> = Vec::new();
    push_decimal(&mut token, value);
    proof {
        lemma_decimal_len(value as nat);
        assert(token@ =~= decimal(value as nat));
    }
    let len = token.len();
    let mut col = start;
    if col + len >= PPM_MAX_LINE_LENGTH {
        out.push(NEWLINE);
        col = 0;
    }
    if col != 0 {
        out.push(SPACE);
        col = col + 1;
    }
    let ghost before = out@;
    let mut i: usize = 0;
    while i < len
        invariant
            len == token@.len(),
            i <= len,
            out@ == before + token@.take(i as int),
        decreases len - i,
    {
        out.push(token[i]);
        i = i + 1;
        assert(out@ =~= before + token@.take(i as int));
    }
    assert(token@.take(len as int) =~= token@);
    assert(out@ =~= old(out)@ + step_text(decimal(value as nat), start as nat));
    col + len
}

/// Writes the three channels of `p` on a line of `col` characters and returns
/// the new line length.
fn push_pixel(out: &mut Vec<u8>, col: usize, p: ScaledColor) -> (new_col: usize)
    requires
        col <= PPM_MAX_LINE_LENGTH,
    ensures
        new_col <= PPM_MAX_LINE_LENGTH,
        new_col == end_col(pixel_tokens(p), col as nat),
        final(out)@ == old(out)@ + layout(pixel_tokens(p), col as nat),
{
    let ghost t = pixel_tokens(p);
    let c1 = push_token(out, col, clamp_channel_value(p.red));
    let c2 = push_token(out, c1, clamp_channel_value(p.green));
    let c3 = push_token(out, c2, clamp_channel_value(p.blue));
    proof {
        reveal_with_fuel(layout, 4);
        reveal_with_fuel(end_col, 4);
        assert(t.drop_first().drop_first().drop_first() =~= Seq::<Seq<u8>>::empty());
        assert(t.drop_first()[0] == t[1]);
        assert(t.drop_first().drop_first()[0] == t[2]);
        assert(layout(t.drop_first().drop_first().drop_first(), c3 as nat) =~= Seq::<u8>::empty());
        assert(out@ =~= old(out)@ + layout(t, col as nat));
    }
    c3
}

/// Writes row `y` of `canvas`, ended by a newline.
fn push_row(out: &mut Vec<u8>, canvas: &Canvas<ScaledColor>, y: usize)
    requires
        y < canvas.spec_height(),
    ensures
        final(out)@ == old(out)@ + layout(row_tokens(*canvas, y as int), 0) + seq![NEWLINE],
{
    let ghost tokens = row_tokens(*canvas, y as int);
    let width = canvas.width();
    let mut col: usize = 0;
    let mut x: usize = 0;
    assert(tokens.skip(0) =~= tokens);
    while x < width
        invariant
            width == canvas.spec_width(),
            y < canvas.spec_height(),
            tokens == row_tokens(*canvas, y as int),
            x <= width,
            col <= PPM_MAX_LINE_LENGTH,
            old(out)@ + layout(tokens, 0) == out@ + layout(tokens.skip(3 * x), col as nat),
        decreases width - x,
    {
        let p = canvas.pixel_at(x, y);
        proof {
            let k = 3 * x;
            assert(k / 3 == x && k % 3 == 0);
            assert((k + 1) / 3 == x && (k + 1) % 3 == 1);
            assert((k + 2) / 3 == x && (k + 2) % 3 == 2);
            assert(tokens.skip(k) =~= pixel_tokens(p) + tokens.skip(k + 3));
            lemma_layout_concat(pixel_tokens(p), tokens.skip(k + 3), col as nat);
        }
        col = push_pixel(out, col, p);
        x = x + 1;
        assert(3 * x == 3 * (x - 1) + 3);
    }
    assert(tokens.skip(3 * width as int) =~= Seq::<Seq<u8>>::empty());
    out.push(NEWLINE);
}

/// The PPM file for `canvas`, as bytes.
pub fn ppm_bytes(canvas: &Canvas<ScaledColor>) -> (r: Vec<u8>)
    ensures
        r@ == ppm_text(*canvas),
{
    let mut out: Vec<u8> = Vec::new();
    out.push(80);
    out.push(51);
    out.push(NEWLINE);
    push_decimal(&mut out, canvas.width() as u64);
    out.push(SPACE);
    push_decimal(&mut out, canvas.height() as u64);
    out.push(NEWLINE);
    out.push(50);
    out.push(53);
    out.push(53);
    out.push(NEWLINE);
    assert(out@ =~= header_text(canvas.spec_width(), canvas.spec_height()));
    let height = canvas.height();
    let mut y: usize = 0;
    while y < height
        invariant
            height == canvas.spec_height(),
            y <= height,
            out@ == header_text(canvas.spec_width(), canvas.spec_height()) + rows_text(
                *canvas,
                y as nat,
            ),
        decreases height - y,
    {
        push_row(&mut out, canvas, y);
        y = y + 1;
        assert(out@ =~= header_text(canvas.spec_width(), canvas.spec_height()) + rows_text(
            *canvas,
            y as nat,
        ));
    }
    out
}

} // verus!
