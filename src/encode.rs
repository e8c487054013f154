use vstd::prelude::*;
use crate::framebuffer::Framebuffer;
use crate::framebuffer::pixel_index;

verus! {

// ─── PPM ────────────────────────────────────────────────────────────────────

/// ASCII decimal digits of `n`, most significant first, no leading zeros.
pub open spec fn decimal(n: nat) -> Seq<u8>
    decreases n,
{
    if n < 10 {
        seq![(48 + n) as u8]
    } else {
        decimal(n / 10).push((48 + n % 10) as u8)
    }
}

/// Header of a binary PPM image: the format's magic number, width and
/// height in decimal, and the largest channel value, 255, each followed by a
/// newline but the width, which a space follows.
pub open spec fn ppm_header(width: nat, height: nat) -> Seq<u8> {
    seq![80u8, 54u8, 10u8] + decimal(width) + seq![32u8] + decimal(height) + seq![10u8, 50u8, 53u8, 53u8, 10u8]
}

/// Red, green and blue bytes of each pixel in turn.
pub open spec fn rgb_bytes(pixels: Seq<(u8, u8, u8)>) -> Seq<u8>
    decreases pixels.len(),
{
    if pixels.len() == 0 {
        Seq::empty()
    } else {
        let p = pixels.last();
        rgb_bytes(pixels.drop_last()) + seq![p.0, p.1, p.2]
    }
}

fn push_decimal(out: &mut Vec<u8>, n: u32)
    ensures
        final(out)@ == old(out)@ + decimal(n as nat),
    decreases n,
{
    if n >= 10 {
        push_decimal(out, n / 10);
    }
    out.push((48 + n % 10) as u8);
    assert(final(out)@ =~= old(out)@ + decimal(n as nat));
}

/// Encodes an image of 8-bit pixels as a binary PPM file: the header, then
/// three bytes for each pixel, row by row from the top.
pub fn encode_ppm(fb: &Framebuffer<(u8, u8, u8)>) -> (r: Vec<u8>)
    requires
        fb.wf(),
    ensures
        r@ == ppm_header(fb.width as nat, fb.height as nat) + rgb_bytes(fb.pixels@),
{
    let mut out: Vec<u8> = Vec::new();
    out.push(80u8);
    out.push(54u8);
    out.push(10u8);
    push_decimal(&mut out, fb.width);
    out.push(32u8);
    push_decimal(&mut out, fb.height);
    out.push(10u8);
    out.push(50u8);
    out.push(53u8);
    out.push(53u8);
    out.push(10u8);
    let ghost header = out@;
    assert(header =~= ppm_header(fb.width as nat, fb.height as nat));
    let mut i: usize = 0;
    while i < fb.pixels.len()
        invariant
            i <= fb.pixels@.len(),
            out@ == header + rgb_bytes(fb.pixels@.subrange(0, i as int)),
        decreases fb.pixels@.len() - i,
    {
        let p = fb.pixels[i];
        out.push(p.0);
        out.push(p.1);
        out.push(p.2);
        proof {
            let s = fb.pixels@.subrange(0, i + 1);
            assert(s.drop_last() =~= fb.pixels@.subrange(0, i as int));
            assert(s.last() == p);
            assert(out@ =~= header + rgb_bytes(s));
        }
        i = i + 1;
    }
    assert(fb.pixels@.subrange(0, fb.pixels@.len() as int) =~= fb.pixels@);
    out
}

// ─── Braille ────────────────────────────────────────────────────────────────

/// Columns of pixels in one braille cell.
pub const CELL_WIDTH: u32 = 2;

/// Rows of pixels in one braille cell.
pub const CELL_HEIGHT: u32 = 4;

/// Column within its cell of the dot that pattern bit `k` stands for.
pub open spec fn dot_dx(k: int) -> int {
    if k < 3 {
        0
    } else if k < 6 {
        1
    } else {
        k - 6
    }
}

/// Row within its cell of the dot that pattern bit `k` stands for: bits 0 to
/// 5 fill the two columns top down, bits 6 and 7 are the bottom row.
pub open spec fn dot_dy(k: int) -> int {
    if k < 3 {
        k
    } else if k < 6 {
        k - 3
    } else {
        3
    }
}

/// Dot `k` of the cell at (`col`, `row`) lies inside the image and is lit.
pub open spec fn dot_lit(lit: Framebuffer<bool>, col: int, row: int, k: int) -> bool {
    let px = col * CELL_WIDTH + dot_dx(k);
    let py = row * CELL_HEIGHT + dot_dy(k);
    px < lit.width && py < lit.height && lit.pixel(px, py)
}

/// Value of the first `k` pattern bits of a cell: bit `j` is set when dot `j`
/// is lit.
pub open spec fn pattern_value(lit: Framebuffer<bool>, col: int, row: int, k: nat) -> nat
    decreases k,
{
    if k == 0 {
        0
    } else {
        pattern_value(lit, col, row, (k - 1) as nat) + if dot_lit(lit, col, row, k - 1) {
            vstd::arithmetic::power2::pow2((k - 1) as nat)
        } else {
            0
        }
    }
}

proof fn lemma_pattern_value_bound(lit: Framebuffer<bool>, col: int, row: int, k: nat)
    ensures
        pattern_value(lit, col, row, k) < vstd::arithmetic::power2::pow2(k),
    decreases k,
{
    if k > 0 {
        lemma_pattern_value_bound(lit, col, row, (k - 1) as nat);
        vstd::arithmetic::power2::lemma_pow2_unfold(k);
    } else {
        vstd::arithmetic::power2::lemma2_to64();
    }
}

/// The braille dot pattern of the cell at (`col`, `row`) of an image whose
/// lit pixels are marked: bit `k` is set exactly when dot `k` is lit.
pub fn braille_pattern(lit: &Framebuffer<bool>, col: u32, row: u32) -> (r: u8)
    requires
        lit.wf(),
        col < lit.width / CELL_WIDTH,
        row < lit.height / CELL_HEIGHT,
    ensures
        r == pattern_value(*lit, col as int, row as int, 8),
{
    let bx = col * CELL_WIDTH;
    let by = row * CELL_HEIGHT;
    let mut pattern: u8 = 0;
    let mut weight: u16 = 1;
    proof {
        vstd::arithmetic::power2::lemma2_to64();
    }
    let mut k: u32 = 0;
    while k < 8
        invariant
            k <= 8,
            bx == col * CELL_WIDTH,
            by == row * CELL_HEIGHT,
            col < lit.width / CELL_WIDTH,
            row < lit.height / CELL_HEIGHT,
            lit.wf(),
            weight == vstd::arithmetic::power2::pow2(k as nat),
            pattern == pattern_value(*lit, col as int, row as int, k as nat),
        decreases 8 - k,
    {
        proof {
            lemma_pattern_value_bound(*lit, col as int, row as int, k as nat);
            vstd::arithmetic::power2::lemma_pow2_unfold((k + 1) as nat);
            vstd::arithmetic::power2::lemma_pow2_strictly_increases(k as nat, 8);
            vstd::arithmetic::power2::lemma2_to64();
        }
        let (dx, dy) = if k < 3 {
            (0u32, k)
        } else if k < 6 {
            (1u32, k - 3)
        } else {
            (k - 6, 3u32)
        };
        let px = bx + dx;
        let py = by + dy;
        if px < lit.width && py < lit.height {
            if lit.get(px, py) {
                pattern = pattern + weight as u8;
            }
        }
        weight = weight * 2;
        k = k + 1;
    }
    pattern
}

/// Code point of the first braille pattern character; a pattern's bits are
/// added to it.
pub const BRAILLE_BASE: u32 = 0x2800;

/// Relies on char::from_u32: it gives the character of a code point that is
/// a Unicode scalar value (below 0xD800, or above 0xDFFF up to 0x10FFFF), and
/// `None` for any other number.
#[verifier::external_body]
fn char_from_code(code: u32) -> (r: Option<char>)
    ensures
        (code < 0xD800 || (0xDFFF < code && code <= 0x10FFFF)) ==> r is Some && r->0 as u32
            == code,
{
    char::from_u32(code)
}

/// The braille character that shows dot pattern `pattern`.
pub fn braille_glyph(pattern: u8) -> (r: char)
    ensures
        r as u32 == BRAILLE_BASE + pattern,
{
    match char_from_code(BRAILLE_BASE + pattern as u32) {
        Some(c) => c,
        None => ' ',
    }
}

// ─── ASCII ──────────────────────────────────────────────────────────────────

/// Number of steps in the grayscale ramp.
pub const RAMP_LEN: usize = 10;

/// The grayscale ramp, darkest first.
pub open spec fn ramp() -> Seq<char> {
    seq![' ', '.', ':', '-', '=', '+', '*', '#', '%', '@']
}

/// The ramp character for brightness step `level`, 0 being black.
pub fn ramp_glyph(level: usize) -> (r: char)
    requires
        level < RAMP_LEN,
    ensures
        r == ramp()[level as int],
{
    match level {
        0 => ' ',
        1 => '.',
        2 => ':',
        3 => '-',
        4 => '=',
        5 => '+',
        6 => '*',
        7 => '#',
        8 => '%',
        _ => '@',
    }
}

} // verus!
