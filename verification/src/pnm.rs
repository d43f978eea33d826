//! The two plain "portable anymap" formats: the text bitmap and the binary
//! pixmap.
use vstd::prelude::*;
use crate::pixel::Rgb;

verus! {

/// The decimal digits of a number, as ASCII, without leading zeros.
pub open spec fn decimal(n: nat) -> Seq<u8>
    decreases n,
{
    if n < 10 {
        seq![(0x30 + n) as u8]
    } else {
        decimal(n / 10).push((0x30 + n % 10) as u8)
    }
}

/// Width and height in decimal, separated by a space and closed by a newline.
pub open spec fn dimensions(width: nat, height: nat) -> Seq<u8> {
    decimal(width) + seq![0x20u8] + decimal(height) + seq![0x0au8]
}

/// The character of one bitmap cell: `1` for ink, `0` for paper.
pub open spec fn bit_char(bit: bool) -> u8 {
    if bit {
        0x31
    } else {
        0x30
    }
}

/// The text bitmap: the line that names the format, the dimensions, one
/// character per pixel row by row without separators, and a closing newline.
pub open spec fn pbm_p1(width: nat, height: nat, bits: Seq<bool>) -> Seq<u8> {
    seq![0x50u8, 0x31, 0x0a] + dimensions(width, height) + bits.map_values(|b: bool| bit_char(b))
        + seq![0x0au8]
}

/// The three bytes of every pixel, in order.
pub open spec fn rgb_bytes(colours: Seq<Rgb>) -> Seq<u8> {
    Seq::new(3 * colours.len(), |i: int| {
        let c = colours[i / 3];
        if i % 3 == 0 {
            c.r
        } else if i % 3 == 1 {
            c.g
        } else {
            c.b
        }
    })
}

/// The binary pixmap: the line that names the format, the dimensions, the
/// maximum channel value 255, then red, green and blue of every pixel row by
/// row.
pub open spec fn ppm_p6(width: nat, height: nat, colours: Seq<Rgb>) -> Seq<u8> {
    seq![0x50u8, 0x36, 0x0a] + dimensions(width, height) + seq![0x32u8, 0x35, 0x35, 0x0a]
        + rgb_bytes(colours)
}

/// Appends a number in decimal.
pub fn push_decimal(buf: &mut Vec<u8>, n: usize)
    ensures
        final(buf)@ == old(buf)@ + decimal(n as nat),
    decreases n,
{
    if n >= 10 {
        push_decimal(buf, n / 10);
    }
    buf.push(0x30 + (n % 10) as u8);
    assert(buf@ =~= old(buf)@ + decimal(n as nat));
}

/// Appends the line that gives width and height.
pub fn push_dimensions(buf: &mut Vec<u8>, width: usize, height: usize)
    ensures
        final(buf)@ == old(buf)@ + dimensions(width as nat, height as nat),
{
    push_decimal(buf, width);
    buf.push(0x20);
    push_decimal(buf, height);
    buf.push(0x0a);
    assert(buf@ =~= old(buf)@ + dimensions(width as nat, height as nat));
}

} // verus!
