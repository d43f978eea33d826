//! The compact lossless pixel stream: header, run / index / difference /
//! literal ops, and end marker.
//!
//! The format is stated as a pure function of the pixel sequence (`stream`),
//! built from a per-pixel step over a small coder state.
use vstd::prelude::*;
use vstd::arithmetic::div_mod::{lemma_fundamental_div_mod, lemma_fundamental_div_mod_converse};
use crate::pixel::{Rgba, black_rgba};

verus! {

/// What the coder remembers between pixels.
pub struct Coder {
    /// The colour of the pixel before this one.
    pub prev: Rgba,
    /// Recently seen colours, one per slot.
    pub cache: Seq<Rgba>,
    /// Repeats of `prev` that were seen and are not yet written.
    pub run: int,
}

/// The slot of the table in which a colour is kept.
pub open spec fn slot(c: Rgba) -> int {
    (c.r * 3 + c.g * 5 + c.b * 7 + c.a * 11) % 64
}

/// The state before the first pixel: opaque black as the previous colour, a
/// table of transparent black, no pending run.
pub open spec fn start() -> Coder {
    Coder {
        prev: black_rgba(),
        cache: Seq::new(64, |i: int| Rgba { r: 0, g: 0, b: 0, a: 0 }),
        run: 0,
    }
}

/// Eight-bit wrap-around of an integer.
#[verifier::opaque]
pub open spec fn wrap(x: int) -> int {
    x % 256
}

/// The op for a run of `len` repeats, `1 <= len <= 62`.
pub open spec fn run_op(len: int) -> Seq<u8> {
    seq![(0xc0 + len - 1) as u8]
}

/// The run op that is still owed, if any.
pub open spec fn flush(s: Coder) -> Seq<u8> {
    if s.run > 0 {
        run_op(s.run)
    } else {
        Seq::empty()
    }
}

/// The op for a colour that is neither a repeat nor in the table: the
/// cheapest of literal RGBA (opacity changed), small difference, luma
/// difference and literal RGB that can carry it.
pub open spec fn colour_op(prev: Rgba, px: Rgba) -> Seq<u8> {
    let vr = px.r - prev.r;
    let vg = px.g - prev.g;
    let vb = px.b - prev.b;
    if px.a != prev.a {
        seq![0xffu8, px.r, px.g, px.b, px.a]
    } else if wrap(vr + 2) <= 3 && wrap(vg + 2) <= 3 && wrap(vb + 2) <= 3 {
        seq![(0x40 + 16 * wrap(vr + 2) + 4 * wrap(vg + 2) + wrap(vb + 2)) as u8]
    } else if wrap(vg + 32) <= 63 && wrap(vr - vg + 8) <= 15 && wrap(vb - vg + 8) <= 15 {
        seq![(0x80 + wrap(vg + 32)) as u8, (16 * wrap(vr - vg + 8) + wrap(vb - vg + 8)) as u8]
    } else {
        seq![0xfeu8, px.r, px.g, px.b]
    }
}

/// The bytes written when the coder in state `s` meets the pixel `px`.
pub open spec fn emit(s: Coder, px: Rgba) -> Seq<u8> {
    if px == s.prev {
        if s.run + 1 == 62 {
            run_op(62)
        } else {
            Seq::empty()
        }
    } else if s.cache[slot(px)] == px {
        flush(s) + seq![slot(px) as u8]
    } else {
        flush(s) + colour_op(s.prev, px)
    }
}

/// The state of the coder after it has met the pixel `px` in state `s`.
pub open spec fn advance(s: Coder, px: Rgba) -> Coder {
    if px == s.prev {
        Coder { prev: s.prev, cache: s.cache, run: if s.run + 1 == 62 { 0 } else { s.run + 1 } }
    } else if s.cache[slot(px)] == px {
        Coder { prev: px, cache: s.cache, run: 0 }
    } else {
        Coder { prev: px, cache: s.cache.update(slot(px), px), run: 0 }
    }
}

/// The state after a whole sequence of pixels, taken in order.
pub open spec fn state_after(pixels: Seq<Rgba>) -> Coder
    decreases pixels.len(),
{
    if pixels.len() == 0 {
        start()
    } else {
        advance(state_after(pixels.drop_last()), pixels.last())
    }
}

/// The ops written for a whole sequence of pixels, without the run that may
/// still be pending at its end.
pub open spec fn ops_after(pixels: Seq<Rgba>) -> Seq<u8>
    decreases pixels.len(),
{
    if pixels.len() == 0 {
        Seq::empty()
    } else {
        ops_after(pixels.drop_last()) + emit(state_after(pixels.drop_last()), pixels.last())
    }
}

/// The low 32 bits of a number, most significant byte first.
pub open spec fn be32(v: nat) -> Seq<u8> {
    seq![
        (v / 0x100_0000 % 0x100) as u8,
        (v / 0x1_0000 % 0x100) as u8,
        (v / 0x100 % 0x100) as u8,
        (v % 0x100) as u8,
    ]
}

/// The 14-byte header: the tag `qoif`, width, height, four channels, and the
/// colour space flag 1.
pub open spec fn header(width: nat, height: nat) -> Seq<u8> {
    seq![0x71u8, 0x6f, 0x69, 0x66] + be32(width) + be32(height) + seq![4u8, 1u8]
}

/// The eight bytes that close every stream.
pub open spec fn end_marker() -> Seq<u8> {
    seq![0u8, 0, 0, 0, 0, 0, 0, 1]
}

/// The whole byte stream for a raster of the given size whose colours, row by
/// row from the top left, are `pixels`.
pub open spec fn stream(width: nat, height: nat, pixels: Seq<Rgba>) -> Seq<u8> {
    header(width, height) + ops_after(pixels) + flush(state_after(pixels)) + end_marker()
}

/// The running coder: the state between two pixels.
pub struct Encoder {
    prev: Rgba,
    index: [Rgba; 64],
    run: u8,
}

fn slot_of(c: Rgba) -> (h: u8)
    ensures
        h == slot(c),
{
    let sum: u32 = (c.r as u32) * 3 + (c.g as u32) * 5 + (c.b as u32) * 7 + (c.a as u32) * 11;
    (sum % 64) as u8
}

fn push_be32(buf: &mut Vec<u8>, n: usize)
    ensures
        final(buf)@ == old(buf)@ + be32(n as nat),
{
    let v: u32 = #[verifier::truncate] (n as u32);
    assert(v / 0x100_0000 == n / 0x100_0000 % 0x100 && v / 0x1_0000 % 0x100 == n / 0x1_0000 % 0x100
        && v / 0x100 % 0x100 == n / 0x100 % 0x100 && v % 0x100 == n % 0x100) by (bit_vector)
        requires
            v == #[verifier::truncate] (n as u32),
    ;
    buf.push((v / 0x100_0000) as u8);
    buf.push((v / 0x1_0000 % 0x100) as u8);
    buf.push((v / 0x100 % 0x100) as u8);
    buf.push((v % 0x100) as u8);
    assert(buf@ =~= old(buf)@ + be32(n as nat));
}

/// Appends the header for a raster of the given size.
pub fn push_header(buf: &mut Vec<u8>, width: usize, height: usize)
    ensures
        final(buf)@ == old(buf)@ + header(width as nat, height as nat),
{
    buf.push(0x71);
    buf.push(0x6f);
    buf.push(0x69);
    buf.push(0x66);
    push_be32(buf, width);
    push_be32(buf, height);
    buf.push(4);
    buf.push(1);
    assert(buf@ =~= old(buf)@ + header(width as nat, height as nat));
}

/// The wrap-around of a number is a byte, and differs from the number by a
/// multiple of 256.
pub proof fn lemma_wrap_parts(x: int)
    ensures
        0 <= wrap(x) < 256,
        x == 256 * (x / 256) + wrap(x),
{
    reveal(wrap);
    lemma_fundamental_div_mod(x, 256);
}

/// A byte that differs from a number by a multiple of 256 is its wrap-around.
pub proof fn lemma_wrap_unique(x: int, k: int, y: int)
    requires
        0 <= y < 256,
        x == 256 * k + y,
    ensures
        wrap(x) == y,
{
    reveal(wrap);
    lemma_fundamental_div_mod_converse(x, 256, k, y);
}

proof fn lemma_wrap(x: int, y: int)
    requires
        0 <= y < 256,
        y == x || y == x + 256 || y == x - 256 || y == x + 512 || y == x - 512,
    ensures
        wrap(x) == y,
{
    lemma_wrap_unique(x, (x - y) / 256, y);
}

/// The three channel differences in their small form, then in their luma
/// form (red, green, blue each).
fn differences(prev: Rgba, px: Rgba) -> (d: (u8, u8, u8, u8, u8, u8))
    ensures
        d.0 == wrap(px.r - prev.r + 2),
        d.1 == wrap(px.g - prev.g + 2),
        d.2 == wrap(px.b - prev.b + 2),
        d.3 == wrap((px.r - prev.r) - (px.g - prev.g) + 8),
        d.4 == wrap(px.g - prev.g + 32),
        d.5 == wrap((px.b - prev.b) - (px.g - prev.g) + 8),
{
    let vr: u8 = px.r.wrapping_sub(prev.r);
    let vg: u8 = px.g.wrapping_sub(prev.g);
    let vb: u8 = px.b.wrapping_sub(prev.b);
    let d = (
        vr.wrapping_add(2),
        vg.wrapping_add(2),
        vb.wrapping_add(2),
        vr.wrapping_add(8).wrapping_sub(vg),
        vg.wrapping_add(32),
        vb.wrapping_add(8).wrapping_sub(vg),
    );
    proof {
        lemma_wrap(px.r - prev.r + 2, d.0 as int);
        lemma_wrap(px.g - prev.g + 2, d.1 as int);
        lemma_wrap(px.b - prev.b + 2, d.2 as int);
        lemma_wrap((px.r - prev.r) - (px.g - prev.g) + 8, d.3 as int);
        lemma_wrap(px.g - prev.g + 32, d.4 as int);
        lemma_wrap((px.b - prev.b) - (px.g - prev.g) + 8, d.5 as int);
    }
    d
}

fn small_op(dr: u8, dg: u8, db: u8) -> (op: u8)
    requires
        dr <= 3,
        dg <= 3,
        db <= 3,
    ensures
        op == 0x40 + 16 * dr + 4 * dg + db,
{
    assert((0x40u8 | dr << 4 | dg << 2 | db) == 0x40 + 16 * dr + 4 * dg + db) by (bit_vector)
        requires
            dr <= 3 && dg <= 3 && db <= 3,
    ;
    0x40 | dr << 4 | dg << 2 | db
}

fn luma_op(lr: u8, lg: u8, lb: u8) -> (op: (u8, u8))
    requires
        lr <= 15,
        lg <= 63,
        lb <= 15,
    ensures
        op.0 == 0x80 + lg,
        op.1 == 16 * lr + lb,
{
    assert((0x80u8 | lg) == 0x80 + lg) by (bit_vector)
        requires
            lg <= 63,
    ;
    assert((lr << 4 | lb) == 16 * lr + lb) by (bit_vector)
        requires
            lr <= 15 && lb <= 15,
    ;
    (0x80 | lg, lr << 4 | lb)
}

fn push_colour_op(buf: &mut Vec<u8>, prev: Rgba, px: Rgba)
    ensures
        final(buf)@ == old(buf)@ + colour_op(prev, px),
{
    if px.a != prev.a {
        buf.push(0xff);
        buf.push(px.r);
        buf.push(px.g);
        buf.push(px.b);
        buf.push(px.a);
        assert(buf@ =~= old(buf)@ + colour_op(prev, px));
    } else {
        let (dr, dg, db, lr, lg, lb) = differences(prev, px);
        assert((dr | dg | db) <= 3 <==> dr <= 3 && dg <= 3 && db <= 3) by (bit_vector);
        assert((lr | lb) <= 15 <==> lr <= 15 && lb <= 15) by (bit_vector);
        if dr | dg | db <= 0x03 {
            let op = small_op(dr, dg, db);
            buf.push(op);
            assert(buf@ =~= old(buf)@ + colour_op(prev, px));
        } else if lr | lb <= 0x0f && lg <= 0x3f {
            let (op, low) = luma_op(lr, lg, lb);
            buf.push(op);
            buf.push(low);
            assert(buf@ =~= old(buf)@ + colour_op(prev, px));
        } else {
            buf.push(0xfe);
            buf.push(px.r);
            buf.push(px.g);
            buf.push(px.b);
            assert(buf@ =~= old(buf)@ + colour_op(prev, px));
        }
    }
}

fn push_run_op(buf: &mut Vec<u8>, run: u8)
    requires
        1 <= run <= 62,
    ensures
        final(buf)@ == old(buf)@ + run_op(run as int),
{
    assert((0xc0u8 | (run - 1) as u8) == 0xc0 + run - 1) by (bit_vector)
        requires
            1 <= run <= 62,
    ;
    buf.push(0xc0 | (run - 1));
    assert(buf@ =~= old(buf)@ + run_op(run as int));
}

impl Encoder {
    /// The state that this coder is in.
    pub closed spec fn view(&self) -> Coder {
        Coder { prev: self.prev, cache: self.index@, run: self.run as int }
    }

    /// A pending run is always shorter than the longest run op.
    #[verifier::type_invariant]
    spec fn run_fits(&self) -> bool {
        self.run < 62
    }

    /// A coder before the first pixel.
    pub fn new() -> (e: Self)
        ensures
            e@ == start(),
    {
        let e = Encoder {
            prev: Rgba { r: 0, g: 0, b: 0, a: 0xff },
            index: [Rgba { r: 0, g: 0, b: 0, a: 0 };64],
            run: 0,
        };
        assert(e.index@ =~= start().cache);
        e
    }

    /// Takes the next pixel and appends the ops that it completes.
    pub fn push(&mut self, px: Rgba, buf: &mut Vec<u8>)
        ensures
            final(self)@ == advance(old(self)@, px),
            final(buf)@ == old(buf)@ + emit(old(self)@, px),
    {
        proof {
            use_type_invariant(&*self);
        }
        if px == self.prev {
            let run = self.run + 1;
            if run == 0x3e {
                push_run_op(buf, run);
                self.run = 0;
            } else {
                self.run = run;
                assert(buf@ =~= old(buf)@ + emit(old(self)@, px));
            }
        } else {
            if self.run != 0 {
                push_run_op(buf, self.run);
                self.run = 0;
            }
            let h = slot_of(px);
            if px == self.index[h as usize] {
                buf.push(h);
            } else {
                self.index[h as usize] = px;
                push_colour_op(buf, self.prev, px);
            }
            self.prev = px;
            assert(buf@ =~= old(buf)@ + emit(old(self)@, px));
        }
    }

    /// Appends the run that is still pending, then the end marker.
    pub fn finish(self, buf: &mut Vec<u8>)
        ensures
            final(buf)@ == old(buf)@ + flush(self@) + end_marker(),
    {
        proof {
            use_type_invariant(&self);
        }
        if self.run != 0 {
            push_run_op(buf, self.run);
        }
        buf.push(0);
        buf.push(0);
        buf.push(0);
        buf.push(0);
        buf.push(0);
        buf.push(0);
        buf.push(0);
        buf.push(1);
        assert(buf@ =~= old(buf)@ + flush(self@) + end_marker());
    }
}

} // verus!
