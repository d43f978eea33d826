//! Reading the compact stream back: what a reader that knows the number of
//! pixels gets out of a byte stream, and the proof that it gets back exactly
//! the pixels that were written.
use vstd::prelude::*;
use vstd::arithmetic::div_mod::{lemma_fundamental_div_mod, lemma_fundamental_div_mod_converse};
use crate::pixel::{Rgba, black_rgba};
use crate::qoi::{
    Coder, advance, be32, colour_op, emit, end_marker, flush, header, lemma_wrap_parts,
    lemma_wrap_unique, ops_after, slot, start, state_after, stream, wrap,
};

verus! {

/// The byte at a position, 0 beyond the end.
pub open spec fn byte_at(bytes: Seq<u8>, i: int) -> int {
    if 0 <= i < bytes.len() {
        bytes[i] as int
    } else {
        0
    }
}

/// The number of bytes of the op that starts with the byte `b`.
pub open spec fn op_len(b: int) -> int {
    if b == 0xff {
        5
    } else if b == 0xfe {
        4
    } else if 0x80 <= b < 0xc0 {
        2
    } else {
        1
    }
}

/// The number of pixels that the op starting with the byte `b` stands for.
pub open spec fn op_count(b: int) -> int {
    if 0xc0 <= b < 0xfe {
        b - 0xc0 + 1
    } else {
        1
    }
}

/// A channel moved by a difference, with wrap-around.
pub open spec fn shifted(channel: u8, by: int) -> u8 {
    wrap(channel + by) as u8
}

/// The colour that the op at position `at` stands for, given the colour
/// before it and the table of recently seen colours.
pub open spec fn op_pixel(prev: Rgba, cache: Seq<Rgba>, bytes: Seq<u8>, at: int) -> Rgba {
    let b = byte_at(bytes, at);
    if b == 0xff {
        Rgba {
            r: byte_at(bytes, at + 1) as u8,
            g: byte_at(bytes, at + 2) as u8,
            b: byte_at(bytes, at + 3) as u8,
            a: byte_at(bytes, at + 4) as u8,
        }
    } else if b == 0xfe {
        Rgba {
            r: byte_at(bytes, at + 1) as u8,
            g: byte_at(bytes, at + 2) as u8,
            b: byte_at(bytes, at + 3) as u8,
            a: prev.a,
        }
    } else if b < 0x40 {
        cache[b]
    } else if b < 0x80 {
        let code = b - 0x40;
        Rgba {
            r: shifted(prev.r, code / 16 - 2),
            g: shifted(prev.g, code / 4 % 4 - 2),
            b: shifted(prev.b, code % 4 - 2),
            a: prev.a,
        }
    } else if b < 0xc0 {
        let vg = b - 0x80 - 32;
        let low = byte_at(bytes, at + 1);
        Rgba {
            r: shifted(prev.r, vg + low / 16 - 8),
            g: shifted(prev.g, vg),
            b: shifted(prev.b, vg + low % 16 - 8),
            a: prev.a,
        }
    } else {
        prev
    }
}

/// `count` copies of one colour.
pub open spec fn repeat(px: Rgba, count: int) -> Seq<Rgba> {
    Seq::new(count as nat, |i: int| px)
}

/// The next `n` pixels read from position `at`. Every colour read is also
/// entered in the table, in its slot.
pub open spec fn decode(prev: Rgba, cache: Seq<Rgba>, bytes: Seq<u8>, at: int, n: nat) -> Seq<Rgba>
    decreases n,
{
    if n == 0 {
        Seq::empty()
    } else {
        let b = byte_at(bytes, at);
        let px = op_pixel(prev, cache, bytes, at);
        let count = if op_count(b) < n {
            op_count(b)
        } else {
            n as int
        };
        repeat(px, count) + decode(
            px,
            cache.update(slot(px), px),
            bytes,
            at + op_len(b),
            (n - count) as nat,
        )
    }
}

/// The first `n` pixels of a whole stream: reading starts behind the 14-byte
/// header, from the state in which writing starts.
pub open spec fn decode_stream(bytes: Seq<u8>, n: nat) -> Seq<Rgba> {
    decode(start().prev, start().cache, bytes, 14, n)
}

/// The number that four bytes from position `at` give, most significant
/// byte first.
pub open spec fn read_be32(bytes: Seq<u8>, at: int) -> nat {
    (byte_at(bytes, at) * 0x100_0000 + byte_at(bytes, at + 1) * 0x1_0000 + byte_at(bytes, at + 2)
        * 0x100 + byte_at(bytes, at + 3)) as nat
}

/// The width that the header of a stream gives.
pub open spec fn header_width(bytes: Seq<u8>) -> nat {
    read_be32(bytes, 4)
}

/// The height that the header of a stream gives.
pub open spec fn header_height(bytes: Seq<u8>) -> nat {
    read_be32(bytes, 8)
}

/// The picture that a stream holds: as many pixels as its header announces.
pub open spec fn decode_image(bytes: Seq<u8>) -> Seq<Rgba> {
    decode_stream(bytes, header_width(bytes) * header_height(bytes))
}

/// The ops for the pixels `rest` met in state `s`, first pixel first, with
/// the run that is pending at the end.
spec fn ops_from(s: Coder, rest: Seq<Rgba>) -> Seq<u8>
    decreases rest.len(),
{
    if rest.len() == 0 {
        flush(s)
    } else {
        emit(s, rest[0]) + ops_from(advance(s, rest[0]), rest.drop_first())
    }
}

/// What holds of the writer's state between any two pixels.
spec fn writer_inv(s: Coder) -> bool {
    &&& s.cache.len() == 64
    &&& 0 <= s.run < 62
    &&& (s.cache[slot(s.prev)] == s.prev || (s.prev == black_rgba() && s.cache[53] == (Rgba {
        r: 0,
        g: 0,
        b: 0,
        a: 0,
    })))
}

/// The reader's table agrees with the writer's, except that the reader may
/// already hold the opening colour where the writer still holds none.
spec fn tables_agree(s: Coder, table: Seq<Rgba>) -> bool {
    &&& table.len() == 64
    &&& forall|i: int|
        0 <= i < 64 ==> #[trigger] table[i] == s.cache[i] || (i == 53 && s.cache[53] == (Rgba {
            r: 0,
            g: 0,
            b: 0,
            a: 0,
        }) && table[53] == black_rgba())
}

/// Moving a channel by the wrapped difference to another gives the other.
proof fn lemma_shift_back(from: u8, to: u8, bias: int)
    ensures
        shifted(from, wrap(to - from + bias) - bias) == to,
{
    lemma_wrap_parts(to - from + bias);
    lemma_wrap_unique(from + wrap(to - from + bias) - bias, -((to - from + bias) / 256), to as int);
}

/// The same for a difference that was stored relative to the green one.
proof fn lemma_shift_back_luma(from: u8, to: u8, from_g: u8, to_g: u8)
    ensures
        shifted(
            from,
            (wrap(to_g - from_g + 32) - 32) + wrap((to - from) - (to_g - from_g) + 8) - 8,
        ) == to,
{
    let vg = to_g - from_g + 32;
    let v = (to - from) - (to_g - from_g) + 8;
    lemma_wrap_parts(vg);
    lemma_wrap_parts(v);
    lemma_wrap_unique(
        from + (wrap(vg) - 32) + wrap(v) - 8,
        -(vg / 256) - (v / 256),
        to as int,
    );
}

proof fn lemma_two_digits(hi: int, lo: int, base: int)
    requires
        0 <= lo < base,
    ensures
        (hi * base + lo) / base == hi,
        (hi * base + lo) % base == lo,
{
    lemma_fundamental_div_mod_converse(hi * base + lo, base, hi, lo);
}

/// An op for a colour that is not in the table reads back as that colour.
proof fn lemma_colour_op_reads(prev: Rgba, table: Seq<Rgba>, px: Rgba, bytes: Seq<u8>, at: int)
    requires
        0 <= at,
        at + colour_op(prev, px).len() <= bytes.len(),
        forall|i: int|
            0 <= i < colour_op(prev, px).len() ==> bytes[at + i] == #[trigger] colour_op(prev, px)[i],
    ensures
        op_pixel(prev, table, bytes, at) == px,
        op_count(byte_at(bytes, at)) == 1,
        op_len(byte_at(bytes, at)) == colour_op(prev, px).len(),
{
    let op = colour_op(prev, px);
    let vr = px.r - prev.r;
    let vg = px.g - prev.g;
    let vb = px.b - prev.b;
    lemma_wrap_parts(vr + 2);
    lemma_wrap_parts(vg + 2);
    lemma_wrap_parts(vb + 2);
    lemma_wrap_parts(vg + 32);
    lemma_wrap_parts(vr - vg + 8);
    lemma_wrap_parts(vb - vg + 8);
    assert(bytes[at] == op[0]);
    if px.a != prev.a {
        assert(bytes[at + 1] == op[1]);
        assert(bytes[at + 2] == op[2]);
        assert(bytes[at + 3] == op[3]);
        assert(bytes[at + 4] == op[4]);
    } else if wrap(vr + 2) <= 3 && wrap(vg + 2) <= 3 && wrap(vb + 2) <= 3 {
        let dr = wrap(vr + 2);
        let dg = wrap(vg + 2);
        let db = wrap(vb + 2);
        let code = 16 * dr + 4 * dg + db;
        assert(byte_at(bytes, at) == 0x40 + code);
        lemma_two_digits(dr, 4 * dg + db, 16);
        lemma_two_digits(4 * dr + dg, db, 4);
        lemma_two_digits(dr, dg, 4);
        assert(code / 16 == dr);
        assert(code % 4 == db);
        assert(code / 4 % 4 == dg);
        lemma_shift_back(prev.r, px.r, 2);
        lemma_shift_back(prev.g, px.g, 2);
        lemma_shift_back(prev.b, px.b, 2);
    } else if wrap(vg + 32) <= 63 && wrap(vr - vg + 8) <= 15 && wrap(vb - vg + 8) <= 15 {
        let lg = wrap(vg + 32);
        let lr = wrap(vr - vg + 8);
        let lb = wrap(vb - vg + 8);
        assert(bytes[at + 1] == op[1]);
        assert(byte_at(bytes, at) == 0x80 + lg);
        assert(byte_at(bytes, at + 1) == 16 * lr + lb);
        lemma_two_digits(lr, lb, 16);
        lemma_shift_back(prev.g, px.g, 32);
        lemma_shift_back_luma(prev.r, px.r, prev.g, px.g);
        lemma_shift_back_luma(prev.b, px.b, prev.g, px.g);
    } else {
        assert(bytes[at + 1] == op[1]);
        assert(bytes[at + 2] == op[2]);
        assert(bytes[at + 3] == op[3]);
    }
}

/// Taken first pixel first from the state after `done`, the ops for `rest`
/// complete those for `done` to those for both.
proof fn lemma_ops_from(done: Seq<Rgba>, rest: Seq<Rgba>)
    ensures
        ops_after(done) + ops_from(state_after(done), rest) == ops_after(done + rest) + flush(
            state_after(done + rest),
        ),
    decreases rest.len(),
{
    if rest.len() == 0 {
        assert(done + rest =~= done);
    } else {
        let done1 = done.push(rest[0]);
        assert(done1.drop_last() =~= done);
        assert(done1 + rest.drop_first() =~= done + rest);
        lemma_ops_from(done1, rest.drop_first());
        assert(ops_after(done) + ops_from(state_after(done), rest) =~= ops_after(done1) + ops_from(
            state_after(done1),
            rest.drop_first(),
        ));
    }
}

/// A reader at position `at`, whose table agrees with the writer's, reads
/// back the run that the writer has pending and then the pixels `rest`.
proof fn lemma_reads_back(s: Coder, table: Seq<Rgba>, rest: Seq<Rgba>, bytes: Seq<u8>, at: int)
    requires
        writer_inv(s),
        tables_agree(s, table),
        0 <= at,
        at + ops_from(s, rest).len() <= bytes.len(),
        forall|i: int|
            0 <= i < ops_from(s, rest).len() ==> bytes[at + i] == #[trigger] ops_from(s, rest)[i],
    ensures
        decode(s.prev, table, bytes, at, (s.run + rest.len()) as nat) == repeat(s.prev, s.run)
            + rest,
    decreases rest.len(),
{
    let n = (s.run + rest.len()) as nat;
    let all = ops_from(s, rest);
    let zero = Rgba { r: 0, g: 0, b: 0, a: 0 };
    assert(slot(zero) == 0);
    assert(slot(black_rgba()) == 53);
    let table1 = table.update(slot(s.prev), s.prev);
    assert(tables_agree(s, table1));
    if rest.len() == 0 {
        if s.run > 0 {
            assert(bytes[at] == all[0]);
            assert(op_pixel(s.prev, table, bytes, at) == s.prev);
            assert(decode(s.prev, table1, bytes, at + 1, 0) =~= Seq::<Rgba>::empty());
            assert(decode(s.prev, table, bytes, at, n) =~= repeat(s.prev, s.run) + rest);
        } else {
            assert(decode(s.prev, table, bytes, at, n) =~= repeat(s.prev, s.run) + rest);
        }
    } else {
        let px = rest[0];
        let rest1 = rest.drop_first();
        let s1 = advance(s, px);
        let tail = ops_from(s1, rest1);
        assert(all == emit(s, px) + tail);
        if px == s.prev {
            if s.run + 1 == 62 {
                assert(bytes[at] == all[0]);
                assert(tables_agree(s1, table1));
                assert forall|i: int| 0 <= i < tail.len() implies bytes[at + 1 + i] == #[trigger] tail[i] by {
                    assert(bytes[at + (1 + i)] == all[1 + i]);
                }
                lemma_reads_back(s1, table1, rest1, bytes, at + 1);
                assert(op_pixel(s.prev, table, bytes, at) == s.prev);
                assert(decode(s.prev, table, bytes, at, n) =~= repeat(s.prev, 62) + decode(
                    s.prev,
                    table1,
                    bytes,
                    at + 1,
                    rest1.len(),
                ));
                assert(repeat(s.prev, 62) + (repeat(s.prev, 0) + rest1) =~= repeat(s.prev, s.run)
                    + rest);
            } else {
                assert(all =~= tail);
                lemma_reads_back(s1, table, rest1, bytes, at);
                assert(repeat(s.prev, s.run + 1) + rest1 =~= repeat(s.prev, s.run) + rest);
            }
        } else {
            let pending = flush(s);
            let hit = s.cache[slot(px)] == px;
            let op = if hit {
                seq![slot(px) as u8]
            } else {
                colour_op(s.prev, px)
            };
            let at1 = at + pending.len();
            let at2 = at1 + op.len();
            let before = if s.run > 0 {
                table1
            } else {
                table
            };
            let after = before.update(slot(px), px);
            assert(all =~= pending + op + tail);
            assert forall|i: int| 0 <= i < op.len() implies bytes[at1 + i] == #[trigger] op[i] by {
                assert(bytes[at + (pending.len() + i)] == all[pending.len() + i]);
            }
            assert forall|i: int| 0 <= i < tail.len() implies bytes[at2 + i] == #[trigger] tail[i] by {
                assert(bytes[at + (pending.len() + op.len() + i)] == all[pending.len() + op.len()
                    + i]);
            }
            if hit {
                assert(bytes[at1 + 0] == op[0]);
                assert(op_pixel(s.prev, before, bytes, at1) == px);
            } else {
                lemma_colour_op_reads(s.prev, before, px, bytes, at1);
            }
            assert(op_pixel(s.prev, before, bytes, at1) == px);
            assert(op_count(byte_at(bytes, at1)) == 1);
            assert(op_len(byte_at(bytes, at1)) == op.len());
            assert(writer_inv(s1));
            assert(tables_agree(s1, after));
            lemma_reads_back(s1, after, rest1, bytes, at2);
            assert(decode(s.prev, before, bytes, at1, rest.len()) =~= repeat(px, 1) + decode(
                px,
                after,
                bytes,
                at2,
                rest1.len(),
            ));
            assert(repeat(px, 1) + (repeat(px, 0) + rest1) =~= rest);
            if s.run > 0 {
                assert(bytes[at + 0] == all[0]);
                assert(op_pixel(s.prev, table, bytes, at) == s.prev);
                assert(decode(s.prev, table, bytes, at, n) =~= repeat(s.prev, s.run) + decode(
                    s.prev,
                    table1,
                    bytes,
                    at + 1,
                    rest.len(),
                ));
            } else {
                assert(repeat(s.prev, 0) + rest =~= rest);
            }
        }
    }
}

/// Reading a stream gives back the pixels that were written: for every
/// raster size and every sequence of pixels, the reader that is told how many
/// pixels to expect gets exactly those pixels, in order.
pub proof fn lemma_stream_decodes(width: nat, height: nat, pixels: Seq<Rgba>)
    ensures
        decode_stream(stream(width, height, pixels), pixels.len()) == pixels,
{
    let bytes = stream(width, height, pixels);
    let body = ops_from(start(), pixels);
    lemma_ops_from(Seq::empty(), pixels);
    assert(Seq::<Rgba>::empty() + pixels =~= pixels);
    assert(body =~= ops_after(pixels) + flush(state_after(pixels)));
    assert(bytes =~= header(width, height) + body + end_marker());
    assert forall|i: int| 0 <= i < body.len() implies bytes[14 + i] == #[trigger] body[i] by {}
    lemma_reads_back(start(), start().cache, pixels, bytes, 14);
    assert(repeat(start().prev, 0) + pixels =~= pixels);
}

/// The four low base-256 digits of a number make up its low 32 bits.
proof fn lemma_four_digits(v: int)
    requires
        0 <= v,
    ensures
        (v / 0x100_0000 % 0x100) * 0x100_0000 + (v / 0x1_0000 % 0x100) * 0x1_0000 + (v / 0x100
            % 0x100) * 0x100 + v % 0x100 == v % 0x1_0000_0000,
{
    let q1 = v / 0x100;
    let r0 = v % 0x100;
    let q2 = q1 / 0x100;
    let r1 = q1 % 0x100;
    let q3 = q2 / 0x100;
    let r2 = q2 % 0x100;
    let q4 = q3 / 0x100;
    let r3 = q3 % 0x100;
    lemma_fundamental_div_mod(v, 0x100);
    lemma_fundamental_div_mod(q1, 0x100);
    lemma_fundamental_div_mod(q2, 0x100);
    lemma_fundamental_div_mod(q3, 0x100);
    lemma_fundamental_div_mod_converse(v, 0x1_0000, q2, 0x100 * r1 + r0);
    lemma_fundamental_div_mod_converse(v, 0x100_0000, q3, 0x1_0000 * r2 + 0x100 * r1 + r0);
    lemma_fundamental_div_mod_converse(
        v,
        0x1_0000_0000,
        q4,
        0x100_0000 * r3 + 0x1_0000 * r2 + 0x100 * r1 + r0,
    );
}

/// Four bytes written most significant first read back as the number, as
/// far as it fits in 32 bits.
proof fn lemma_be32_reads(v: nat, bytes: Seq<u8>, at: int)
    requires
        0 <= at,
        at + 4 <= bytes.len(),
        forall|i: int| 0 <= i < 4 ==> bytes[at + i] == #[trigger] be32(v)[i],
    ensures
        read_be32(bytes, at) == v % 0x1_0000_0000,
{
    assert(bytes[at + 0] == be32(v)[0]);
    assert(bytes[at + 1] == be32(v)[1]);
    assert(bytes[at + 2] == be32(v)[2]);
    assert(bytes[at + 3] == be32(v)[3]);
    lemma_four_digits(v as int);
}

/// A stream begins with its header and tells the size of the raster, as far
/// as width and height fit in 32 bits each.
pub proof fn lemma_header_reads(width: nat, height: nat, pixels: Seq<Rgba>)
    ensures
        stream(width, height, pixels).len() >= 22,
        stream(width, height, pixels).subrange(0, 14) == header(width, height),
        header_width(stream(width, height, pixels)) == width % 0x1_0000_0000,
        header_height(stream(width, height, pixels)) == height % 0x1_0000_0000,
{
    let bytes = stream(width, height, pixels);
    let head = header(width, height);
    assert(head.len() == 14);
    assert(bytes.subrange(0, 14) =~= head);
    assert forall|i: int| 0 <= i < 4 implies bytes[4 + i] == #[trigger] be32(width)[i] by {
        assert(bytes[4 + i] == head[4 + i]);
    }
    assert forall|i: int| 0 <= i < 4 implies bytes[8 + i] == #[trigger] be32(height)[i] by {
        assert(bytes[8 + i] == head[8 + i]);
    }
    lemma_be32_reads(width, bytes, 4);
    lemma_be32_reads(height, bytes, 8);
}

/// A stream can be read without the raster it was written from: for a raster
/// of `width` by `height` pixels, both below 2^32, the reader finds the size
/// in the header and then gets back every pixel.
pub proof fn lemma_image_decodes(width: nat, height: nat, pixels: Seq<Rgba>)
    requires
        width < 0x1_0000_0000,
        height < 0x1_0000_0000,
        pixels.len() == width * height,
    ensures
        decode_image(stream(width, height, pixels)) == pixels,
{
    lemma_header_reads(width, height, pixels);
    lemma_stream_decodes(width, height, pixels);
}

/// The stream loses nothing: two rasters of as many pixels whose streams are
/// the same have the same pixels.
pub proof fn lemma_stream_is_lossless(width: nat, height: nat, a: Seq<Rgba>, b: Seq<Rgba>)
    requires
        a.len() == b.len(),
        stream(width, height, a) == stream(width, height, b),
    ensures
        a == b,
{
    lemma_stream_decodes(width, height, a);
    lemma_stream_decodes(width, height, b);
}

/// No pixel costs more than five bytes: the ops for any pixels, with the run
/// that is pending at their end, take at most five bytes per pixel.
pub proof fn lemma_ops_len(pixels: Seq<Rgba>)
    ensures
        0 <= state_after(pixels).run < 62,
        ops_after(pixels).len() + flush(state_after(pixels)).len() <= 5 * pixels.len(),
    decreases pixels.len(),
{
    if pixels.len() > 0 {
        lemma_ops_len(pixels.drop_last());
    }
}

/// A stream is never longer than its 22 bytes of header and end marker and
/// five bytes for every pixel.
pub proof fn lemma_stream_len(width: nat, height: nat, pixels: Seq<Rgba>)
    ensures
        22 <= stream(width, height, pixels).len() <= 22 + 5 * pixels.len(),
{
    lemma_ops_len(pixels);
}

} // verus!
