//! A raster of fixed width and height, and its serialisers.
use vstd::prelude::*;
use crate::pixel::{Pixel, Rgb, Rgba, bit_of, black_rgba, opaque, rgb_of, white_rgba};
use crate::pnm::{pbm_p1, ppm_p6, push_dimensions, rgb_bytes, bit_char, dimensions};
use crate::decode::{decode_stream, lemma_stream_decodes};
use crate::qoi::{Encoder, ops_after, state_after, stream, header, push_header};

verus! {

/// `W` columns by `H` rows of pixels, row by row from the top left.
#[derive(Debug, Eq, PartialEq)]
pub struct Image<P: Pixel, const W: usize, const H: usize> {
    rows: Vec<[P; W]>,
}

/// `std::slice::IterMut`, the iterator over mutable references to the items
/// of a slice. Nothing is known of what it holds.
#[verifier::external_type_specification]
#[verifier::external_body]
#[verifier::reject_recursive_types(T)]
pub struct ExIterMut<'a, T: 'a>(std::slice::IterMut<'a, T>);

/// What a cell of a rendered picture holds: the colour that `cast` saw at
/// `at`, or what `bg` gives for `at` where `cast` saw nothing.
pub open spec fn rendered<P: Pixel, C: Fn([usize; 2]) -> Option<Rgb>, B: Fn([usize; 2]) -> P>(
    cast: C,
    bg: B,
    at: [usize; 2],
    px: P,
) -> bool {
    exists|seen: Option<Rgb>| #[trigger]
        call_ensures(cast, (at,), seen) && match seen {
            Some(colour) => px == P::of_rgba(opaque(colour)),
            None => call_ensures(bg, (at,), px),
        }
}

/// What a cell holds after a picture was drawn over it: the colour that
/// `cast` saw at `at`, or what it held before where `cast` saw nothing.
pub open spec fn overlaid<P: Pixel, C: Fn([usize; 2]) -> Option<Rgb>>(
    cast: C,
    at: [usize; 2],
    before: P,
    px: P,
) -> bool {
    exists|seen: Option<Rgb>| #[trigger]
        call_ensures(cast, (at,), seen) && px == match seen {
            Some(colour) => P::of_rgba(opaque(colour)),
            None => before,
        }
}

/// Position in row-major order of the cell in column `x` of row `y`.
pub open spec fn cell(width: int, x: int, y: int) -> int {
    y * width + x
}

/// A position in row-major order names exactly one column and row, and lies
/// within the raster.
pub proof fn lemma_cell(width: int, height: int, x: int, y: int)
    requires
        0 <= x < width,
        0 <= y < height,
    ensures
        cell(width, x, y) % width == x,
        cell(width, x, y) / width == y,
        0 <= cell(width, x, y) < width * height,
{
    vstd::arithmetic::div_mod::lemma_fundamental_div_mod_converse(y * width + x, width, y, x);
    assert(0 <= y * width && (y + 1) * width <= width * height) by (nonlinear_arith)
        requires
            0 <= y,
            y + 1 <= height,
            0 < width,
    ;
    assert((y + 1) * width == y * width + width) by (nonlinear_arith);
}

/// The cell after the last one of a row is the first of the next row.
pub proof fn lemma_next_row(width: int, y: int)
    ensures
        cell(width, width, y) == cell(width, 0, y + 1),
        cell(width, 0, 0) == 0,
        cell(width, 0, y) == width * y,
{
    assert((y + 1) * width == y * width + width) by (nonlinear_arith);
    assert(y * width == width * y) by (nonlinear_arith);
}

impl<P: Pixel, const W: usize, const H: usize> core::ops::Index<[usize; 2]> for Image<P, W, H> {
    type Output = P;

    /// The pixel in column `index[0]` of row `index[1]`.
    fn index(&self, index: [usize; 2]) -> (px: &P)
        ensures
            *px == self.pixel(index[0] as int, index[1] as int),
    {
        proof {
            use_type_invariant(self);
        }
        &self.rows[index[1]][index[0]]
    }
}

impl<P: Pixel, const W: usize, const H: usize> vstd::std_specs::core::IndexSpecImpl<[usize; 2]> for Image<P, W, H> {
    open spec fn index_req(&self, index: &[usize; 2]) -> bool {
        index[0] < W && index[1] < H
    }
}

impl<P: Pixel, const W: usize, const H: usize> core::ops::IndexMut<[usize; 2]> for Image<P, W, H> {
    /// The pixel in column `index[0]` of row `index[1]`, to be replaced.
    fn index_mut(&mut self, index: [usize; 2]) -> (px: &mut P)
        requires
            index[0] < W,
            index[1] < H,
        ensures
            *px == old(self).pixel(index[0] as int, index[1] as int),
            final(self).pixel(index[0] as int, index[1] as int) == *final(px),
            forall|x: int, y: int|
                0 <= x < W && 0 <= y < H && !(x == index[0] && y == index[1]) ==> final(self).pixel(
                    x,
                    y,
                ) == old(self).pixel(x, y),
    {
        proof {
            use_type_invariant(&*self);
        }
        &mut self.rows[index[1]][index[0]]
    }
}

impl<P: Pixel, const W: usize, const H: usize> IntoIterator for Image<P, W, H> {
    type Item = [P; W];

    type IntoIter = std::vec::IntoIter<[P; W]>;

    /// The rows from the top, by value.
    fn into_iter(self) -> (rows: std::vec::IntoIter<[P; W]>)
        ensures
            vstd::std_specs::vec::into_iter_elts(rows) == self.rows(),
    {
        self.rows.into_iter()
    }
}

impl<'a, P: Pixel, const W: usize, const H: usize> IntoIterator for &'a Image<P, W, H> {
    type Item = &'a [P; W];

    type IntoIter = std::slice::Iter<'a, [P; W]>;

    /// The rows from the top.
    fn into_iter(self) -> (rows: std::slice::Iter<'a, [P; W]>)
        ensures
            vstd::std_specs::slice::into_iter_elts(rows) == self.rows(),
    {
        self.iter()
    }
}

impl<'a, P: Pixel, const W: usize, const H: usize> IntoIterator for &'a mut Image<P, W, H> {
    type Item = &'a mut [P; W];

    type IntoIter = std::slice::IterMut<'a, [P; W]>;

    /// The rows from the top, each open to change.
    fn into_iter(self) -> (rows: std::slice::IterMut<'a, [P; W]>) {
        self.iter_mut()
    }
}

impl<P: Pixel, const W: usize, const H: usize> Clone for Image<P, W, H> {
    fn clone(&self) -> (img: Self)
        ensures
            img.rows().len() == H,
            forall|x: int, y: int| 0 <= x < W && 0 <= y < H ==> img.pixel(x, y) == self.pixel(x, y),
    {
        proof {
            use_type_invariant(self);
        }
        let mut rows: Vec<[P; W]> = Vec::new();
        let mut y: usize = 0;
        while y < H
            invariant
                y <= H,
                self.rows@.len() == H,
                rows@.len() == y,
                forall|j: int| 0 <= j < y ==> (#[trigger] rows@[j]) == self.rows@[j],
            decreases H - y,
        {
            rows.push(self.rows[y]);
            y += 1;
        }
        Image { rows }
    }
}

impl<P: Pixel, const W: usize, const H: usize> Image<P, W, H> {
    #[verifier::type_invariant]
    spec fn well_formed(&self) -> bool {
        self.rows@.len() == H
    }

    /// The rows from the top.
    pub closed spec fn rows(&self) -> Seq<[P; W]> {
        self.rows@
    }

    /// The pixel in column `x` of row `y`.
    pub open spec fn pixel(&self, x: int, y: int) -> P {
        self.rows()[y]@[x]
    }

    /// All pixels, row by row from the top left.
    pub open spec fn pixels(&self) -> Seq<P> {
        Seq::new((W * H) as nat, |i: int| self.pixel(i % (W as int), i / (W as int)))
    }

    /// The colour of every pixel, row by row from the top left.
    pub open spec fn colours(&self) -> Seq<Rgba> {
        self.pixels().map_values(|p: P| p.rgba())
    }

    /// Whether each pixel prints as ink, row by row from the top left.
    pub open spec fn bits(&self) -> Seq<bool> {
        self.colours().map_values(|c: Rgba| bit_of(c))
    }

    /// The colour of every pixel without its opacity, row by row from the top
    /// left.
    pub open spec fn rgbs(&self) -> Seq<Rgb> {
        self.colours().map_values(|c: Rgba| rgb_of(c))
    }

    /// An image with every pixel `px`.
    pub fn fill(px: P) -> (img: Self)
        ensures
            img.rows().len() == H,
            forall|x: int, y: int| 0 <= x < W && 0 <= y < H ==> img.pixel(x, y) == px,
    {
        let mut rows: Vec<[P; W]> = Vec::new();
        let mut y: usize = 0;
        while y < H
            invariant
                y <= H,
                rows@.len() == y,
                forall|j: int, i: int| 0 <= i < W && 0 <= j < y ==> (#[trigger] rows@[j]@[i]) == px,
            decreases H - y,
        {
            rows.push([px;W]);
            y += 1;
        }
        Image { rows }
    }

    /// An image whose pixel in column `x` of row `y` is what `px` gives for
    /// `[x, y]`; `px` is called once for every cell.
    pub fn fill_with<F: Fn([usize; 2]) -> P>(px: F) -> (img: Self)
        requires
            forall|x: usize, y: usize| x < W && y < H ==> call_requires(px, ([x, y],)),
        ensures
            img.rows().len() == H,
            forall|x: usize, y: usize|
                x < W && y < H ==> call_ensures(px, ([x, y],), #[trigger] img.pixel(x as int, y as int)),
    {
        let mut rows: Vec<[P; W]> = Vec::new();
        let mut y: usize = 0;
        while y < H
            invariant
                y <= H,
                rows@.len() == y,
                forall|x: usize, y: usize| x < W && y < H ==> call_requires(px, ([x, y],)),
                forall|i: usize, j: usize|
                    i < W && j < y ==> call_ensures(px, ([i, j],), #[trigger] rows@[j as int]@[i as int]),
            decreases H - y,
        {
            let mut row: [P; W] = [P::black();W];
            let mut x: usize = 0;
            while x < W
                invariant
                    x <= W,
                    y < H,
                    forall|x: usize, y: usize| x < W && y < H ==> call_requires(px, ([x, y],)),
                    forall|i: usize| i < x ==> call_ensures(px, ([i, y],), #[trigger] row@[i as int]),
                decreases W - x,
            {
                let p = px([x, y]);
                row[x] = p;
                x += 1;
            }
            rows.push(row);
            y += 1;
        }
        Image { rows }
    }

    /// A picture of what `cast` sees: each cell has the colour that `cast`
    /// gives for it, and what `bg` gives where `cast` sees nothing. `cast` is
    /// called once for every cell, `bg` only where `cast` saw nothing.
    pub fn render_with<C: Fn([usize; 2]) -> Option<Rgb>, B: Fn([usize; 2]) -> P>(
        cast: C,
        bg: B,
    ) -> (img: Self)
        requires
            forall|x: usize, y: usize| x < W && y < H ==> call_requires(cast, ([x, y],)),
            forall|x: usize, y: usize| x < W && y < H ==> call_requires(bg, ([x, y],)),
        ensures
            img.rows().len() == H,
            forall|x: usize, y: usize|
                x < W && y < H ==> rendered(cast, bg, [x, y], #[trigger] img.pixel(x as int, y as int)),
    {
        let mut rows: Vec<[P; W]> = Vec::new();
        let mut y: usize = 0;
        while y < H
            invariant
                y <= H,
                rows@.len() == y,
                forall|x: usize, y: usize| x < W && y < H ==> call_requires(cast, ([x, y],)),
                forall|x: usize, y: usize| x < W && y < H ==> call_requires(bg, ([x, y],)),
                forall|i: usize, j: usize|
                    i < W && j < y ==> rendered(cast, bg, [i, j], #[trigger] rows@[j as int]@[i as int]),
            decreases H - y,
        {
            let mut row: [P; W] = [P::black();W];
            let mut x: usize = 0;
            while x < W
                invariant
                    x <= W,
                    y < H,
                    forall|x: usize, y: usize| x < W && y < H ==> call_requires(cast, ([x, y],)),
                    forall|x: usize, y: usize| x < W && y < H ==> call_requires(bg, ([x, y],)),
                    forall|i: usize| i < x ==> rendered(cast, bg, [i, y], #[trigger] row@[i as int]),
                decreases W - x,
            {
                let seen = cast([x, y]);
                let p = match seen {
                    Some(colour) => P::from_rgb(colour),
                    None => bg([x, y]),
                };
                assert(rendered(cast, bg, [x, y], p));
                row[x] = p;
                x += 1;
            }
            rows.push(row);
            y += 1;
        }
        Image { rows }
    }

    /// This picture with what `cast` sees drawn over it: each cell has the
    /// colour that `cast` gives for it, and stays as it is where `cast` sees
    /// nothing. `cast` is called once for every cell.
    pub fn render_over<C: Fn([usize; 2]) -> Option<Rgb>>(self, cast: C) -> (img: Self)
        requires
            forall|x: usize, y: usize| x < W && y < H ==> call_requires(cast, ([x, y],)),
        ensures
            img.rows().len() == H,
            forall|x: usize, y: usize|
                x < W && y < H ==> overlaid(
                    cast,
                    [x, y],
                    self.pixel(x as int, y as int),
                    #[trigger] img.pixel(x as int, y as int),
                ),
    {
        proof {
            use_type_invariant(&self);
        }
        let mut rows: Vec<[P; W]> = Vec::new();
        let mut y: usize = 0;
        while y < H
            invariant
                y <= H,
                self.rows@.len() == H,
                rows@.len() == y,
                forall|x: usize, y: usize| x < W && y < H ==> call_requires(cast, ([x, y],)),
                forall|i: usize, j: usize|
                    i < W && j < y ==> overlaid(
                        cast,
                        [i, j],
                        self.rows@[j as int]@[i as int],
                        #[trigger] rows@[j as int]@[i as int],
                    ),
            decreases H - y,
        {
            let mut row: [P; W] = self.rows[y];
            let mut x: usize = 0;
            while x < W
                invariant
                    x <= W,
                    y < H,
                    self.rows@.len() == H,
                    forall|x: usize, y: usize| x < W && y < H ==> call_requires(cast, ([x, y],)),
                    forall|i: usize|
                        i < x ==> overlaid(
                            cast,
                            [i, y],
                            self.rows@[y as int]@[i as int],
                            #[trigger] row@[i as int],
                        ),
                    forall|i: usize| x <= i < W ==> #[trigger] row@[i as int] == self.rows@[y as int]@[i as int],
                decreases W - x,
            {
                let seen = cast([x, y]);
                match seen {
                    Some(colour) => {
                        let p = P::from_rgb(colour);
                        assert(overlaid(cast, [x, y], self.rows@[y as int]@[x as int], p));
                        row[x] = p;
                    },
                    None => {
                        assert(overlaid(cast, [x, y], self.rows@[y as int]@[x as int], row@[x as int]));
                    },
                }
                x += 1;
            }
            rows.push(row);
            y += 1;
        }
        Image { rows }
    }

    /// An all-white image.
    pub fn white() -> (img: Self)
        ensures
            img.rows().len() == H,
            forall|x: int, y: int|
                0 <= x < W && 0 <= y < H ==> img.pixel(x, y) == P::of_rgba(white_rgba()),
    {
        Self::fill(P::white())
    }

    /// An all-black image.
    pub fn black() -> (img: Self)
        ensures
            img.rows().len() == H,
            forall|x: int, y: int|
                0 <= x < W && 0 <= y < H ==> img.pixel(x, y) == P::of_rgba(black_rgba()),
    {
        Self::fill(P::black())
    }

    /// The rows from the top, each a fixed array of `W` pixels.
    pub fn iter(&self) -> (rows: std::slice::Iter<'_, [P; W]>)
        ensures
            vstd::std_specs::slice::into_iter_elts(rows) == self.rows(),
            self.rows().len() == H,
    {
        proof {
            use_type_invariant(self);
        }
        self.rows.iter()
    }

    /// The rows from the top, each open to change.
    ///
    /// Calls `<[T]>::iter_mut` of std on the rows. Nothing is claimed of the
    /// iterator, nor of the pixels once it was used; the number of rows and
    /// their width cannot change through it.
    #[verifier::external_body]
    pub fn iter_mut(&mut self) -> (rows: std::slice::IterMut<'_, [P; W]>) {
        self.rows.iter_mut()
    }

    /// The image as a text bitmap.
    pub fn to_pbm_p1(&self) -> (bytes: Vec<u8>)
        ensures
            bytes@ == pbm_p1(W as nat, H as nat, self.bits()),
    {
        proof {
            use_type_invariant(self);
        }
        let mut buf: Vec<u8> = Vec::new();
        buf.push(0x50);
        buf.push(0x31);
        buf.push(0x0a);
        push_dimensions(&mut buf, W, H);
        let ghost head = buf@;
        let ghost bits = self.bits();
        proof {
            lemma_next_row(W as int, 0);
        }
        assert(head =~= seq![0x50u8, 0x31, 0x0a] + dimensions(W as nat, H as nat));
        let mut y: usize = 0;
        while y < H
            invariant
                y <= H,
                self.rows@.len() == H,
                bits == self.bits(),
                buf@.len() == head.len() + cell(W as int, 0, y as int),
                buf@.take(head.len() as int) == head,
                cell(W as int, 0, y as int) <= bits.len(),
                forall|k: int|
                    0 <= k < cell(W as int, 0, y as int) ==> #[trigger] buf@[head.len() + k]
                        == bit_char(bits[k]),
            decreases H - y,
        {
            let mut x: usize = 0;
            while x < W
                invariant
                    x <= W,
                    y < H,
                    self.rows@.len() == H,
                    bits == self.bits(),
                    buf@.len() == head.len() + cell(W as int, x as int, y as int),
                    buf@.take(head.len() as int) == head,
                    cell(W as int, x as int, y as int) <= bits.len(),
                    forall|k: int|
                        0 <= k < cell(W as int, x as int, y as int) ==> #[trigger] buf@[head.len()
                            + k] == bit_char(bits[k]),
                decreases W - x,
            {
                proof {
                    lemma_cell(W as int, H as int, x as int, y as int);
                }
                let ghost before = buf@;
                let bit = self.rows[y][x].to_bit();
                buf.push(if bit { 0x31 } else { 0x30 });
                assert(buf@.take(head.len() as int) =~= before.take(head.len() as int));
                x += 1;
            }
            proof {
                lemma_next_row(W as int, y as int);
            }
            y += 1;
        }
        buf.push(0x0a);
        proof {
            lemma_next_row(W as int, H as int);
            let want = pbm_p1(W as nat, H as nat, bits);
            assert(buf@.len() == want.len());
            assert forall|k: int| 0 <= k < want.len() implies buf@[k] == want[k] by {
                if k < head.len() {
                    assert(buf@[k] == buf@.take(head.len() as int)[k]);
                } else if k < head.len() + W * H {
                    assert(buf@[head.len() + (k - head.len())] == bit_char(bits[k - head.len()]));
                }
            }
            assert(buf@ =~= want);
        }
        buf
    }

    /// The image as a binary pixmap.
    pub fn to_ppm_p6(&self) -> (bytes: Vec<u8>)
        ensures
            bytes@ == ppm_p6(W as nat, H as nat, self.rgbs()),
    {
        proof {
            use_type_invariant(self);
        }
        let mut buf: Vec<u8> = Vec::new();
        buf.push(0x50);
        buf.push(0x36);
        buf.push(0x0a);
        push_dimensions(&mut buf, W, H);
        buf.push(0x32);
        buf.push(0x35);
        buf.push(0x35);
        buf.push(0x0a);
        let ghost head = buf@;
        let ghost rgbs = self.rgbs();
        assert(head =~= seq![0x50u8, 0x36, 0x0a] + dimensions(W as nat, H as nat) + seq![
            0x32u8,
            0x35,
            0x35,
            0x0a,
        ]);
        proof {
            lemma_next_row(W as int, 0);
            assert(head =~= head + rgb_bytes(rgbs.take(0)));
        }
        let mut y: usize = 0;
        while y < H
            invariant
                y <= H,
                self.rows@.len() == H,
                rgbs == self.rgbs(),
                buf@ == head + rgb_bytes(rgbs.take(cell(W as int, 0, y as int))),
            decreases H - y,
        {
            let mut x: usize = 0;
            while x < W
                invariant
                    x <= W,
                    y < H,
                    self.rows@.len() == H,
                    rgbs == self.rgbs(),
                    buf@ == head + rgb_bytes(rgbs.take(cell(W as int, x as int, y as int))),
                decreases W - x,
            {
                proof {
                    lemma_cell(W as int, H as int, x as int, y as int);
                }
                let Rgb { r, g, b } = self.rows[y][x].to_rgb();
                buf.push(r);
                buf.push(g);
                buf.push(b);
                proof {
                    let i = cell(W as int, x as int, y as int);
                    assert(rgbs[i] == (Rgb { r, g, b }));
                    assert(buf@ =~= head + rgb_bytes(rgbs.take(i + 1)));
                }
                x += 1;
            }
            proof {
                lemma_next_row(W as int, y as int);
            }
            y += 1;
        }
        proof {
            lemma_next_row(W as int, H as int);
            assert(rgbs.take(W * H) =~= rgbs);
        }
        buf
    }

    /// The image as a compact lossless stream, from which a reader gets the
    /// colours back.
    pub fn to_qoi(&self) -> (bytes: Vec<u8>)
        ensures
            bytes@ == stream(W as nat, H as nat, self.colours()),
            decode_stream(bytes@, self.colours().len()) == self.colours(),
    {
        proof {
            use_type_invariant(self);
        }
        let mut buf: Vec<u8> = Vec::new();
        push_header(&mut buf, W, H);
        let mut coder = Encoder::new();
        let ghost head = header(W as nat, H as nat);
        let ghost all = self.colours();
        proof {
            lemma_next_row(W as int, 0);
        }
        assert(all.take(0) =~= Seq::<Rgba>::empty());
        assert(buf@ =~= head + ops_after(all.take(0)));
        let mut y: usize = 0;
        while y < H
            invariant
                y <= H,
                self.rows@.len() == H,
                all == self.colours(),
                coder@ == state_after(all.take(cell(W as int, 0, y as int))),
                buf@ == head + ops_after(all.take(cell(W as int, 0, y as int))),
            decreases H - y,
        {
            let mut x: usize = 0;
            while x < W
                invariant
                    x <= W,
                    y < H,
                    self.rows@.len() == H,
                    all == self.colours(),
                        coder@ == state_after(all.take(cell(W as int, x as int, y as int))),
                    buf@ == head + ops_after(all.take(cell(W as int, x as int, y as int))),
                decreases W - x,
            {
                proof {
                    lemma_cell(W as int, H as int, x as int, y as int);
                }
                let px = self.rows[y][x].to_rgba();
                coder.push(px, &mut buf);
                proof {
                    let i = cell(W as int, x as int, y as int);
                    assert(all[i] == px);
                    assert(all.take(i + 1).drop_last() =~= all.take(i));
                    assert(all.take(i + 1).last() == px);
                    assert(buf@ =~= head + ops_after(all.take(i + 1)));
                }
                x += 1;
            }
            proof {
                lemma_next_row(W as int, y as int);
            }
            y += 1;
        }
        proof {
            lemma_next_row(W as int, H as int);
            assert(all.take(W * H) =~= all);
        }
        coder.finish(&mut buf);
        proof {
            assert(buf@ =~= stream(W as nat, H as nat, all));
            lemma_stream_decodes(W as nat, H as nat, all);
        }
        buf
    }
}

} // verus!
