//! Colour types and the conversions between them.
//!
//! Every pixel type stands for one [`Rgba`] colour; all conversions go through
//! that colour, so they agree with each other whichever path is taken.
use vstd::prelude::*;

verus! {

/// Red, green, blue and opacity, eight bits each.
#[derive(Clone, Copy, Debug, PartialEq, Eq, Structural)]
pub struct Rgba {
    pub r: u8,
    pub g: u8,
    pub b: u8,
    pub a: u8,
}

/// Red, green and blue, eight bits each; always fully opaque.
#[derive(Clone, Copy, Debug, PartialEq, Eq, Structural)]
pub struct Rgb {
    pub r: u8,
    pub g: u8,
    pub b: u8,
}

/// Perceived brightness of a colour: the weighted mean
/// `0.299 r + 0.587 g + 0.114 b`, rounded to the nearest integer (halves up).
pub open spec fn luma(r: u8, g: u8, b: u8) -> u8 {
    ((299 * r + 587 * g + 114 * b + 500) / 1000) as u8
}

/// The colour without its opacity.
pub open spec fn rgb_of(c: Rgba) -> Rgb {
    Rgb { r: c.r, g: c.g, b: c.b }
}

/// The fully opaque colour with the given channels.
pub open spec fn opaque(c: Rgb) -> Rgba {
    Rgba { r: c.r, g: c.g, b: c.b, a: 0xff }
}

/// The opaque grey of the given brightness.
pub open spec fn grey_rgba(v: u8) -> Rgba {
    Rgba { r: v, g: v, b: v, a: 0xff }
}

/// The brightness that a bit stands for: a set bit is ink (black).
pub open spec fn bit_grey(bit: bool) -> u8 {
    if bit { 0 } else { 0xff }
}

/// Brightness of a colour, ignoring opacity.
pub open spec fn grey_of(c: Rgba) -> u8 {
    luma(c.r, c.g, c.b)
}

/// Whether a colour prints as ink in a bitmap: only when its brightness is 0.
pub open spec fn bit_of(c: Rgba) -> bool {
    grey_of(c) == 0
}

/// Opaque white.
pub open spec fn white_rgba() -> Rgba {
    Rgba { r: 0xff, g: 0xff, b: 0xff, a: 0xff }
}

/// Opaque black.
pub open spec fn black_rgba() -> Rgba {
    Rgba { r: 0, g: 0, b: 0, a: 0xff }
}

/// A pixel representation. Each value stands for the colour `rgba()`, and
/// `of_rgba` picks the value that represents a colour. An implementation
/// states both; where it does not, nothing is known of them.
pub trait Pixel: 'static + Copy + Eq + std::fmt::Debug {
    /// The colour that this pixel stands for.
    open spec fn rgba(self) -> Rgba {
        arbitrary()
    }

    /// The pixel that represents a colour.
    open spec fn of_rgba(c: Rgba) -> Self {
        arbitrary()
    }

    fn white() -> (px: Self)
        ensures
            px == Self::of_rgba(white_rgba()),
    ;

    fn black() -> (px: Self)
        ensures
            px == Self::of_rgba(black_rgba()),
    ;

    fn from_rgba(rgba: Rgba) -> (px: Self)
        ensures
            px == Self::of_rgba(rgba),
    ;

    fn to_rgba(self) -> (c: Rgba)
        ensures
            c == self.rgba(),
    ;

    fn from_rgb(rgb: Rgb) -> (px: Self)
        ensures
            px == Self::of_rgba(opaque(rgb)),
    {
        Self::from_rgba(with_full_alpha(rgb))
    }

    fn from_grey(grey: u8) -> (px: Self)
        ensures
            px == Self::of_rgba(grey_rgba(grey)),
    {
        Self::from_rgba(grey_colour(grey))
    }

    fn from_bit(bit: bool) -> (px: Self)
        ensures
            px == Self::of_rgba(grey_rgba(bit_grey(bit))),
    {
        Self::from_rgba(grey_colour(bit_brightness(bit)))
    }

    fn to_rgb(self) -> (c: Rgb)
        ensures
            c == rgb_of(self.rgba()),
    {
        strip_alpha(self.to_rgba())
    }

    fn to_grey(self) -> (v: u8)
        ensures
            v == grey_of(self.rgba()),
    {
        luma_of(self.to_rgba())
    }

    fn to_bit(self) -> (bit: bool)
        ensures
            bit == bit_of(self.rgba()),
    {
        ink_of(self.to_rgba())
    }

    fn r(self) -> (v: u8)
        ensures
            v == self.rgba().r,
    {
        self.to_rgba().r
    }

    fn g(self) -> (v: u8)
        ensures
            v == self.rgba().g,
    {
        self.to_rgba().g
    }

    fn b(self) -> (v: u8)
        ensures
            v == self.rgba().b,
    {
        self.to_rgba().b
    }

    fn a(self) -> (v: u8)
        ensures
            v == self.rgba().a,
    {
        self.to_rgba().a
    }
}

/// In each of the four pixel types, every pixel is the one that represents
/// its own colour: two pixels of one colour are the same pixel.
pub proof fn lemma_pixels_are_faithful()
    ensures
        forall|p: Rgba| <Rgba as Pixel>::of_rgba(#[trigger] p.rgba()) == p,
        forall|p: Rgb| <Rgb as Pixel>::of_rgba(#[trigger] p.rgba()) == p,
        forall|p: u8| <u8 as Pixel>::of_rgba(#[trigger] p.rgba()) == p,
        forall|p: bool| <bool as Pixel>::of_rgba(#[trigger] p.rgba()) == p,
{
}

fn luma_of(c: Rgba) -> (v: u8)
    ensures
        v == grey_of(c),
{
    let sum: u32 = 299 * (c.r as u32) + 587 * (c.g as u32) + 114 * (c.b as u32) + 500;
    (sum / 1000) as u8
}

fn ink_of(c: Rgba) -> (bit: bool)
    ensures
        bit == bit_of(c),
{
    luma_of(c) == 0
}

fn strip_alpha(c: Rgba) -> (rgb: Rgb)
    ensures
        rgb == rgb_of(c),
{
    let Rgba { r, g, b, a: _ } = c;
    Rgb { r, g, b }
}

fn with_full_alpha(c: Rgb) -> (rgba: Rgba)
    ensures
        rgba == opaque(c),
{
    let Rgb { r, g, b } = c;
    Rgba { r, g, b, a: 0xff }
}

fn grey_colour(v: u8) -> (rgba: Rgba)
    ensures
        rgba == grey_rgba(v),
{
    Rgba { r: v, g: v, b: v, a: 0xff }
}

fn bit_brightness(bit: bool) -> (v: u8)
    ensures
        v == bit_grey(bit),
{
    if bit { 0 } else { 0xff }
}

impl Rgba {
    /// Black without any opacity.
    pub fn transparent() -> (c: Self)
        ensures
            c == (Rgba { r: 0, g: 0, b: 0, a: 0 }),
    {
        Self { r: 0, g: 0, b: 0, a: 0 }
    }
}

impl Rgb {
    /// Pure red.
    pub fn red() -> (c: Self)
        ensures
            c == (Rgb { r: 0xff, g: 0, b: 0 }),
    {
        Self { r: 0xff, g: 0, b: 0 }
    }

    /// Pure green.
    pub fn green() -> (c: Self)
        ensures
            c == (Rgb { r: 0, g: 0xff, b: 0 }),
    {
        Self { r: 0, g: 0xff, b: 0 }
    }

    /// Pure blue.
    pub fn blue() -> (c: Self)
        ensures
            c == (Rgb { r: 0, g: 0, b: 0xff }),
    {
        Self { r: 0, g: 0, b: 0xff }
    }
}

impl Pixel for Rgba {
    open spec fn rgba(self) -> Rgba {
        self
    }

    open spec fn of_rgba(c: Rgba) -> Self {
        c
    }

    fn white() -> Self {
        Self { r: 0xff, g: 0xff, b: 0xff, a: 0xff }
    }

    fn black() -> Self {
        Self { r: 0, g: 0, b: 0, a: 0xff }
    }

    fn from_rgba(rgba: Rgba) -> Self {
        rgba
    }

    fn from_rgb(rgb: Rgb) -> Self {
        with_full_alpha(rgb)
    }

    fn from_grey(grey: u8) -> Self {
        grey_colour(grey)
    }

    fn from_bit(bit: bool) -> Self {
        grey_colour(bit_brightness(bit))
    }

    fn to_rgba(self) -> Rgba {
        self
    }

    fn to_rgb(self) -> Rgb {
        strip_alpha(self)
    }

    fn to_grey(self) -> u8 {
        luma_of(self)
    }

    fn to_bit(self) -> bool {
        ink_of(self)
    }
}

impl Pixel for Rgb {
    open spec fn rgba(self) -> Rgba {
        opaque(self)
    }

    open spec fn of_rgba(c: Rgba) -> Self {
        rgb_of(c)
    }

    fn white() -> Self {
        Self { r: 0xff, g: 0xff, b: 0xff }
    }

    fn black() -> Self {
        Self { r: 0, g: 0, b: 0 }
    }

    fn from_rgba(rgba: Rgba) -> Self {
        strip_alpha(rgba)
    }

    fn from_rgb(rgb: Rgb) -> Self {
        rgb
    }

    fn from_grey(grey: u8) -> Self {
        strip_alpha(grey_colour(grey))
    }

    fn from_bit(bit: bool) -> Self {
        strip_alpha(grey_colour(bit_brightness(bit)))
    }

    fn to_rgba(self) -> Rgba {
        with_full_alpha(self)
    }

    fn to_rgb(self) -> Rgb {
        self
    }

    fn to_grey(self) -> u8 {
        luma_of(with_full_alpha(self))
    }

    fn to_bit(self) -> bool {
        ink_of(with_full_alpha(self))
    }
}

impl Pixel for u8 {
    open spec fn rgba(self) -> Rgba {
        grey_rgba(self)
    }

    open spec fn of_rgba(c: Rgba) -> Self {
        grey_of(c)
    }

    fn white() -> Self {
        0xff
    }

    fn black() -> Self {
        0
    }

    fn from_rgba(rgba: Rgba) -> Self {
        luma_of(rgba)
    }

    fn from_rgb(rgb: Rgb) -> Self {
        luma_of(with_full_alpha(rgb))
    }

    fn from_grey(grey: u8) -> Self {
        grey
    }

    fn from_bit(bit: bool) -> Self {
        bit_brightness(bit)
    }

    fn to_rgba(self) -> Rgba {
        grey_colour(self)
    }

    fn to_rgb(self) -> Rgb {
        Rgb { r: self, g: self, b: self }
    }

    fn to_grey(self) -> u8 {
        self
    }

    fn to_bit(self) -> bool {
        self == 0
    }
}

impl Pixel for bool {
    open spec fn rgba(self) -> Rgba {
        grey_rgba(bit_grey(self))
    }

    open spec fn of_rgba(c: Rgba) -> Self {
        bit_of(c)
    }

    fn white() -> Self {
        false
    }

    fn black() -> Self {
        true
    }

    fn from_rgba(rgba: Rgba) -> Self {
        ink_of(rgba)
    }

    fn from_rgb(rgb: Rgb) -> Self {
        ink_of(with_full_alpha(rgb))
    }

    fn from_grey(grey: u8) -> Self {
        grey == 0
    }

    fn from_bit(bit: bool) -> Self {
        bit
    }

    fn to_rgba(self) -> Rgba {
        grey_colour(bit_brightness(self))
    }

    fn to_rgb(self) -> Rgb {
        strip_alpha(grey_colour(bit_brightness(self)))
    }

    fn to_grey(self) -> u8 {
        if self { 0 } else { 0xff }
    }

    fn to_bit(self) -> bool {
        self
    }
}

/// Sum of two channels, held at 255.
pub open spec fn channel_add(a: u8, b: u8) -> u8 {
    if a + b > 255 {
        255
    } else {
        (a + b) as u8
    }
}

/// Difference of two channels, held at 0.
pub open spec fn channel_sub(a: u8, b: u8) -> u8 {
    if a < b {
        0
    } else {
        (a - b) as u8
    }
}

/// Product of two channels as fractions of 255, rounded down.
pub open spec fn channel_mul(a: u8, b: u8) -> u8 {
    (a * b / 255) as u8
}

fn scale_channel(a: u8, b: u8) -> (c: u8)
    ensures
        c == channel_mul(a, b),
{
    assert(a * b <= 255 * 255) by (nonlinear_arith)
        requires
            a <= 255,
            b <= 255,
    ;
    ((a as u16) * (b as u16) / 0xff) as u8
}

impl Rgba {
    /// Channel by channel, each sum held at 255.
    pub open spec fn plus(self, rhs: Self) -> Self {
        Rgba {
            r: channel_add(self.r, rhs.r),
            g: channel_add(self.g, rhs.g),
            b: channel_add(self.b, rhs.b),
            a: channel_add(self.a, rhs.a),
        }
    }

    /// Channel by channel, each difference held at 0.
    pub open spec fn minus(self, rhs: Self) -> Self {
        Rgba {
            r: channel_sub(self.r, rhs.r),
            g: channel_sub(self.g, rhs.g),
            b: channel_sub(self.b, rhs.b),
            a: channel_sub(self.a, rhs.a),
        }
    }

    /// Channel by channel, each product scaled back by 255.
    pub open spec fn times(self, rhs: Self) -> Self {
        Rgba {
            r: channel_mul(self.r, rhs.r),
            g: channel_mul(self.g, rhs.g),
            b: channel_mul(self.b, rhs.b),
            a: channel_mul(self.a, rhs.a),
        }
    }
}

impl Rgb {
    /// Channel by channel, each sum held at 255.
    pub open spec fn plus(self, rhs: Self) -> Self {
        Rgb {
            r: channel_add(self.r, rhs.r),
            g: channel_add(self.g, rhs.g),
            b: channel_add(self.b, rhs.b),
        }
    }

    /// Channel by channel, each difference held at 0.
    pub open spec fn minus(self, rhs: Self) -> Self {
        Rgb {
            r: channel_sub(self.r, rhs.r),
            g: channel_sub(self.g, rhs.g),
            b: channel_sub(self.b, rhs.b),
        }
    }

    /// Channel by channel, each product scaled back by 255.
    pub open spec fn times(self, rhs: Self) -> Self {
        Rgb {
            r: channel_mul(self.r, rhs.r),
            g: channel_mul(self.g, rhs.g),
            b: channel_mul(self.b, rhs.b),
        }
    }
}

impl core::ops::Add for Rgba {
    type Output = Self;

    /// Channel by channel, each sum held at 255.
    fn add(self, rhs: Self) -> (sum: Self) {
        Self {
            r: self.r.saturating_add(rhs.r),
            g: self.g.saturating_add(rhs.g),
            b: self.b.saturating_add(rhs.b),
            a: self.a.saturating_add(rhs.a),
        }
    }
}

impl vstd::std_specs::ops::AddSpecImpl for Rgba {
    open spec fn obeys_add_spec() -> bool {
        true
    }

    open spec fn add_req(self, rhs: Self) -> bool {
        true
    }

    open spec fn add_spec(self, rhs: Self) -> Self {
        self.plus(rhs)
    }
}

impl core::ops::AddAssign for Rgba {
    fn add_assign(&mut self, rhs: Self)
        ensures
            *final(self) == old(self).plus(rhs),
    {
        *self = *self + rhs;
    }
}

impl core::ops::Sub for Rgba {
    type Output = Self;

    /// Channel by channel, each difference held at 0.
    fn sub(self, rhs: Self) -> (diff: Self) {
        Self {
            r: self.r.saturating_sub(rhs.r),
            g: self.g.saturating_sub(rhs.g),
            b: self.b.saturating_sub(rhs.b),
            a: self.a.saturating_sub(rhs.a),
        }
    }
}

impl vstd::std_specs::ops::SubSpecImpl for Rgba {
    open spec fn obeys_sub_spec() -> bool {
        true
    }

    open spec fn sub_req(self, rhs: Self) -> bool {
        true
    }

    open spec fn sub_spec(self, rhs: Self) -> Self {
        self.minus(rhs)
    }
}

impl core::ops::SubAssign for Rgba {
    fn sub_assign(&mut self, rhs: Self)
        ensures
            *final(self) == old(self).minus(rhs),
    {
        *self = *self - rhs;
    }
}

impl core::ops::Mul for Rgba {
    type Output = Self;

    /// Channel by channel, each product scaled back by 255.
    fn mul(self, rhs: Self) -> (product: Self) {
        Self {
            r: scale_channel(self.r, rhs.r),
            g: scale_channel(self.g, rhs.g),
            b: scale_channel(self.b, rhs.b),
            a: scale_channel(self.a, rhs.a),
        }
    }
}

impl vstd::std_specs::ops::MulSpecImpl for Rgba {
    open spec fn obeys_mul_spec() -> bool {
        true
    }

    open spec fn mul_req(self, rhs: Self) -> bool {
        true
    }

    open spec fn mul_spec(self, rhs: Self) -> Self {
        self.times(rhs)
    }
}

impl core::ops::MulAssign for Rgba {
    fn mul_assign(&mut self, rhs: Self)
        ensures
            *final(self) == old(self).times(rhs),
    {
        *self = *self * rhs;
    }
}

impl core::ops::Add for Rgb {
    type Output = Self;

    /// Channel by channel, each sum held at 255.
    fn add(self, rhs: Self) -> (sum: Self) {
        Self {
            r: self.r.saturating_add(rhs.r),
            g: self.g.saturating_add(rhs.g),
            b: self.b.saturating_add(rhs.b),
        }
    }
}

impl vstd::std_specs::ops::AddSpecImpl for Rgb {
    open spec fn obeys_add_spec() -> bool {
        true
    }

    open spec fn add_req(self, rhs: Self) -> bool {
        true
    }

    open spec fn add_spec(self, rhs: Self) -> Self {
        self.plus(rhs)
    }
}

impl core::ops::AddAssign for Rgb {
    fn add_assign(&mut self, rhs: Self)
        ensures
            *final(self) == old(self).plus(rhs),
    {
        *self = *self + rhs;
    }
}

impl core::ops::Sub for Rgb {
    type Output = Self;

    /// Channel by channel, each difference held at 0.
    fn sub(self, rhs: Self) -> (diff: Self) {
        Self {
            r: self.r.saturating_sub(rhs.r),
            g: self.g.saturating_sub(rhs.g),
            b: self.b.saturating_sub(rhs.b),
        }
    }
}

impl vstd::std_specs::ops::SubSpecImpl for Rgb {
    open spec fn obeys_sub_spec() -> bool {
        true
    }

    open spec fn sub_req(self, rhs: Self) -> bool {
        true
    }

    open spec fn sub_spec(self, rhs: Self) -> Self {
        self.minus(rhs)
    }
}

impl core::ops::SubAssign for Rgb {
    fn sub_assign(&mut self, rhs: Self)
        ensures
            *final(self) == old(self).minus(rhs),
    {
        *self = *self - rhs;
    }
}

impl core::ops::Mul for Rgb {
    type Output = Self;

    /// Channel by channel, each product scaled back by 255.
    fn mul(self, rhs: Self) -> (product: Self) {
        Self {
            r: scale_channel(self.r, rhs.r),
            g: scale_channel(self.g, rhs.g),
            b: scale_channel(self.b, rhs.b),
        }
    }
}

impl vstd::std_specs::ops::MulSpecImpl for Rgb {
    open spec fn obeys_mul_spec() -> bool {
        true
    }

    open spec fn mul_req(self, rhs: Self) -> bool {
        true
    }

    open spec fn mul_spec(self, rhs: Self) -> Self {
        self.times(rhs)
    }
}

impl core::ops::MulAssign for Rgb {
    fn mul_assign(&mut self, rhs: Self)
        ensures
            *final(self) == old(self).times(rhs),
    {
        *self = *self * rhs;
    }
}

} // verus!
