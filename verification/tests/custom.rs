use raytracer::{Image, Pixel, Rgb, Rgba};

/// A pixel type from outside the library: a shade of red.
#[derive(Clone, Copy, Debug, PartialEq, Eq)]
struct Red(u8);

impl Pixel for Red {
    fn white() -> Self {
        Red(255)
    }
    fn black() -> Self {
        Red(0)
    }
    fn from_rgba(rgba: Rgba) -> Self {
        Red(rgba.r)
    }
    fn to_rgba(self) -> Rgba {
        Rgba { r: self.0, g: 0, b: 0, a: 255 }
    }
}

#[test]
fn conversions_that_a_pixel_type_leaves_out_go_through_its_colour() {
    let p = Red(200);
    assert_eq!(p.to_rgb(), Rgb { r: 200, g: 0, b: 0 });
    assert_eq!(p.to_grey(), 60);
    assert_eq!(p.to_bit(), false);
    assert_eq!(Red(1).to_bit(), true);
    assert_eq!((p.r(), p.g(), p.b(), p.a()), (200, 0, 0, 255));
    assert_eq!(Red::from_rgb(Rgb { r: 7, g: 8, b: 9 }), Red(7));
    assert_eq!(Red::from_grey(33), Red(33));
    assert_eq!(Red::from_bit(true), Red(0));
    assert_eq!(Red::from_bit(false), Red(255));
}

#[test]
fn images_of_a_pixel_type_from_outside() {
    let img: Image<Red, 3, 1> = Image::fill_with(|c: [usize; 2]| Red(c[0] as u8));
    assert_eq!(img.to_ppm_p6(), b"P6\n3 1\n255\n\x00\x00\x00\x01\x00\x00\x02\x00\x00".to_vec());
    assert_eq!(img.to_pbm_p1(), b"P1\n3 1\n110\n".to_vec());
    let bytes = img.to_qoi();
    assert_eq!(&bytes[14..bytes.len() - 8], &[0xc0, 0x7a, 0x7a]);
}
