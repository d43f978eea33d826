use raytracer::{Image, Pixel, Rgb, Rgba};

#[test]
fn pbm_of_two_by_two() {
    let mut img: Image<bool, 2, 2> = Image::white();
    img[[1, 0]] = true;
    assert_eq!(img.to_pbm_p1(), b"P1\n2 2\n0100\n".to_vec());
}

#[test]
fn pbm_marks_only_the_darkest_colours_as_ink() {
    let mut img: Image<Rgb, 4, 1> = Image::white();
    img[[0, 0]] = Rgb { r: 0, g: 0, b: 0 };
    img[[1, 0]] = Rgb { r: 0, g: 0, b: 4 };
    img[[2, 0]] = Rgb { r: 0, g: 0, b: 5 };
    img[[3, 0]] = Rgb { r: 1, g: 0, b: 2 };
    assert_eq!(img.to_pbm_p1(), b"P1\n4 1\n1100\n".to_vec());
}

#[test]
fn pbm_writes_dimensions_in_decimal() {
    let img: Image<bool, 120, 7> = Image::black();
    let bytes = img.to_pbm_p1();
    assert_eq!(&bytes[..9], b"P1\n120 7\n");
    assert_eq!(bytes.len(), 9 + 120 * 7 + 1);
    assert!(bytes[9..9 + 840].iter().all(|&c| c == b'1'));
    assert_eq!(bytes[bytes.len() - 1], b'\n');
}

#[test]
fn pbm_of_an_empty_image() {
    let img: Image<bool, 0, 0> = Image::white();
    assert_eq!(img.to_pbm_p1(), b"P1\n0 0\n\n".to_vec());
}

#[test]
fn ppm_of_two_by_one() {
    let mut img: Image<Rgb, 2, 1> = Image::black();
    img[[1, 0]] = Rgb::red();
    assert_eq!(
        img.to_ppm_p6(),
        b"P6\n2 1\n255\n\x00\x00\x00\xff\x00\x00".to_vec()
    );
}

#[test]
fn ppm_goes_row_by_row() {
    let img: Image<Rgb, 2, 2> = Image::fill_with(|c: [usize; 2]| Rgb {
        r: c[0] as u8,
        g: c[1] as u8,
        b: 9,
    });
    assert_eq!(
        img.to_ppm_p6(),
        b"P6\n2 2\n255\n\x00\x00\x09\x01\x00\x09\x00\x01\x09\x01\x01\x09".to_vec()
    );
}

#[test]
fn ppm_drops_opacity_and_spreads_grey() {
    let img: Image<Rgba, 1, 1> = Image::fill(Rgba { r: 1, g: 2, b: 3, a: 4 });
    assert_eq!(img.to_ppm_p6(), b"P6\n1 1\n255\n\x01\x02\x03".to_vec());
    let grey: Image<u8, 1, 2> = Image::fill(0x41);
    assert_eq!(grey.to_ppm_p6(), b"P6\n1 2\n255\nAAAAAA".to_vec());
}

#[test]
fn ppm_of_a_wide_image_has_a_long_header() {
    let img: Image<u8, 1000, 1> = Image::white();
    let bytes = img.to_ppm_p6();
    assert_eq!(&bytes[..14], b"P6\n1000 1\n255\n");
    assert_eq!(bytes.len(), 14 + 3000);
}
