use raytracer::{Image, Pixel, Rgb, Rgba};

const END: [u8; 8] = [0, 0, 0, 0, 0, 0, 0, 1];

fn slot(c: Rgba) -> usize {
    (c.r as usize * 3 + c.g as usize * 5 + c.b as usize * 7 + c.a as usize * 11) % 64
}

/// An independent reader of the stream: header, then `width * height` pixels.
fn read_back(bytes: &[u8]) -> (u32, u32, Vec<Rgba>) {
    assert_eq!(&bytes[..4], b"qoif");
    let width = u32::from_be_bytes([bytes[4], bytes[5], bytes[6], bytes[7]]);
    let height = u32::from_be_bytes([bytes[8], bytes[9], bytes[10], bytes[11]]);
    assert_eq!(bytes[12], 4);
    assert_eq!(bytes[13], 1);
    let total = width as usize * height as usize;
    let mut table = [Rgba { r: 0, g: 0, b: 0, a: 0 }; 64];
    let mut px = Rgba { r: 0, g: 0, b: 0, a: 255 };
    let mut out = Vec::new();
    let mut at = 14;
    while out.len() < total {
        let b = bytes[at];
        at += 1;
        let mut count = 1;
        if b == 0xff {
            px = Rgba { r: bytes[at], g: bytes[at + 1], b: bytes[at + 2], a: bytes[at + 3] };
            at += 4;
        } else if b == 0xfe {
            px = Rgba { r: bytes[at], g: bytes[at + 1], b: bytes[at + 2], a: px.a };
            at += 3;
        } else if b >> 6 == 0 {
            px = table[b as usize];
        } else if b >> 6 == 1 {
            px.r = px.r.wrapping_add((b >> 4) & 3).wrapping_sub(2);
            px.g = px.g.wrapping_add((b >> 2) & 3).wrapping_sub(2);
            px.b = px.b.wrapping_add(b & 3).wrapping_sub(2);
        } else if b >> 6 == 2 {
            let low = bytes[at];
            at += 1;
            let vg = (b & 0x3f).wrapping_sub(32);
            px.r = px.r.wrapping_add(vg).wrapping_add(low >> 4).wrapping_sub(8);
            px.g = px.g.wrapping_add(vg);
            px.b = px.b.wrapping_add(vg).wrapping_add(low & 15).wrapping_sub(8);
        } else {
            count = (b & 0x3f) as usize + 1;
        }
        table[slot(px)] = px;
        for _ in 0..count {
            out.push(px);
        }
    }
    assert_eq!(out.len(), total);
    assert_eq!(&bytes[at..], &END);
    (width, height, out)
}

fn colours<P: Pixel, const W: usize, const H: usize>(img: &Image<P, W, H>) -> Vec<Rgba> {
    let mut out = Vec::new();
    for row in img.iter() {
        for px in row.iter() {
            out.push(px.to_rgba());
        }
    }
    out
}

fn varied(i: usize) -> Rgba {
    Rgba {
        r: ((i * 97 + 5) % 256) as u8,
        g: ((i * 57 + 13) % 256) as u8,
        b: ((i * 151 + 7) % 256) as u8,
        a: if i % 3 == 0 { 200 } else { 255 },
    }
}

#[test]
fn qoi_header_of_64_by_48() {
    let img: Image<Rgba, 64, 48> = Image::fill(Rgba::transparent());
    let bytes = img.to_qoi();
    assert_eq!(
        &bytes[..14],
        &[0x71, 0x6f, 0x69, 0x66, 0, 0, 0, 0x40, 0, 0, 0, 0x30, 4, 1]
    );
}

#[test]
fn qoi_header_of_a_size_over_one_byte() {
    let img: Image<bool, 300, 2> = Image::black();
    let bytes = img.to_qoi();
    assert_eq!(&bytes[4..12], &[0, 0, 0x01, 0x2c, 0, 0, 0, 2]);
}

#[test]
fn qoi_of_an_empty_image_is_header_and_end() {
    let img: Image<Rgba, 0, 5> = Image::black();
    let bytes = img.to_qoi();
    assert_eq!(
        bytes,
        vec![0x71, 0x6f, 0x69, 0x66, 0, 0, 0, 0, 0, 0, 0, 5, 4, 1, 0, 0, 0, 0, 0, 0, 0, 1]
    );
}

#[test]
fn qoi_of_one_colour_is_a_literal_and_runs() {
    let px = Rgba { r: 10, g: 20, b: 30, a: 255 };
    let img: Image<Rgba, 64, 48> = Image::fill(px);
    let bytes = img.to_qoi();
    assert_eq!(bytes.len(), 14 + 4 + 49 + 1 + 8);
    assert_eq!(&bytes[14..18], &[0xfe, 10, 20, 30]);
    assert!(bytes[18..18 + 49].iter().all(|&b| b == 0xfd));
    assert_eq!(bytes[67], 0xe0);
    assert_eq!(&bytes[68..], &END);
    let (w, h, back) = read_back(&bytes);
    assert_eq!((w, h), (64, 48));
    assert_eq!(back, vec![px; 64 * 48]);
}

#[test]
fn qoi_of_opening_black_is_runs_only() {
    let img: Image<Rgb, 64, 48> = Image::black();
    let bytes = img.to_qoi();
    assert_eq!(bytes.len(), 14 + 50 + 8);
    assert!(bytes[14..14 + 49].iter().all(|&b| b == 0xfd));
    assert_eq!(bytes[63], 0xe1);
    let (_, _, back) = read_back(&bytes);
    assert_eq!(back, colours(&img));
}

#[test]
fn qoi_of_distinct_pixels_is_all_literals() {
    let img: Image<Rgba, 8, 8> = Image::fill_with(|c: [usize; 2]| varied(c[1] * 8 + c[0]));
    let bytes = img.to_qoi();
    assert_eq!(bytes.len(), 14 + 43 * 5 + 21 * 4 + 8);
    let mut at = 14;
    let mut literals = 0;
    while at < bytes.len() - 8 {
        assert!(bytes[at] == 0xfe || bytes[at] == 0xff);
        at += if bytes[at] == 0xff { 5 } else { 4 };
        literals += 1;
    }
    assert_eq!(literals, 64);
    let (_, _, back) = read_back(&bytes);
    assert_eq!(back, colours(&img));
    assert_eq!(back[9], varied(9));
}

#[test]
fn qoi_of_seventy_repeats_is_two_runs() {
    let img: Image<Rgba, 70, 1> = Image::black();
    let bytes = img.to_qoi();
    assert_eq!(&bytes[14..bytes.len() - 8], &[0xfd, 0xc7]);
    let (_, _, back) = read_back(&bytes);
    assert_eq!(back, vec![Rgba::black(); 70]);
}

#[test]
fn qoi_run_lengths_around_the_longest_run() {
    let a: Image<Rgba, 61, 1> = Image::black();
    assert_eq!(&a.to_qoi()[14..15], &[0xfc]);
    assert_eq!(a.to_qoi().len(), 14 + 1 + 8);
    let b: Image<Rgba, 62, 1> = Image::black();
    assert_eq!(&b.to_qoi()[14..15], &[0xfd]);
    assert_eq!(b.to_qoi().len(), 14 + 1 + 8);
    let c: Image<Rgba, 63, 1> = Image::black();
    assert_eq!(&c.to_qoi()[14..16], &[0xfd, 0xc0]);
    assert_eq!(c.to_qoi().len(), 14 + 2 + 8);
}

#[test]
fn qoi_uses_every_kind_of_op() {
    let px = [
        Rgba { r: 0, g: 0, b: 0, a: 255 },
        Rgba { r: 0, g: 0, b: 0, a: 255 },
        Rgba { r: 1, g: 0, b: 255, a: 255 },
        Rgba { r: 1, g: 0, b: 255, a: 255 },
        Rgba { r: 10, g: 20, b: 30, a: 255 },
        Rgba { r: 10, g: 20, b: 30, a: 128 },
        Rgba { r: 1, g: 0, b: 255, a: 255 },
        Rgba { r: 0, g: 0, b: 0, a: 0 },
    ];
    let img: Image<Rgba, 4, 2> = Image::fill_with(|c: [usize; 2]| px[c[1] * 4 + c[0]]);
    let bytes = img.to_qoi();
    assert_eq!(
        &bytes[14..bytes.len() - 8],
        &[0xc1, 0x79, 0xc0, 0xfe, 0x0a, 0x14, 0x1e, 0xff, 0x0a, 0x14, 0x1e, 0x80, 0x31, 0x00]
    );
    assert_eq!(&bytes[bytes.len() - 8..], &END);
    let (w, h, back) = read_back(&bytes);
    assert_eq!((w, h), (4, 2));
    assert_eq!(back, px.to_vec());
}

#[test]
fn qoi_differences_wrap_around() {
    let px = [
        Rgb { r: 255, g: 255, b: 255 },
        Rgb { r: 0, g: 1, b: 254 },
        Rgb { r: 20, g: 30, b: 25 },
        Rgb { r: 255, g: 255, b: 255 },
        Rgb { r: 200, g: 10, b: 10 },
    ];
    let img: Image<Rgb, 5, 1> = Image::fill_with(|c: [usize; 2]| px[c[0]]);
    let bytes = img.to_qoi();
    assert_eq!(
        &bytes[14..bytes.len() - 8],
        &[0x55, 0xa2, 0x75, 0xfe, 0x14, 0x1e, 0x19, 0x26, 0xfe, 0xc8, 0x0a, 0x0a]
    );
    let (_, _, back) = read_back(&bytes);
    assert_eq!(back, colours(&img));
}

#[test]
fn qoi_of_a_bitmap_round_trips() {
    let img: Image<bool, 9, 7> = Image::fill_with(|c: [usize; 2]| (c[0] * c[1]) % 3 == 1);
    let (w, h, back) = read_back(&img.to_qoi());
    assert_eq!((w, h), (9, 7));
    assert_eq!(back, colours(&img));
    assert_eq!(back[0], Rgba::white());
    assert_eq!(back[10], Rgba::black());
}

#[test]
fn qoi_of_gradients_round_trips() {
    let img: Image<Rgba, 40, 30> = Image::fill_with(|c: [usize; 2]| Rgba {
        r: (c[0] * 6) as u8,
        g: (c[1] * 8) as u8,
        b: ((c[0] + c[1]) / 4) as u8,
        a: if c[1] < 20 { 255 } else { 100 },
    });
    let bytes = img.to_qoi();
    let (_, _, back) = read_back(&bytes);
    assert_eq!(back, colours(&img));
    assert!(bytes.len() < 14 + 40 * 30 * 4 + 8);
}

#[test]
fn qoi_is_the_same_for_equal_rasters() {
    let a: Image<Rgba, 8, 8> = Image::fill_with(|c: [usize; 2]| varied(c[0] + c[1]));
    let b = a.clone();
    assert_eq!(a.to_qoi(), b.to_qoi());
    let grey: Image<u8, 3, 3> = Image::fill(7);
    let same: Image<Rgb, 3, 3> = Image::fill(Rgb { r: 7, g: 7, b: 7 });
    assert_eq!(grey.to_qoi(), same.to_qoi());
}
