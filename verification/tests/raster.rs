use raytracer::{Image, Pixel, Rgb, Rgba};

#[test]
fn fill_sets_every_pixel() {
    let img: Image<Rgb, 3, 2> = Image::fill(Rgb::green());
    for y in 0..2 {
        for x in 0..3 {
            assert_eq!(img[[x, y]], Rgb::green());
        }
    }
}

#[test]
fn white_and_black_images() {
    let w: Image<bool, 2, 2> = Image::white();
    let b: Image<Rgba, 2, 2> = Image::black();
    assert_eq!(w[[1, 1]], false);
    assert_eq!(b[[0, 1]], Rgba { r: 0, g: 0, b: 0, a: 255 });
}

#[test]
fn fill_with_asks_once_for_every_cell() {
    let calls = std::cell::Cell::new(0);
    let img: Image<u8, 4, 3> = Image::fill_with(|c: [usize; 2]| {
        calls.set(calls.get() + 1);
        (c[0] * 10 + c[1]) as u8
    });
    assert_eq!(calls.get(), 12);
    assert_eq!(img[[0, 0]], 0);
    assert_eq!(img[[3, 0]], 30);
    assert_eq!(img[[0, 2]], 2);
    assert_eq!(img[[3, 2]], 32);
}

#[test]
fn index_takes_column_then_row() {
    let mut img: Image<u8, 3, 2> = Image::black();
    img[[2, 0]] = 7;
    img[[0, 1]] = 9;
    assert_eq!(img[[2, 0]], 7);
    assert_eq!(img[[0, 1]], 9);
    assert_eq!(img[[1, 1]], 0);
    assert_eq!(img.to_ppm_p6()[11..].to_vec(), vec![0, 0, 0, 0, 0, 0, 7, 7, 7, 9, 9, 9, 0, 0, 0, 0, 0, 0]);
}

#[test]
fn rows_come_from_the_top() {
    let img: Image<u8, 2, 3> = Image::fill_with(|c: [usize; 2]| (c[1] * 2 + c[0]) as u8);
    let rows: Vec<[u8; 2]> = img.iter().copied().collect();
    assert_eq!(rows, vec![[0, 1], [2, 3], [4, 5]]);
    let mut seen = Vec::new();
    for row in &img {
        seen.push(*row);
    }
    assert_eq!(seen, rows);
    let owned: Vec<[u8; 2]> = img.into_iter().collect();
    assert_eq!(owned, rows);
}

#[test]
fn rows_can_be_changed_in_place() {
    let mut img: Image<u8, 2, 2> = Image::black();
    for (y, row) in img.iter_mut().enumerate() {
        for (x, px) in row.iter_mut().enumerate() {
            *px = (10 * y + x) as u8;
        }
    }
    assert_eq!(img[[0, 0]], 0);
    assert_eq!(img[[1, 0]], 1);
    assert_eq!(img[[0, 1]], 10);
    assert_eq!(img[[1, 1]], 11);
    for row in &mut img {
        row[0] = 99;
    }
    assert_eq!(img[[0, 1]], 99);
    assert_eq!(img.iter().count(), 2);
}

#[test]
fn clones_are_equal_and_apart() {
    let a: Image<Rgb, 2, 2> = Image::fill(Rgb::blue());
    let mut b = a.clone();
    assert_eq!(a, b);
    b[[1, 1]] = Rgb::red();
    assert_ne!(a, b);
    assert_eq!(a[[1, 1]], Rgb::blue());
}

#[test]
fn images_without_cells() {
    let a: Image<Rgb, 0, 3> = Image::white();
    assert_eq!(a.iter().count(), 3);
    let b: Image<Rgb, 3, 0> = Image::fill_with(|_c: [usize; 2]| Rgb::red());
    assert_eq!(b.iter().count(), 0);
    assert_eq!(b.to_ppm_p6(), b"P6\n3 0\n255\n".to_vec());
}

#[test]
fn render_with_takes_the_background_where_nothing_is_seen() {
    let casts = std::cell::Cell::new(0);
    let fills = std::cell::Cell::new(0);
    let img: Image<Rgba, 3, 2> = Image::render_with(
        |c: [usize; 2]| {
            casts.set(casts.get() + 1);
            if c[0] == c[1] { Some(Rgb { r: 9, g: 8, b: 7 }) } else { None }
        },
        |c: [usize; 2]| {
            fills.set(fills.get() + 1);
            Rgba { r: c[0] as u8, g: c[1] as u8, b: 0, a: 0 }
        },
    );
    assert_eq!((casts.get(), fills.get()), (6, 4));
    assert_eq!(img[[0, 0]], Rgba { r: 9, g: 8, b: 7, a: 255 });
    assert_eq!(img[[1, 1]], Rgba { r: 9, g: 8, b: 7, a: 255 });
    assert_eq!(img[[2, 0]], Rgba { r: 2, g: 0, b: 0, a: 0 });
    assert_eq!(img[[0, 1]], Rgba { r: 0, g: 1, b: 0, a: 0 });
    assert_eq!(img[[2, 1]], Rgba { r: 2, g: 1, b: 0, a: 0 });
}

#[test]
fn render_over_keeps_what_is_not_covered() {
    let under: Image<u8, 2, 2> = Image::fill_with(|c: [usize; 2]| (c[0] + 2 * c[1]) as u8);
    let img = under.clone().render_over(|c: [usize; 2]| {
        if c[1] == 1 { Some(Rgb { r: 255, g: 0, b: 0 }) } else { None }
    });
    assert_eq!(img[[0, 0]], 0);
    assert_eq!(img[[1, 0]], 1);
    assert_eq!(img[[0, 1]], 76);
    assert_eq!(img[[1, 1]], 76);
    assert_eq!(under[[1, 1]], 3);
}
