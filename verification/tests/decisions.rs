use raytracer::scene::{compose, nearest, projected};
use raytracer::Rgb;

#[test]
fn nearest_of_nothing() {
    assert_eq!(nearest(&vec![]), None);
    assert_eq!(nearest(&vec![None, None]), None);
}

#[test]
fn nearest_is_the_smallest_key() {
    assert_eq!(nearest(&vec![Some(9), None, Some(4), Some(7)]), Some(2));
    assert_eq!(nearest(&vec![None, Some(-3)]), Some(1));
    assert_eq!(nearest(&vec![Some(i64::MAX), Some(i64::MIN)]), Some(1));
}

#[test]
fn nearest_of_equal_keys_is_the_first() {
    assert_eq!(nearest(&vec![Some(5), Some(3), None, Some(3)]), Some(1));
    assert_eq!(nearest(&vec![Some(0), Some(0)]), Some(0));
}

#[test]
fn nearest_key_does_not_depend_on_the_order() {
    let a = vec![Some(12), Some(40)];
    let b = vec![Some(40), Some(12)];
    let i = nearest(&a).unwrap();
    let j = nearest(&b).unwrap();
    assert_eq!((i, j), (0, 1));
    assert_eq!(a[i], b[j]);
}

#[test]
fn offsets_from_the_middle() {
    assert_eq!(projected([0, 0], [64, 48]), (-32, 24));
    assert_eq!(projected([32, 24], [64, 48]), (0, 0));
    assert_eq!(projected([63, 47], [64, 48]), (31, -23));
    assert_eq!(projected([2, 0], [5, 3]), (0, 1));
    assert_eq!(projected([0, 2], [5, 3]), (-2, -1));
}

#[test]
fn light_in_shadow_is_ambient_only() {
    let ambient = Rgb { r: 51, g: 0, b: 0 };
    let diffuse = Rgb { r: 150, g: 0, b: 0 };
    let specular = Rgb { r: 90, g: 90, b: 90 };
    assert_eq!(compose(ambient, diffuse, specular, true), ambient);
    assert_eq!(compose(ambient, diffuse, specular, false), Rgb { r: 255, g: 90, b: 90 });
    assert_eq!(
        compose(ambient, Rgb { r: 0, g: 0, b: 0 }, Rgb { r: 0, g: 0, b: 0 }, false),
        ambient
    );
}
