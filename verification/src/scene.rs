//! The decisions that give a pixel its colour: where the pixel lies relative
//! to the middle of the picture, which surface its ray meets first, and how
//! the terms of the light add up.
//!
//! Distances are compared as integer keys that order as the distances do; a
//! surface that the ray misses has no key.
use vstd::prelude::*;
use crate::pixel::Rgb;

verus! {

/// `i` is the place of the first among the smallest keys.
pub open spec fn is_nearest(keys: Seq<Option<i64>>, i: int) -> bool {
    &&& 0 <= i < keys.len()
    &&& keys[i] is Some
    &&& forall|j: int| 0 <= j < keys.len() && keys[j] is Some ==> keys[i]->0 <= (#[trigger] keys[j])->0
    &&& forall|j: int| 0 <= j < i && keys[j] is Some ==> keys[i]->0 < (#[trigger] keys[j])->0
}

/// No surface is met.
pub open spec fn all_missed(keys: Seq<Option<i64>>) -> bool {
    forall|j: int| 0 <= j < keys.len() ==> (#[trigger] keys[j]) is None
}

/// The place of the nearest hit: the smallest key, and of equal keys the one
/// that comes first; `None` when every surface is missed.
pub fn nearest(keys: &Vec<Option<i64>>) -> (hit: Option<usize>)
    ensures
        match hit {
            Some(i) => is_nearest(keys@, i as int),
            None => all_missed(keys@),
        },
{
    let mut best: Option<usize> = None;
    let mut best_key: i64 = 0;
    let mut j: usize = 0;
    while j < keys.len()
        invariant
            j <= keys.len(),
            match best {
                Some(i) => is_nearest(keys@.take(j as int), i as int) && keys@[i as int] == Some(
                    best_key,
                ),
                None => all_missed(keys@.take(j as int)),
            },
        decreases keys.len() - j,
    {
        match keys[j] {
            Some(key) => {
                if best.is_none() || key < best_key {
                    best = Some(j);
                    best_key = key;
                }
            },
            None => {},
        }
        j += 1;
    }
    assert(keys@.take(j as int) =~= keys@);
    best
}

/// The nearest hit does not depend on the order of the surfaces: two lists
/// with the same keys, in any order, have the same nearest key.
pub proof fn lemma_nearest_order_free(a: Seq<Option<i64>>, b: Seq<Option<i64>>, i: int, j: int)
    requires
        a.to_multiset() == b.to_multiset(),
        is_nearest(a, i),
        is_nearest(b, j),
    ensures
        a[i] == b[j],
{
    a.to_multiset_ensures();
    b.to_multiset_ensures();
    assert(a.contains(a[i]));
    assert(b.contains(b[j]));
    assert(a.to_multiset().count(a[i]) > 0);
    assert(b.to_multiset().count(b[j]) > 0);
    assert(b.to_multiset().count(a[i]) > 0);
    assert(a.to_multiset().count(b[j]) > 0);
    let jj = choose|k: int| 0 <= k < b.len() && b[k] == a[i];
    let ii = choose|k: int| 0 <= k < a.len() && a[k] == b[j];
    assert(b[jj] is Some);
    assert(a[ii] is Some);
}

/// Whether a list has a nearest hit is the same in any order.
pub proof fn lemma_missed_order_free(a: Seq<Option<i64>>, b: Seq<Option<i64>>)
    requires
        a.to_multiset() == b.to_multiset(),
        all_missed(a),
    ensures
        all_missed(b),
{
    a.to_multiset_ensures();
    b.to_multiset_ensures();
    assert forall|j: int| 0 <= j < b.len() implies (#[trigger] b[j]) is None by {
        assert(b.contains(b[j]));
        assert(b.to_multiset().count(b[j]) > 0);
        assert(a.to_multiset().count(b[j]) > 0);
        let k = choose|k: int| 0 <= k < a.len() && a[k] == b[j];
        assert(a[k] is None);
    }
}

/// Offsets of a pixel from the middle of a picture: to the right and upwards.
pub open spec fn offsets(x: int, y: int, width: int, height: int) -> (int, int) {
    (x - width / 2, height / 2 - y)
}

/// The offsets of the pixel in column `position[0]` of row `position[1]` from
/// the middle of a picture of `size[0]` by `size[1]` pixels. Rows count
/// downwards, the second offset upwards.
pub fn projected(position: [usize; 2], size: [usize; 2]) -> (off: (isize, isize))
    requires
        position[0] <= isize::MAX,
        position[1] <= isize::MAX,
        size[0] <= isize::MAX,
        size[1] <= isize::MAX,
    ensures
        (off.0 as int, off.1 as int) == offsets(
            position[0] as int,
            position[1] as int,
            size[0] as int,
            size[1] as int,
        ),
{
    let xproj: isize = position[0] as isize - size[0] as isize / 2;
    let yproj: isize = -(position[1] as isize - size[1] as isize / 2);
    (xproj, yproj)
}

/// The colour of a lit point: in shadow the ambient term alone, otherwise
/// the sum of the ambient, diffuse and specular terms, every channel held at
/// 255.
pub open spec fn lit(ambient: Rgb, diffuse: Rgb, specular: Rgb, occluded: bool) -> Rgb {
    if occluded {
        ambient
    } else {
        ambient.plus(diffuse).plus(specular)
    }
}

/// Adds up the terms of the light at a point.
pub fn compose(ambient: Rgb, diffuse: Rgb, specular: Rgb, occluded: bool) -> (colour: Rgb)
    ensures
        colour == lit(ambient, diffuse, specular, occluded),
{
    if occluded {
        ambient
    } else {
        ambient + diffuse + specular
    }
}

/// A point in shadow has the ambient colour whatever the other terms are, and
/// a point in the light is in no channel darker than that.
pub proof fn lemma_shadow_is_darkest(ambient: Rgb, diffuse: Rgb, specular: Rgb)
    ensures
        lit(ambient, diffuse, specular, true) == ambient,
        lit(ambient, diffuse, specular, false).r >= ambient.r,
        lit(ambient, diffuse, specular, false).g >= ambient.g,
        lit(ambient, diffuse, specular, false).b >= ambient.b,
{
}

} // verus!
