//! A pair of coordinates.

use vstd::prelude::*;

verus! {

/// A point; for grid positions `x` is the column and `y` the row.
#[derive(Clone, Copy, Debug, PartialEq, Eq, Hash)]
pub struct Point<T> {
    pub x: T,
    pub y: T,
}

impl<T> Point<T> {
    pub fn new(x: T, y: T) -> (r: Self)
        ensures
            r.x == x && r.y == y,
    {
        Point { x, y }
    }
}

/// The sort key of a point: by row then column when `by_y`, else by column then row.
pub open spec fn point_key(p: Point<usize>, by_y: bool) -> int {
    if by_y {
        p.y as int * 0x1_0000_0000_0000_0000 + p.x as int
    } else {
        p.x as int * 0x1_0000_0000_0000_0000 + p.y as int
    }
}

pub open spec fn sorted_by(s: Seq<Point<usize>>, by_y: bool) -> bool {
    forall|j: int, k: int|
        #![trigger s[j], s[k]]
        0 <= j < k < s.len() ==> point_key(s[j], by_y) <= point_key(s[k], by_y)
}

fn key_less(a: &Point<usize>, b: &Point<usize>, by_y: bool) -> (r: bool)
    ensures
        r == (point_key(*a, by_y) < point_key(*b, by_y)),
{
    if by_y {
        a.y < b.y || (a.y == b.y && a.x < b.x)
    } else {
        a.x < b.x || (a.x == b.x && a.y < b.y)
    }
}

fn sort_points(coordinates: &[Point<usize>], by_y: bool) -> (r: Vec<Point<usize>>)
    ensures
        sorted_by(r@, by_y),
        r@.to_multiset() == coordinates@.to_multiset(),
{
    broadcast use vstd::seq_lib::to_multiset_insert;
    let mut out: Vec<Point<usize>> = Vec::new();
    let mut i: usize = 0;
    proof {
        assert(coordinates@.take(0) =~= Seq::<Point<usize>>::empty());
        assert(out@ =~= Seq::<Point<usize>>::empty());
    }
    while i < coordinates.len()
        invariant
            i <= coordinates@.len(),
            sorted_by(out@, by_y),
            out@.to_multiset() == coordinates@.take(i as int).to_multiset(),
        decreases coordinates@.len() - i,
    {
        let x = coordinates[i];
        let mut p: usize = 0;
        while p < out.len() && !key_less(&x, &out[p], by_y)
            invariant
                p <= out@.len(),
                forall|j: int| 0 <= j < p ==> point_key(#[trigger] out@[j], by_y) <= point_key(x, by_y),
            decreases out@.len() - p,
        {
            p = p + 1;
        }
        let ghost before = out@;
        out.insert(p, x);
        proof {
            assert(coordinates@.take(i + 1) =~= coordinates@.take(i as int).push(x));
            vstd::seq_lib::to_multiset_build(coordinates@.take(i as int), x);
            vstd::seq_lib::to_multiset_insert(before, p as int, x);
            assert(out@ == before.insert(p as int, x));
            assert forall|j: int, k: int|
                #![trigger out@[j], out@[k]]
                0 <= j < k < out@.len() implies point_key(out@[j], by_y) <= point_key(out@[k], by_y) by {
                if k < p {
                    assert(out@[j] == before[j] && out@[k] == before[k]);
                } else if k == p {
                    assert(out@[j] == before[j]);
                } else if j == p {
                    assert(out@[k] == before[k - 1]);
                    if p < before.len() {
                        assert(point_key(x, by_y) < point_key(before[p as int], by_y));
                        if k - 1 > p {
                            assert(point_key(before[p as int], by_y) <= point_key(before[k - 1], by_y));
                        }
                    }
                } else if j < p {
                    assert(out@[j] == before[j] && out@[k] == before[k - 1]);
                } else {
                    assert(out@[j] == before[j - 1] && out@[k] == before[k - 1]);
                }
            }
        }
        i = i + 1;
    }
    proof {
        assert(coordinates@.take(coordinates@.len() as int) =~= coordinates@);
    }
    out
}

/// The points ordered by row, then by column.
pub fn sort_coordinates_y(coordinates: &[Point<usize>]) -> (r: Vec<Point<usize>>)
    ensures
        sorted_by(r@, true),
        r@.to_multiset() == coordinates@.to_multiset(),
{
    sort_points(coordinates, true)
}

/// The points ordered by column, then by row.
pub fn sort_coordinates_x(coordinates: &[Point<usize>]) -> (r: Vec<Point<usize>>)
    ensures
        sorted_by(r@, false),
        r@.to_multiset() == coordinates@.to_multiset(),
{
    sort_points(coordinates, false)
}

} // verus!
