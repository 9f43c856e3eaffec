//! Toroidal Moore-neighborhood addressing.

use vstd::prelude::*;

verus! {

/// The offset `(dx, dy)` of the `k`-th neighbor, clockwise from the top
/// left: top-left, top, top-right, right, bottom-right, bottom, bottom-left,
/// left.
pub open spec fn direction(k: int) -> (int, int) {
    if k == 0 {
        (-1, -1)
    } else if k == 1 {
        (0, -1)
    } else if k == 2 {
        (1, -1)
    } else if k == 3 {
        (1, 0)
    } else if k == 4 {
        (1, 1)
    } else if k == 5 {
        (0, 1)
    } else if k == 6 {
        (-1, 1)
    } else {
        (-1, 0)
    }
}

/// The `k`-th neighbor of cell `(x, y)` on a `w` by `h` torus.
pub open spec fn neighbor(x: int, y: int, w: int, h: int, k: int) -> (int, int) {
    ((x + direction(k).0) % w, (y + direction(k).1) % h)
}

/// A coordinate moved by at most one step stays in range once reduced.
pub proof fn lemma_step_mod(v: int, n: int)
    requires
        n >= 1,
        -1 <= v <= n,
    ensures
        v % n == (if v < 0 {
            v + n
        } else if v >= n {
            v - n
        } else {
            v
        }),
{
    if v < 0 {
        assert((v + n) % n == v % n) by {
            vstd::arithmetic::div_mod::lemma_mod_add_multiples_vanish(v, n);
        }
        vstd::arithmetic::div_mod::lemma_small_mod((v + n) as nat, n as nat);
    } else if v >= n {
        assert((v - n) % n == v % n) by {
            vstd::arithmetic::div_mod::lemma_mod_sub_multiples_vanish(v, n);
        }
        vstd::arithmetic::div_mod::lemma_small_mod((v - n) as nat, n as nat);
    } else {
        vstd::arithmetic::div_mod::lemma_small_mod(v as nat, n as nat);
    }
}

/// The eight neighbors of `cell` on a torus of `size = (width, height)`, in
/// clockwise order from the top left; coordinates wrap at every edge.
pub fn moore_neighborhood_wrapping(cell: (usize, usize), size: (usize, usize)) -> (r: [(
    usize,
    usize,
); 8])
    requires
        size.0 >= 1,
        size.1 >= 1,
        cell.0 < size.0,
        cell.1 < size.1,
    ensures
        forall|k: int|
            0 <= k < 8 ==> (#[trigger] r@[k].0 as int, r@[k].1 as int) == neighbor(
                cell.0 as int,
                cell.1 as int,
                size.0 as int,
                size.1 as int,
                k,
            ),
        forall|k: int| 0 <= k < 8 ==> r@[k].0 < size.0 && r@[k].1 < size.1,
{
    let (x, y) = cell;
    let (w, h) = size;
    let left = if x == 0 {
        w - 1
    } else {
        x - 1
    };
    let right = if x + 1 == w {
        0
    } else {
        x + 1
    };
    let up = if y == 0 {
        h - 1
    } else {
        y - 1
    };
    let down = if y + 1 == h {
        0
    } else {
        y + 1
    };
    proof {
        lemma_step_mod(x - 1, w as int);
        lemma_step_mod(x as int, w as int);
        lemma_step_mod(x + 1, w as int);
        lemma_step_mod(y - 1, h as int);
        lemma_step_mod(y as int, h as int);
        lemma_step_mod(y + 1, h as int);
    }
    let r = [
        (left, up),
        (x, up),
        (right, up),
        (right, y),
        (right, down),
        (x, down),
        (left, down),
        (left, y),
    ];
    assert forall|k: int| 0 <= k < 8 implies (r@[k].0 as int, r@[k].1 as int) == neighbor(
        x as int,
        y as int,
        w as int,
        h as int,
        k,
    ) by {
        if k == 0 {
        } else if k == 1 {
        } else if k == 2 {
        } else if k == 3 {
        } else if k == 4 {
        } else if k == 5 {
        } else if k == 6 {
        } else {
        }
    }
    r
}

/// Every neighbor of a cell lies on the grid, and on a torus at least three
/// cells wide and three high the eight neighbors are pairwise distinct.
pub proof fn lemma_neighbors_in_range_and_distinct(x: int, y: int, w: int, h: int, j: int, k: int)
    requires
        w >= 1,
        h >= 1,
        0 <= x < w,
        0 <= y < h,
        0 <= j < 8,
        0 <= k < 8,
    ensures
        0 <= neighbor(x, y, w, h, k).0 < w,
        0 <= neighbor(x, y, w, h, k).1 < h,
        w >= 3 && h >= 3 && j != k ==> neighbor(x, y, w, h, j) != neighbor(x, y, w, h, k),
{
    lemma_step_mod(x + direction(j).0, w);
    lemma_step_mod(y + direction(j).1, h);
    lemma_step_mod(x + direction(k).0, w);
    lemma_step_mod(y + direction(k).1, h);
}

/// The direction opposite to the `k`-th one.
pub open spec fn opposite(k: int) -> int {
    (k + 4) % 8
}

/// Stepping to a neighbor and back in the opposite direction returns to the
/// cell: each cell is a neighbor of each of its neighbors.
pub proof fn lemma_neighbor_symmetric(x: int, y: int, w: int, h: int, k: int)
    requires
        w >= 1,
        h >= 1,
        0 <= x < w,
        0 <= y < h,
        0 <= k < 8,
    ensures
        0 <= opposite(k) < 8,
        neighbor(neighbor(x, y, w, h, k).0, neighbor(x, y, w, h, k).1, w, h, opposite(k)) == (
        x,
        y,
        ),
{
    let d = direction(k);
    let e = direction(opposite(k));
    assert(e.0 == -d.0 && e.1 == -d.1);
    lemma_step_mod(x + d.0, w);
    lemma_step_mod(y + d.1, h);
    let n = neighbor(x, y, w, h, k);
    lemma_step_mod(n.0 + e.0, w);
    lemma_step_mod(n.1 + e.1, h);
}

} // verus!
