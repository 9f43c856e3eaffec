//! The incremental update engine: computes the next generation of a toroidal
//! world, recomputing only the cells whose inputs may have changed.

use crate::bits::{bits_of, Bits};
use crate::codec::{code_alive, pack, MooreNeighborhood};
use crate::conway::{conway_next, ConwaysLife};
use crate::neighborhood::{
    lemma_neighbor_symmetric,
    lemma_neighbors_in_range_and_distinct,
    moore_neighborhood_wrapping,
    neighbor,
    opposite,
};
use crate::rule::{index_of, LifeLike};
use vstd::prelude::*;

verus! {

/// A rule of a binary cellular automaton over the Moore neighborhood.
pub trait CellRule {
    /// The next status of a cell with status `status` whose neighbors are
    /// packed in `hood`.
    spec fn next_spec(&self, status: bool, hood: u8) -> bool;

    /// Computes [`CellRule::next_spec`].
    fn next_status(&self, status: bool, hood: u8) -> (r: bool)
        ensures
            r == self.next_spec(status, hood),
    ;
}

/// An automaton that advances a whole world by one generation.
pub trait Automata: CellRule {
    /// Writes into `target` the next status of every cell that changed or
    /// has a neighbor that changed, as `changes` records; other cells of
    /// `target` are left as they are.
    fn update(&self, world: &Bits, target: &mut Bits, changes: &Bits, size: (usize, usize))
        requires
            grid_ok(bits_of(*world), bits_of(*old(target)), bits_of(*changes), size),
        ensures
            bits_of(*final(target)) == incremental_step(
                self,
                bits_of(*world),
                bits_of(*old(target)),
                bits_of(*changes),
                size.0 as int,
                size.1 as int,
            ),
    ;
}

/// The buffers fit a grid of `size = (width, height)`, both at least one.
pub open spec fn grid_ok(
    world: Seq<bool>,
    target: Seq<bool>,
    changes: Seq<bool>,
    size: (usize, usize),
) -> bool {
    &&& size.0 >= 1
    &&& size.1 >= 1
    &&& world.len() == size.0 * size.1
    &&& target.len() == world.len()
    &&& changes.len() == world.len()
}

/// The linear index of the `k`-th neighbor of the cell at index `i`.
pub open spec fn neighbor_index(i: int, w: int, h: int, k: int) -> int {
    let c = neighbor(i % w, i / w, w, h, k);
    c.0 + c.1 * w
}

/// The states of the eight neighbors of the cell at index `i`, clockwise
/// from the top left.
pub open spec fn hood_at(world: Seq<bool>, i: int, w: int, h: int) -> Seq<bool> {
    Seq::new(8, |k: int| world[neighbor_index(i, w, h, k)])
}

/// The next status of the cell at index `i`.
pub open spec fn next_cell<A: CellRule + ?Sized>(rule: &A, world: Seq<bool>, i: int, w: int, h: int) -> bool {
    rule.next_spec(world[i], pack(hood_at(world, i, w, h)))
}

/// The next generation of a whole world.
pub open spec fn full_step<A: CellRule + ?Sized>(rule: &A, world: Seq<bool>, w: int, h: int) -> Seq<bool> {
    Seq::new(world.len(), |i: int| next_cell(rule, world, i, w, h))
}

/// Whether the cell at index `i` or one of its neighbors is marked in
/// `changes`.
pub open spec fn touched(changes: Seq<bool>, i: int, w: int, h: int) -> bool {
    changes[i] || exists|k: int| 0 <= k < 8 && #[trigger] changes[neighbor_index(i, w, h, k)]
}

/// What the engine leaves in `target`: the next status of every touched
/// cell, and the old contents elsewhere.
pub open spec fn incremental_step<A: CellRule + ?Sized>(
    rule: &A,
    world: Seq<bool>,
    target: Seq<bool>,
    changes: Seq<bool>,
    w: int,
    h: int,
) -> Seq<bool> {
    Seq::new(
        target.len(),
        |i: int|
            if touched(changes, i, w, h) {
                next_cell(rule, world, i, w, h)
            } else {
                target[i]
            },
    )
}

/// Whether `j` is one of the neighbors of `d`.
pub open spec fn is_neighbor_of(d: int, j: int, w: int, h: int) -> bool {
    exists|k: int| 0 <= k < 8 && #[trigger] neighbor_index(d, w, h, k) == j
}

/// The cells that the dirty pass has put on the boundary list after looking
/// at the first `i` cells: unchanged neighbors of changed cells.
pub open spec fn boundary_before(changes: Seq<bool>, i: int, j: int, w: int, h: int) -> bool {
    !changes[j] && exists|d: int| 0 <= d < i && changes[d] && #[trigger] is_neighbor_of(d, j, w, h)
}

/// The coordinates of a cell and its linear index determine each other.
pub proof fn lemma_cell_index(x: int, y: int, w: int, h: int)
    requires
        w >= 1,
        h >= 1,
        0 <= x < w,
        0 <= y < h,
    ensures
        0 <= y * w <= x + y * w < w * h,
        (x + y * w) % w == x,
        (x + y * w) / w == y,
{
    assert(0 <= y * w) by (nonlinear_arith)
        requires
            0 <= y,
            1 <= w,
    ;
    assert(x + y * w < w * h) by (nonlinear_arith)
        requires
            0 <= x < w,
            0 <= y < h,
    ;
    vstd::arithmetic::div_mod::lemma_fundamental_div_mod_converse(x + y * w, w, y, x);
}

/// A linear index splits into coordinates on the grid.
pub proof fn lemma_index_cell(i: int, w: int, h: int)
    requires
        w >= 1,
        h >= 1,
        0 <= i < w * h,
    ensures
        0 <= i % w < w,
        0 <= i / w < h,
        i == i % w + (i / w) * w,
{
    vstd::arithmetic::div_mod::lemma_fundamental_div_mod(i, w);
    vstd::arithmetic::div_mod::lemma_mod_bound(i, w);
    let q = i / w;
    let r = i % w;
    vstd::arithmetic::mul::lemma_mul_is_commutative(w, q);
    assert(0 <= q < h) by (nonlinear_arith)
        requires
            i == w * q + r,
            0 <= r < w,
            0 <= i < w * h,
    ;
}

/// Every neighbor index lies in the world, and the cell is in turn a
/// neighbor of each of its neighbors, in the opposite direction.
pub proof fn lemma_neighbor_index(i: int, w: int, h: int, k: int)
    requires
        w >= 1,
        h >= 1,
        0 <= i < w * h,
        0 <= k < 8,
    ensures
        0 <= neighbor_index(i, w, h, k) < w * h,
        0 <= opposite(k) < 8,
        neighbor_index(neighbor_index(i, w, h, k), w, h, opposite(k)) == i,
{
    lemma_index_cell(i, w, h);
    let x = i % w;
    let y = i / w;
    lemma_neighbors_in_range_and_distinct(x, y, w, h, k, k);
    let c = neighbor(x, y, w, h, k);
    lemma_cell_index(c.0, c.1, w, h);
    lemma_neighbor_symmetric(x, y, w, h, k);
}

/// A cell is touched exactly when it changed or a changed cell has it as a
/// neighbor.
proof fn lemma_touched_boundary(changes: Seq<bool>, j: int, w: int, h: int)
    requires
        w >= 1,
        h >= 1,
        changes.len() == w * h,
        0 <= j < w * h,
    ensures
        touched(changes, j, w, h) == (changes[j] || boundary_before(changes, w * h, j, w, h)),
{
    let n = w * h;
    if exists|k: int| 0 <= k < 8 && #[trigger] changes[neighbor_index(j, w, h, k)] {
        let k = choose|k: int| 0 <= k < 8 && #[trigger] changes[neighbor_index(j, w, h, k)];
        let d = neighbor_index(j, w, h, k);
        lemma_neighbor_index(j, w, h, k);
        assert(neighbor_index(d, w, h, opposite(k)) == j);
        assert(is_neighbor_of(d, j, w, h));
    }
    if boundary_before(changes, n, j, w, h) {
        let d = choose|d: int| 0 <= d < n && changes[d] && #[trigger] is_neighbor_of(d, j, w, h);
        let k = choose|k: int| 0 <= k < 8 && #[trigger] neighbor_index(d, w, h, k) == j;
        lemma_neighbor_index(d, w, h, k);
        assert(changes[neighbor_index(j, w, h, opposite(k))]);
    }
}

/// Gathers the packed neighborhood of the cell at index `i`; when `mark` is
/// set, also marks in `boundary` each neighbor that `changes` does not mark.
fn gather_hood(
    world: &Bits,
    changes: &Bits,
    boundary: &mut Vec<bool>,
    mark: bool,
    i: usize,
    size: (usize, usize),
) -> (code: u8)
    requires
        size.0 >= 1,
        size.1 >= 1,
        bits_of(*world).len() == size.0 * size.1,
        bits_of(*changes).len() == size.0 * size.1,
        old(boundary)@.len() == size.0 * size.1,
        i < size.0 * size.1,
        size.0 * size.1 <= usize::MAX,
    ensures
        code == pack(hood_at(bits_of(*world), i as int, size.0 as int, size.1 as int)),
        final(boundary)@.len() == old(boundary)@.len(),
        forall|j: int|
            0 <= j < final(boundary)@.len() ==> #[trigger] final(boundary)@[j] == (old(boundary)@[j]
                || (mark && !bits_of(*changes)[j] && is_neighbor_of(
                i as int,
                j,
                size.0 as int,
                size.1 as int,
            ))),
{
    let ghost world_s = bits_of(*world);
    let ghost changes_s = bits_of(*changes);
    let ghost w = size.0 as int;
    let ghost h = size.1 as int;
    let ghost start = boundary@;
    let w_len = size.0;
    proof {
        lemma_index_cell(i as int, w, h);
    }
    let x0 = i % w_len;
    let y0 = i / w_len;
    let hood = moore_neighborhood_wrapping((x0, y0), size);
    let mut cells = [false; 8];
    let mut k: usize = 0;
    while k < 8
        invariant
            0 <= k <= 8,
            w == size.0 as int,
            h == size.1 as int,
            w >= 1,
            h >= 1,
            world_s == bits_of(*world),
            changes_s == bits_of(*changes),
            world_s.len() == w * h,
            changes_s.len() == w * h,
            i < w * h,
            w * h <= usize::MAX,
            w_len == size.0,
            x0 as int == i as int % w,
            y0 as int == i as int / w,
            x0 < size.0,
            y0 < size.1,
            boundary@.len() == w * h,
            start.len() == w * h,
            forall|m: int|
                0 <= m < 8 ==> (hood@[m].0 as int, hood@[m].1 as int) == neighbor(
                    x0 as int,
                    y0 as int,
                    size.0 as int,
                    size.1 as int,
                    m,
                ),
            forall|m: int| 0 <= m < 8 ==> hood@[m].0 < size.0 && hood@[m].1 < size.1,
            forall|m: int| 0 <= m < k ==> cells@[m] == world_s[neighbor_index(i as int, w, h, m)],
            forall|j: int|
                0 <= j < w * h ==> #[trigger] boundary@[j] == (start[j] || (mark && !changes_s[j]
                    && exists|m: int|
                    0 <= m < k && #[trigger] neighbor_index(i as int, w, h, m) == j)),
        decreases 8 - k,
    {
        let (x, y) = hood[k];
        proof {
            lemma_cell_index(x as int, y as int, w, h);
        }
        let index = x + y * w_len;
        assert(index == neighbor_index(i as int, w, h, k as int));
        cells[k] = world.get(index);
        if mark && !changes.get(index) {
            boundary.set(index, true);
        }
        assert forall|j: int| 0 <= j < w * h implies #[trigger] boundary@[j] == (start[j] || (mark
            && !changes_s[j] && exists|m: int|
            0 <= m < k + 1 && #[trigger] neighbor_index(i as int, w, h, m) == j)) by {
            if j == index {
                if mark && !changes_s[j] {
                    assert(neighbor_index(i as int, w, h, k as int) == j);
                }
            } else {
                if exists|m: int| 0 <= m < k + 1 && #[trigger] neighbor_index(i as int, w, h, m) == j {
                    let m = choose|m: int|
                        0 <= m < k + 1 && #[trigger] neighbor_index(i as int, w, h, m) == j;
                    assert(m != k);
                }
            }
        }
        k = k + 1;
    }
    assert(cells@ =~= hood_at(world_s, i as int, w, h));
    MooreNeighborhood::from_array(&cells).code()
}

/// The engine shared by every rule: a dirty pass over the cells that
/// `changes` marks, then a boundary pass over their unchanged neighbors,
/// each visited once, in increasing index order.
pub fn update_generation<A: CellRule + ?Sized>(
    rule: &A,
    world: &Bits,
    target: &mut Bits,
    changes: &Bits,
    size: (usize, usize),
)
    requires
        grid_ok(bits_of(*world), bits_of(*old(target)), bits_of(*changes), size),
    ensures
        bits_of(*final(target)) == incremental_step(
            rule,
            bits_of(*world),
            bits_of(*old(target)),
            bits_of(*changes),
            size.0 as int,
            size.1 as int,
        ),
{
    let ghost world_s = bits_of(*world);
    let ghost changes_s = bits_of(*changes);
    let ghost target0 = bits_of(*target);
    let ghost w = size.0 as int;
    let ghost h = size.1 as int;
    let n = world.len();
    let mut boundary: Vec<bool> = Vec::new();
    let mut j: usize = 0;
    while j < n
        invariant
            j <= n,
            boundary@.len() == j,
            forall|m: int| 0 <= m < j ==> !boundary@[m],
        decreases n - j,
    {
        boundary.push(false);
        j = j + 1;
    }
    // Dirty pass: the cells that changed.
    let mut i: usize = 0;
    while i < n
        invariant
            i <= n,
            n == w * h,
            w == size.0 as int,
            h == size.1 as int,
            grid_ok(world_s, target0, changes_s, size),
            world_s == bits_of(*world),
            changes_s == bits_of(*changes),
            boundary@.len() == n,
            bits_of(*target).len() == n,
            forall|m: int|
                0 <= m < n ==> #[trigger] bits_of(*target)[m] == (if m < i && changes_s[m] {
                    next_cell(rule, world_s, m, w, h)
                } else {
                    target0[m]
                }),
            forall|m: int|
                0 <= m < n ==> #[trigger] boundary@[m] == boundary_before(changes_s, i as int, m, w, h),
        decreases n - i,
    {
        if changes.get(i) {
            let ghost before = boundary@;
            let code = gather_hood(world, changes, &mut boundary, true, i, size);
            let status = world.get(i);
            let next = rule.next_status(status, code);
            target.set(i, next);
            assert forall|m: int| 0 <= m < n implies #[trigger] boundary@[m] == boundary_before(
                changes_s,
                i + 1,
                m,
                w,
                h,
            ) by {
                if boundary_before(changes_s, i + 1, m, w, h) && !before[m] {
                    let d = choose|d: int|
                        0 <= d < i + 1 && changes_s[d] && #[trigger] is_neighbor_of(d, m, w, h);
                    assert(d == i);
                }
                if before[m] {
                    let d = choose|d: int|
                        0 <= d < i && changes_s[d] && #[trigger] is_neighbor_of(d, m, w, h);
                    assert(0 <= d < i + 1);
                }
                if !changes_s[m] && is_neighbor_of(i as int, m, w, h) {
                    assert(0 <= i < i + 1 && changes_s[i as int]);
                }
            }
        } else {
            assert forall|m: int| 0 <= m < n implies #[trigger] boundary@[m] == boundary_before(
                changes_s,
                i + 1,
                m,
                w,
                h,
            ) by {
                if boundary_before(changes_s, i + 1, m, w, h) {
                    let d = choose|d: int|
                        0 <= d < i + 1 && changes_s[d] && #[trigger] is_neighbor_of(d, m, w, h);
                    assert(d != i);
                }
            }
        }
        i = i + 1;
    }
    // Boundary pass: unchanged neighbors of changed cells, each once.
    let mut b: usize = 0;
    while b < n
        invariant
            b <= n,
            n == w * h,
            w == size.0 as int,
            h == size.1 as int,
            grid_ok(world_s, target0, changes_s, size),
            world_s == bits_of(*world),
            changes_s == bits_of(*changes),
            boundary@.len() == n,
            bits_of(*target).len() == n,
            forall|m: int|
                0 <= m < n ==> #[trigger] boundary@[m] == boundary_before(changes_s, n as int, m, w, h),
            forall|m: int|
                0 <= m < n ==> #[trigger] bits_of(*target)[m] == (if changes_s[m] || (m < b
                    && boundary@[m]) {
                    next_cell(rule, world_s, m, w, h)
                } else {
                    target0[m]
                }),
        decreases n - b,
    {
        if boundary[b] {
            let ghost before = boundary@;
            let code = gather_hood(world, changes, &mut boundary, false, b, size);
            assert(boundary@ =~= before);
            let status = world.get(b);
            let next = rule.next_status(status, code);
            target.set(b, next);
        }
        b = b + 1;
    }
    assert forall|m: int| 0 <= m < n implies #[trigger] bits_of(*target)[m] == incremental_step(
        rule,
        world_s,
        target0,
        changes_s,
        w,
        h,
    )[m] by {
        lemma_touched_boundary(changes_s, m, w, h);
    }
    assert(bits_of(*target) =~= incremental_step(rule, world_s, target0, changes_s, w, h));
}

/// The change set between two generations: the cells whose status differs.
pub open spec fn changes_between(a: Seq<bool>, b: Seq<bool>) -> Seq<bool> {
    Seq::new(a.len(), |i: int| a[i] != b[i])
}

/// Records in `changes` which cells differ between `fresh` and `stale`.
pub fn compute_changes(fresh: &Bits, stale: &Bits, changes: &mut Bits)
    requires
        bits_of(*stale).len() == bits_of(*fresh).len(),
        bits_of(*old(changes)).len() == bits_of(*fresh).len(),
    ensures
        bits_of(*final(changes)) == changes_between(bits_of(*fresh), bits_of(*stale)),
{
    let n = fresh.len();
    let mut i: usize = 0;
    while i < n
        invariant
            i <= n,
            n == bits_of(*fresh).len(),
            bits_of(*stale).len() == n,
            bits_of(*changes).len() == n,
            forall|m: int|
                0 <= m < i ==> #[trigger] bits_of(*changes)[m] == (bits_of(*fresh)[m] != bits_of(
                    *stale,
                )[m]),
        decreases n - i,
    {
        let differs = fresh.get(i) != stale.get(i);
        changes.set(i, differs);
        i = i + 1;
    }
    assert(bits_of(*changes) =~= changes_between(bits_of(*fresh), bits_of(*stale)));
}

/// One tick of a simulation: records in `changes` the cells that differ
/// between `fresh` and `stale`, then lets `rule` write the next generation of
/// `fresh` into `stale`.
pub fn simulate_step<A: Automata>(
    rule: &A,
    fresh: &Bits,
    stale: &mut Bits,
    changes: &mut Bits,
    size: (usize, usize),
)
    requires
        grid_ok(bits_of(*fresh), bits_of(*old(stale)), bits_of(*old(changes)), size),
    ensures
        bits_of(*final(changes)) == changes_between(bits_of(*fresh), bits_of(*old(stale))),
        bits_of(*final(stale)) == incremental_step(
            rule,
            bits_of(*fresh),
            bits_of(*old(stale)),
            changes_between(bits_of(*fresh), bits_of(*old(stale))),
            size.0 as int,
            size.1 as int,
        ),
{
    compute_changes(fresh, stale, changes);
    rule.update(fresh, stale, changes, size);
}

/// When every cell is marked as changed, the engine recomputes the whole
/// world: its result is the full next generation.
pub proof fn lemma_all_changed_is_full<A: CellRule + ?Sized>(
    rule: &A,
    world: Seq<bool>,
    target: Seq<bool>,
    changes: Seq<bool>,
    size: (usize, usize),
)
    requires
        grid_ok(world, target, changes, size),
        forall|i: int| 0 <= i < changes.len() ==> changes[i],
    ensures
        incremental_step(rule, world, target, changes, size.0 as int, size.1 as int) == full_step(
            rule,
            world,
            size.0 as int,
            size.1 as int,
        ),
{
    assert(incremental_step(rule, world, target, changes, size.0 as int, size.1 as int) =~= full_step(
        rule,
        world,
        size.0 as int,
        size.1 as int,
    ));
}

/// Incremental and full updates agree: when `world` is the full next
/// generation of `prev` and the target buffer still holds `prev`, updating
/// only the cells touched by the changes between the two gives exactly the
/// full next generation of `world`.
pub proof fn lemma_incremental_matches_full<A: CellRule + ?Sized>(
    rule: &A,
    prev: Seq<bool>,
    world: Seq<bool>,
    size: (usize, usize),
)
    requires
        grid_ok(world, prev, world, size),
        world == full_step(rule, prev, size.0 as int, size.1 as int),
    ensures
        incremental_step(
            rule,
            world,
            prev,
            changes_between(world, prev),
            size.0 as int,
            size.1 as int,
        ) == full_step(rule, world, size.0 as int, size.1 as int),
{
    let w = size.0 as int;
    let h = size.1 as int;
    let changes = changes_between(world, prev);
    let inc = incremental_step(rule, world, prev, changes, w, h);
    let full = full_step(rule, world, w, h);
    assert forall|i: int| 0 <= i < world.len() implies inc[i] == full[i] by {
        if !touched(changes, i, w, h) {
            assert forall|k: int| 0 <= k < 8 implies hood_at(world, i, w, h)[k] == hood_at(
                prev,
                i,
                w,
                h,
            )[k] by {
                lemma_neighbor_index(i, w, h, k);
                assert(!changes[neighbor_index(i, w, h, k)]);
            }
            assert(hood_at(world, i, w, h) =~= hood_at(prev, i, w, h));
            assert(world[i] == prev[i]);
        }
    }
    assert(inc =~= full);
}

/// Two ticks of a simulation loop, as a caller runs it: the first with
/// every cell marked as changed, the second with the changes between the
/// generations and the buffers swapped. Both leave the full next generation.
pub proof fn lemma_two_ticks<A: CellRule + ?Sized>(
    rule: &A,
    gen0: Seq<bool>,
    stale: Seq<bool>,
    all: Seq<bool>,
    size: (usize, usize),
)
    requires
        grid_ok(gen0, stale, all, size),
        forall|i: int| 0 <= i < all.len() ==> all[i],
    ensures
        ({
            let w = size.0 as int;
            let h = size.1 as int;
            let gen1 = incremental_step(rule, gen0, stale, all, w, h);
            &&& gen1 == full_step(rule, gen0, w, h)
            &&& incremental_step(rule, gen1, gen0, changes_between(gen1, gen0), w, h) == full_step(
                rule,
                gen1,
                w,
                h,
            )
        }),
{
    let w = size.0 as int;
    let h = size.1 as int;
    lemma_all_changed_is_full(rule, gen0, stale, all, size);
    let gen1 = incremental_step(rule, gen0, stale, all, w, h);
    lemma_incremental_matches_full(rule, gen0, gen1, size);
}

impl CellRule for LifeLike {
    open spec fn next_spec(&self, status: bool, hood: u8) -> bool {
        self@[index_of(status, code_alive(hood) as int)]
    }

    fn next_status(&self, status: bool, hood: u8) -> (r: bool) {
        let alive = MooreNeighborhood::from_code(hood).alive_count();
        self.simulate(status, alive)
    }
}

impl Automata for LifeLike {
    fn update(&self, world: &Bits, target: &mut Bits, changes: &Bits, size: (usize, usize)) {
        update_generation(self, world, target, changes, size)
    }
}

impl CellRule for ConwaysLife {
    open spec fn next_spec(&self, status: bool, hood: u8) -> bool {
        conway_next(status, code_alive(hood) as int)
    }

    fn next_status(&self, status: bool, hood: u8) -> (r: bool) {
        self.lookup(status, hood)
    }
}

impl Automata for ConwaysLife {
    fn update(&self, world: &Bits, target: &mut Bits, changes: &Bits, size: (usize, usize)) {
        update_generation(self, world, target, changes, size)
    }
}

} // verus!
