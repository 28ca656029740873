//! Tile addresses of the slippy-map scheme and rectangular spans of them.

use vstd::arithmetic::power2::{
    lemma2_to64, lemma_pow2_pos, lemma_pow2_strictly_increases, lemma_pow2_unfold, pow2,
};
use vstd::prelude::*;

verus! {

/// Largest zoom level whose tile indices fit in 32 bits.
pub const MAX_ZOOM: u8 = 31;

/// Number of tiles along one side of the world at `zoom`: two to the power `zoom`.
pub open spec fn side(zoom: nat) -> nat {
    pow2(zoom)
}

/// The side length grows with the zoom level.
pub proof fn lemma_side_monotonic(a: nat, b: nat)
    requires
        a <= b,
    ensures
        1 <= side(a) <= side(b),
{
    lemma_pow2_pos(a);
    if a < b {
        lemma_pow2_strictly_increases(a, b);
    }
}

/// Up to the largest zoom level the side length fits in 32 bits with room to spare.
pub proof fn lemma_side_bound(zoom: nat)
    requires
        zoom <= MAX_ZOOM,
    ensures
        1 <= side(zoom) <= 0x8000_0000,
{
    lemma_side_monotonic(zoom, 31);
    lemma2_to64();
}

/// Computes the number of tiles along one side of the world at `zoom`.
pub fn grid_side(zoom: u8) -> (n: u64)
    requires
        zoom <= MAX_ZOOM,
    ensures
        n == side(zoom as nat),
{
    let mut n: u64 = 1;
    let mut i: u8 = 0;
    proof {
        lemma2_to64();
    }
    while i < zoom
        invariant
            i <= zoom <= MAX_ZOOM,
            n == side(i as nat),
        decreases zoom - i,
    {
        proof {
            lemma_side_bound((i + 1) as nat);
            lemma_pow2_unfold((i + 1) as nat);
        }
        n = n * 2;
        i = i + 1;
    }
    n
}

/// Address of one tile: a zoom level and a column and row at that level.
#[derive(Clone, Copy, Debug, PartialEq, Eq, Structural)]
pub struct TileCoordinate {
    pub zoom: u8,
    pub x: u32,
    pub y: u32,
}

impl TileCoordinate {
    /// A tile is valid when its column and row lie inside the world at its zoom level.
    pub open spec fn wf(self) -> bool {
        &&& self.zoom <= MAX_ZOOM
        &&& self.x < side(self.zoom as nat)
        &&& self.y < side(self.zoom as nat)
    }

    /// Builds a tile address, or nothing when the address lies outside the world.
    pub fn new(zoom: u8, x: u32, y: u32) -> (t: Option<TileCoordinate>)
        ensures
            t is Some <==> (TileCoordinate { zoom, x, y }).wf(),
            t is Some ==> t->0 == (TileCoordinate { zoom, x, y }),
    {
        if zoom > MAX_ZOOM {
            return None;
        }
        let n: u64 = grid_side(zoom);
        if (x as u64) < n && (y as u64) < n {
            Some(TileCoordinate { zoom, x, y })
        } else {
            None
        }
    }
}

/// A rectangular span of tiles at one zoom level, bounds included.
#[derive(Clone, Copy, Debug, PartialEq, Eq, Structural)]
pub struct TileGrid {
    pub zoom: u8,
    pub x_min: u32,
    pub x_max: u32,
    pub y_min: u32,
    pub y_max: u32,
}

impl TileGrid {
    /// The bounds are ordered and lie inside the world at the grid's zoom level.
    pub open spec fn wf(self) -> bool {
        &&& self.zoom <= MAX_ZOOM
        &&& self.x_min <= self.x_max < side(self.zoom as nat)
        &&& self.y_min <= self.y_max < side(self.zoom as nat)
    }

    /// Number of tile columns.
    pub open spec fn spec_count_x(self) -> int {
        self.x_max - self.x_min + 1
    }

    /// Number of tile rows.
    pub open spec fn spec_count_y(self) -> int {
        self.y_max - self.y_min + 1
    }

    /// Whether `t` is one of the grid's tiles.
    pub open spec fn contains(self, t: TileCoordinate) -> bool {
        &&& t.zoom == self.zoom
        &&& self.x_min <= t.x <= self.x_max
        &&& self.y_min <= t.y <= self.y_max
    }

    /// The grid is the smallest span that holds every tile of `tiles` at the grid's zoom
    /// level: it holds them all, and each of its four bounds is reached by one of them.
    pub open spec fn is_span_of(self, tiles: Seq<TileCoordinate>) -> bool {
        &&& forall|i: int|
            0 <= i < tiles.len() && (#[trigger] tiles[i]).zoom == self.zoom ==> self.contains(
                tiles[i],
            )
        &&& exists|i: int|
            0 <= i < tiles.len() && (#[trigger] tiles[i]).zoom == self.zoom && tiles[i].x
                == self.x_min
        &&& exists|i: int|
            0 <= i < tiles.len() && (#[trigger] tiles[i]).zoom == self.zoom && tiles[i].x
                == self.x_max
        &&& exists|i: int|
            0 <= i < tiles.len() && (#[trigger] tiles[i]).zoom == self.zoom && tiles[i].y
                == self.y_min
        &&& exists|i: int|
            0 <= i < tiles.len() && (#[trigger] tiles[i]).zoom == self.zoom && tiles[i].y
                == self.y_max
    }

    /// Number of tile columns.
    pub fn count_x(&self) -> (n: u64)
        requires
            self.x_min <= self.x_max,
        ensures
            n == self.spec_count_x(),
    {
        (self.x_max - self.x_min) as u64 + 1
    }

    /// Number of tile rows.
    pub fn count_y(&self) -> (n: u64)
        requires
            self.y_min <= self.y_max,
        ensures
            n == self.spec_count_y(),
    {
        (self.y_max - self.y_min) as u64 + 1
    }

    /// Number of tiles.
    pub fn count(&self) -> (n: u64)
        requires
            self.wf(),
        ensures
            n == self.spec_count_x() * self.spec_count_y(),
    {
        let cx: u64 = self.count_x();
        let cy: u64 = self.count_y();
        proof {
            lemma_side_bound(self.zoom as nat);
            assert(cx * cy <= 0x8000_0000 * 0x8000_0000) by (nonlinear_arith)
                requires
                    0 <= cx <= 0x8000_0000,
                    0 <= cy <= 0x8000_0000,
            ;
        }
        cx * cy
    }

    /// Whether `t` is one of the grid's tiles.
    pub fn has_tile(&self, t: TileCoordinate) -> (b: bool)
        ensures
            b == self.contains(t),
    {
        t.zoom == self.zoom && self.x_min <= t.x && t.x <= self.x_max && self.y_min <= t.y && t.y
            <= self.y_max
    }

    /// The tile that comes at place `k` when the grid is walked column by column, each
    /// column from its top.
    pub open spec fn spec_tile_at(self, k: int) -> TileCoordinate {
        TileCoordinate {
            zoom: self.zoom,
            x: (self.x_min + k / self.spec_count_y()) as u32,
            y: (self.y_min + k % self.spec_count_y()) as u32,
        }
    }

    /// All tiles of the grid, column by column and each column from its top; nothing
    /// where they are more than a vector can hold.
    pub fn tiles(&self) -> (all: Option<Vec<TileCoordinate>>)
        requires
            self.wf(),
        ensures
            all is Some <==> self.spec_count_x() * self.spec_count_y() <= usize::MAX,
            all is Some ==> all->0@.len() == self.spec_count_x() * self.spec_count_y(),
            all is Some ==> forall|k: int|
                0 <= k < all->0@.len() ==> #[trigger] all->0@[k] == self.spec_tile_at(k)
                    && self.contains(all->0@[k]) && all->0@[k].wf(),
    {
        let cx: u64 = self.count_x();
        let cy: u64 = self.count_y();
        let total: u64 = self.count();
        if total > usize::MAX as u64 {
            return None;
        }
        let mut all: Vec<TileCoordinate> = Vec::new();
        let mut x: u32 = self.x_min;
        let mut col: u64 = 0;
        while col < cx
            invariant
                self.wf(),
                cx == self.spec_count_x(),
                cy == self.spec_count_y(),
                col <= cx,
                col < cx ==> x == self.x_min + col,
                all@.len() == col * cy,
                forall|k: int|
                    0 <= k < all@.len() ==> #[trigger] all@[k] == self.spec_tile_at(k)
                        && self.contains(all@[k]) && all@[k].wf(),
            decreases cx - col,
        {
            let mut y: u32 = self.y_min;
            let mut row: u64 = 0;
            while row < cy
                invariant
                    self.wf(),
                    cx == self.spec_count_x(),
                    cy == self.spec_count_y(),
                    col < cx,
                    row <= cy,
                    x == self.x_min + col,
                    row < cy ==> y == self.y_min + row,
                    all@.len() == col * cy + row,
                    forall|k: int|
                        0 <= k < all@.len() ==> #[trigger] all@[k] == self.spec_tile_at(k)
                            && self.contains(all@[k]) && all@[k].wf(),
                decreases cy - row,
            {
                proof {
                    let k = all@.len() as int;
                    assert(k / (cy as int) == col && k % (cy as int) == row) by (nonlinear_arith)
                        requires
                            k == col * cy + row,
                            0 <= row < cy,
                            0 <= col,
                    ;
                }
                all.push(TileCoordinate { zoom: self.zoom, x, y });
                row = row + 1;
                if row < cy {
                    y = y + 1;
                }
            }
            proof {
                assert(col * cy + cy == (col + 1) * cy) by (nonlinear_arith);
            }
            col = col + 1;
            if col < cx {
                x = x + 1;
            }
        }
        Some(all)
    }

    /// The smallest span that holds every tile of `tiles` at `zoom`; tiles of other zoom
    /// levels are passed over. There is no span when no tile is at `zoom`.
    pub fn span_of(tiles: &Vec<TileCoordinate>, zoom: u8) -> (g: Option<TileGrid>)
        ensures
            g is None <==> forall|i: int|
                0 <= i < tiles@.len() ==> (#[trigger] tiles@[i]).zoom != zoom,
            g is Some ==> g->0.zoom == zoom && g->0.is_span_of(tiles@),
            g is Some && (forall|i: int| 0 <= i < tiles@.len() ==> (#[trigger] tiles@[i]).wf())
                ==> g->0.wf(),
    {
        let mut found: Option<TileGrid> = None;
        let mut k: usize = 0;
        while k < tiles.len()
            invariant
                k <= tiles@.len(),
                found is None <==> forall|i: int|
                    0 <= i < k ==> (#[trigger] tiles@[i]).zoom != zoom,
                found is Some ==> found->0.zoom == zoom && found->0.is_span_of(
                    tiles@.subrange(0, k as int),
                ),
                found is Some && (forall|i: int|
                    0 <= i < tiles@.len() ==> (#[trigger] tiles@[i]).wf()) ==> found->0.wf(),
            decreases tiles@.len() - k,
        {
            let t = tiles[k];
            let ghost before = tiles@.subrange(0, k as int);
            let ghost after = tiles@.subrange(0, k + 1);
            proof {
                assert(after =~= before.push(t));
            }
            if t.zoom == zoom {
                match found {
                    None => {
                        let g = TileGrid { zoom, x_min: t.x, x_max: t.x, y_min: t.y, y_max: t.y };
                        proof {
                            assert(tiles@[k as int].zoom == zoom);
                            assert forall|i: int|
                                0 <= i < after.len() && (#[trigger] after[i]).zoom
                                    == zoom implies g.contains(after[i]) by {
                                if i < k {
                                    assert(tiles@[i].zoom != zoom);
                                }
                            }
                            assert(after[k as int] == t);
                            assert(g.is_span_of(after));
                        }
                        found = Some(g);
                    },
                    Some(old_g) => {
                        let g = TileGrid {
                            zoom,
                            x_min: if t.x < old_g.x_min {
                                t.x
                            } else {
                                old_g.x_min
                            },
                            x_max: if t.x > old_g.x_max {
                                t.x
                            } else {
                                old_g.x_max
                            },
                            y_min: if t.y < old_g.y_min {
                                t.y
                            } else {
                                old_g.y_min
                            },
                            y_max: if t.y > old_g.y_max {
                                t.y
                            } else {
                                old_g.y_max
                            },
                        };
                        proof {
                            assert(tiles@[k as int].zoom == zoom);
                            lemma_span_extends(old_g, g, before, after, t);
                        }
                        found = Some(g);
                    },
                }
            } else {
                proof {
                    if found is Some {
                        lemma_span_skips(found->0, before, after, t);
                    }
                }
            }
            k = k + 1;
        }
        proof {
            assert(tiles@.subrange(0, k as int) =~= tiles@);
        }
        found
    }
}

/// Appending a tile of another zoom level leaves the span as it is.
proof fn lemma_span_skips(
    g: TileGrid,
    before: Seq<TileCoordinate>,
    after: Seq<TileCoordinate>,
    t: TileCoordinate,
)
    requires
        after == before.push(t),
        t.zoom != g.zoom,
        g.is_span_of(before),
    ensures
        g.is_span_of(after),
{
    assert forall|i: int| 0 <= i < after.len() && (#[trigger] after[i]).zoom == g.zoom implies g.contains(
        after[i],
    ) by {
        assert(i < before.len());
        assert(after[i] == before[i]);
    }
    let ix0 = choose|i: int|
        0 <= i < before.len() && (#[trigger] before[i]).zoom == g.zoom && before[i].x == g.x_min;
    assert(after[ix0] == before[ix0]);
    let ix1 = choose|i: int|
        0 <= i < before.len() && (#[trigger] before[i]).zoom == g.zoom && before[i].x == g.x_max;
    assert(after[ix1] == before[ix1]);
    let iy0 = choose|i: int|
        0 <= i < before.len() && (#[trigger] before[i]).zoom == g.zoom && before[i].y == g.y_min;
    assert(after[iy0] == before[iy0]);
    let iy1 = choose|i: int|
        0 <= i < before.len() && (#[trigger] before[i]).zoom == g.zoom && before[i].y == g.y_max;
    assert(after[iy1] == before[iy1]);
}

/// Appending a tile of the span's zoom level widens each bound just as far as that tile.
proof fn lemma_span_extends(
    old_g: TileGrid,
    g: TileGrid,
    before: Seq<TileCoordinate>,
    after: Seq<TileCoordinate>,
    t: TileCoordinate,
)
    requires
        after == before.push(t),
        t.zoom == g.zoom,
        old_g.zoom == g.zoom,
        old_g.is_span_of(before),
        g.x_min == if t.x < old_g.x_min { t.x } else { old_g.x_min },
        g.x_max == if t.x > old_g.x_max { t.x } else { old_g.x_max },
        g.y_min == if t.y < old_g.y_min { t.y } else { old_g.y_min },
        g.y_max == if t.y > old_g.y_max { t.y } else { old_g.y_max },
    ensures
        g.is_span_of(after),
{
    let last = before.len() as int;
    assert(after[last] == t);
    assert forall|i: int| 0 <= i < after.len() && (#[trigger] after[i]).zoom == g.zoom implies g.contains(
        after[i],
    ) by {
        if i < before.len() {
            assert(after[i] == before[i]);
            assert(old_g.contains(before[i]));
        }
    }
    let ix0 = choose|i: int|
        0 <= i < before.len() && (#[trigger] before[i]).zoom == old_g.zoom && before[i].x
            == old_g.x_min;
    assert(after[ix0] == before[ix0]);
    let ix1 = choose|i: int|
        0 <= i < before.len() && (#[trigger] before[i]).zoom == old_g.zoom && before[i].x
            == old_g.x_max;
    assert(after[ix1] == before[ix1]);
    let iy0 = choose|i: int|
        0 <= i < before.len() && (#[trigger] before[i]).zoom == old_g.zoom && before[i].y
            == old_g.y_min;
    assert(after[iy0] == before[iy0]);
    let iy1 = choose|i: int|
        0 <= i < before.len() && (#[trigger] before[i]).zoom == old_g.zoom && before[i].y
            == old_g.y_max;
    assert(after[iy1] == before[iy1]);
    let jx0 = if t.x < old_g.x_min { last } else { ix0 };
    assert(after[jx0].zoom == g.zoom && after[jx0].x == g.x_min);
    let jx1 = if t.x > old_g.x_max { last } else { ix1 };
    assert(after[jx1].zoom == g.zoom && after[jx1].x == g.x_max);
    let jy0 = if t.y < old_g.y_min { last } else { iy0 };
    assert(after[jy0].zoom == g.zoom && after[jy0].y == g.y_min);
    let jy1 = if t.y > old_g.y_max { last } else { iy1 };
    assert(after[jy1].zoom == g.zoom && after[jy1].y == g.y_max);
}

/// The tile at place `k` of the walk lies in the grid, `k` divided by the number of rows
/// giving its column and the remainder its row.
pub proof fn lemma_tile_at(grid: TileGrid, k: int)
    requires
        grid.wf(),
        0 <= k < grid.spec_count_x() * grid.spec_count_y(),
    ensures
        grid.spec_tile_at(k).x == grid.x_min + k / grid.spec_count_y(),
        grid.spec_tile_at(k).y == grid.y_min + k % grid.spec_count_y(),
        grid.contains(grid.spec_tile_at(k)),
        grid.spec_tile_at(k).wf(),
{
    let cx = grid.spec_count_x();
    let cy = grid.spec_count_y();
    assert(0 <= k / cy < cx && 0 <= k % cy < cy) by (nonlinear_arith)
        requires
            0 <= k < cx * cy,
            cy > 0,
    ;
}

/// The walk comes to each tile of the grid once: two places hold two tiles.
pub proof fn lemma_tile_at_is_injective(grid: TileGrid, j: int, k: int)
    requires
        grid.wf(),
        0 <= j < grid.spec_count_x() * grid.spec_count_y(),
        0 <= k < grid.spec_count_x() * grid.spec_count_y(),
        j != k,
    ensures
        grid.spec_tile_at(j) != grid.spec_tile_at(k),
{
    let cy = grid.spec_count_y();
    lemma_tile_at(grid, j);
    lemma_tile_at(grid, k);
    assert(j == (j / cy) * cy + j % cy && k == (k / cy) * cy + k % cy) by (nonlinear_arith)
        requires
            cy > 0,
    ;
    if j / cy == k / cy && j % cy == k % cy {
        assert(false);
    }
}

} // verus!
