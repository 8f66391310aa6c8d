//! The terrain grid the collision resolver probes: a rectangular grid of
//! tiles whose solidity is stored as a four-bit mask per tile (one bit per
//! quarter tile; `0x0F` is a fully solid tile).

use vstd::prelude::*;
use crate::geom::{FxVec, FxRect, vec_wide, rect_in_range};
use crate::fixed::floor_div;

verus! {

/// Largest grid edge, in tiles.
pub const GRID_MAX_DIM: usize = 4096;

/// Largest tile size: a thousand world units.
pub const TILE_SIZE_MAX: i64 = 1_000_000;

/// Largest border thickness around the world rectangle.
pub const BORDER_MAX: i64 = 1_000_000_000;

/// A tile coordinate in the grid.
#[derive(Clone, Copy, Debug, PartialEq, Eq, Structural)]
pub struct GridIndex {
    pub x: i64,
    pub y: i64,
}

/// The terrain: tile dimensions, tile size, a border thickness for the
/// world's bounding rectangle, and one solidity mask per tile.
pub struct TerrainGrid {
    width: usize,
    height: usize,
    tile_size: i64,
    border: i64,
    masks: Vec<u8>,
}

impl TerrainGrid {
    /// Grid width in tiles.
    pub closed spec fn spec_width(self) -> int {
        self.width as int
    }

    /// Grid height in tiles.
    pub closed spec fn spec_height(self) -> int {
        self.height as int
    }

    /// Edge length of one tile.
    pub closed spec fn spec_tile_size(self) -> int {
        self.tile_size as int
    }

    /// Border thickness of the world's bounding rectangle.
    pub closed spec fn spec_border(self) -> int {
        self.border as int
    }

    /// The solidity mask of tile `(x, y)`.
    pub closed spec fn spec_mask_at(self, x: int, y: int) -> u8 {
        self.masks@[y * self.spec_width() + x]
    }

    /// Well-formed terrain: bounded dimensions and a mask per tile.
    pub closed spec fn wf(self) -> bool {
        &&& self.masks@.len() == self.spec_width() * self.spec_height()
        &&& 0 < self.spec_width() <= GRID_MAX_DIM
        &&& 0 < self.spec_height() <= GRID_MAX_DIM
        &&& 0 < self.spec_tile_size() <= TILE_SIZE_MAX
        &&& 0 <= self.spec_border() <= BORDER_MAX
    }

    /// A grid with every tile clear.
    pub fn new(width: usize, height: usize, tile_size: i64, border: i64) -> (r: TerrainGrid)
        requires
            0 < width <= GRID_MAX_DIM,
            0 < height <= GRID_MAX_DIM,
            0 < tile_size <= TILE_SIZE_MAX,
            0 <= border <= BORDER_MAX,
        ensures
            r.wf(),
            r.spec_width() == width,
            r.spec_height() == height,
            r.spec_tile_size() == tile_size,
            r.spec_border() == border,
            forall|x: int, y: int|
                0 <= x < width && 0 <= y < height ==> r.spec_mask_at(x, y) == 0u8,
    {
        proof {
            assert(width * height <= GRID_MAX_DIM * GRID_MAX_DIM) by (nonlinear_arith)
                requires
                    0 < width <= GRID_MAX_DIM,
                    0 < height <= GRID_MAX_DIM,
            ;
        }
        let n = width * height;
        let mut masks: Vec<u8> = Vec::new();
        let mut i: usize = 0;
        while i < n
            invariant
                i <= n,
                masks@.len() == i,
                forall|j: int| 0 <= j < i ==> masks@[j] == 0u8,
            decreases n - i,
        {
            masks.push(0);
            i = i + 1;
        }
        let r = TerrainGrid { width, height, tile_size, border, masks };
        proof {
            assert forall|x: int, y: int|
                0 <= x < width && 0 <= y < height implies r.spec_mask_at(x, y) == 0u8 by {
                assert(0 <= y * (width as int) + x < (width as int) * (height as int))
                    by (nonlinear_arith)
                    requires
                        0 <= x < width,
                        0 <= y < height,
                ;
            }
        }
        r
    }

    /// Set the solidity mask of tile `(x, y)`.
    pub fn set_mask(&mut self, x: usize, y: usize, mask: u8)
        requires
            old(self).wf(),
            x < old(self).spec_width(),
            y < old(self).spec_height(),
        ensures
            final(self).wf(),
            final(self).spec_width() == old(self).spec_width(),
            final(self).spec_height() == old(self).spec_height(),
            final(self).spec_tile_size() == old(self).spec_tile_size(),
            final(self).spec_border() == old(self).spec_border(),
            final(self).spec_mask_at(x as int, y as int) == mask,
            forall|a: int, b: int|
                0 <= a < old(self).spec_width() && 0 <= b < old(self).spec_height() && !(a == x
                    && b == y) ==> final(self).spec_mask_at(a, b) == old(self).spec_mask_at(a, b),
    {
        proof {
            let w = old(self).spec_width();
            let h = old(self).spec_height();
            assert(0 <= (y as int) * w + x < w * h && (y as int) * w + x < 0x1000000)
                by (nonlinear_arith)
                requires
                    0 <= x < w,
                    0 <= y < h,
                    w <= 4096,
                    h <= 4096,
            ;
        }
        let idx = y * self.width + x;
        self.masks[idx] = mask;
        proof {
            assert forall|a: int, b: int|
                0 <= a < self.spec_width() && 0 <= b < self.spec_height() && !(a == x && b == y)
                    implies self.spec_mask_at(a, b) == old(self).spec_mask_at(a, b) by {
                assert(b * self.spec_width() + a != (y as int) * self.spec_width() + x && 0 <= b
                    * self.spec_width() + a < self.spec_width() * self.spec_height())
                    by (nonlinear_arith)
                    requires
                        0 <= a < self.spec_width(),
                        0 <= b < self.spec_height(),
                        0 <= x < self.spec_width(),
                        0 <= y < self.spec_height(),
                        !(a == x && b == y),
                ;
            }
        }
    }

    /// Edge length of one tile.
    pub fn tile_size(&self) -> (r: i64)
        requires
            self.wf(),
        ensures
            r == self.spec_tile_size(),
            0 < r <= TILE_SIZE_MAX,
    {
        self.tile_size
    }

    /// The tile a world position falls in, or none outside the grid.
    pub open spec fn spec_grid_index(self, pos: FxVec) -> Option<GridIndex> {
        let gx = pos.x as int / self.spec_tile_size();
        let gy = pos.y as int / self.spec_tile_size();
        if gx < 0 || gy < 0 || gx >= self.spec_width() || gy >= self.spec_height() {
            None
        } else {
            Some(GridIndex { x: gx as i64, y: gy as i64 })
        }
    }

    /// Locate the tile a world position falls in (see [`spec_grid_index`]).
    pub fn grid_index(&self, pos: FxVec) -> (r: Option<GridIndex>)
        requires
            self.wf(),
            vec_wide(pos),
        ensures
            r == self.spec_grid_index(pos),
            r matches Some(g) ==> 0 <= g.x < self.spec_width() && 0 <= g.y < self.spec_height()
                && g.x <= 0x10000 && g.y <= 0x10000,
    {
        let gx = floor_div(pos.x, self.tile_size);
        let gy = floor_div(pos.y, self.tile_size);
        if gx < 0 || gy < 0 || gx >= self.width as i64 || gy >= self.height as i64 {
            None
        } else {
            Some(GridIndex { x: gx, y: gy })
        }
    }

    /// The world rectangle of tile `(x, y)`.
    pub open spec fn spec_tile_bounds(self, x: int, y: int) -> FxRect {
        FxRect {
            x: (x * self.spec_tile_size()) as i64,
            y: (y * self.spec_tile_size()) as i64,
            w: self.spec_tile_size() as i64,
            h: self.spec_tile_size() as i64,
        }
    }

    /// The world rectangle of tile `(x, y)`.
    pub fn tile_bounds(&self, x: usize, y: usize) -> (r: FxRect)
        requires
            self.wf(),
            x < self.spec_width(),
            y < self.spec_height(),
        ensures
            r == self.spec_tile_bounds(x as int, y as int),
            rect_in_range(r),
    {
        proof {
            assert(0 <= (x as int) * self.spec_tile_size() <= GRID_MAX_DIM * (TILE_SIZE_MAX as int)
                && 0 <= (y as int) * self.spec_tile_size() <= GRID_MAX_DIM * (
            TILE_SIZE_MAX as int)) by (nonlinear_arith)
                requires
                    0 <= x <= GRID_MAX_DIM,
                    0 <= y <= GRID_MAX_DIM,
                    0 < self.spec_tile_size() <= TILE_SIZE_MAX,
            ;
        }
        FxRect {
            x: (x as i64) * self.tile_size,
            y: (y as i64) * self.tile_size,
            w: self.tile_size,
            h: self.tile_size,
        }
    }

    /// The world's bounding rectangle: the tiled area grown by the border
    /// thickness on every side.
    pub open spec fn spec_border_hitbox(self) -> FxRect {
        FxRect {
            x: (-self.spec_border()) as i64,
            y: (-self.spec_border()) as i64,
            w: (self.spec_width() * self.spec_tile_size() + 2 * self.spec_border()) as i64,
            h: (self.spec_height() * self.spec_tile_size() + 2 * self.spec_border()) as i64,
        }
    }

    /// The world's bounding rectangle (see [`spec_border_hitbox`]).
    pub fn get_border_hitbox(&self) -> (r: FxRect)
        requires
            self.wf(),
        ensures
            r == self.spec_border_hitbox(),
            rect_in_range(r),
    {
        proof {
            assert(0 < self.spec_width() * self.spec_tile_size() <= GRID_MAX_DIM * (
            TILE_SIZE_MAX as int) && 0 < self.spec_height() * self.spec_tile_size() <= GRID_MAX_DIM
                * (TILE_SIZE_MAX as int)) by (nonlinear_arith)
                requires
                    0 < self.spec_width() <= GRID_MAX_DIM,
                    0 < self.spec_height() <= GRID_MAX_DIM,
                    0 < self.spec_tile_size() <= TILE_SIZE_MAX,
            ;
        }
        let world_w = (self.width as i64) * self.tile_size;
        let world_h = (self.height as i64) * self.tile_size;
        FxRect {
            x: -self.border,
            y: -self.border,
            w: world_w + 2 * self.border,
            h: world_h + 2 * self.border,
        }
    }

    /// The solid rectangles of tile `(x, y)`: nothing outside the grid or
    /// for a clear tile, the whole tile for `0x0F`, else one quarter-tile
    /// rectangle per set bit.
    pub open spec fn spec_cell_rects(self, x: int, y: int) -> Seq<FxRect> {
        if !(0 <= x < self.spec_width() && 0 <= y < self.spec_height()) {
            Seq::empty()
        } else {
            let m = self.spec_mask_at(x, y) & 0x0F;
            if m == 0 {
                Seq::empty()
            } else if m == 0x0F {
                seq![self.spec_tile_bounds(x, y)]
            } else {
                let tile = self.spec_tile_bounds(x, y);
                let hw = tile.w as int / 2;
                let hh = tile.h as int / 2;
                (if m & 0x01 != 0 {
                    seq![FxRect { x: tile.x, y: tile.y, w: hw as i64, h: hh as i64 }]
                } else {
                    Seq::<FxRect>::empty()
                }) + (if m & 0x02 != 0 {
                    seq![
                        FxRect {
                            x: (tile.x + hw) as i64,
                            y: tile.y,
                            w: hw as i64,
                            h: hh as i64,
                        },
                    ]
                } else {
                    Seq::<FxRect>::empty()
                }) + (if m & 0x04 != 0 {
                    seq![
                        FxRect {
                            x: tile.x,
                            y: (tile.y + hh) as i64,
                            w: hw as i64,
                            h: hh as i64,
                        },
                    ]
                } else {
                    Seq::<FxRect>::empty()
                }) + (if m & 0x08 != 0 {
                    seq![
                        FxRect {
                            x: (tile.x + hw) as i64,
                            y: (tile.y + hh) as i64,
                            w: hw as i64,
                            h: hh as i64,
                        },
                    ]
                } else {
                    Seq::<FxRect>::empty()
                })
            }
        }
    }

    /// The solid rectangles of row `y` from column `x` through `x_end`.
    pub open spec fn spec_row_rects(self, y: int, x: int, x_end: int) -> Seq<FxRect>
        decreases x_end + 1 - x,
    {
        if x > x_end {
            Seq::empty()
        } else {
            self.spec_cell_rects(x, y) + self.spec_row_rects(y, x + 1, x_end)
        }
    }

    /// The solid rectangles of rows `y` through `y_end`, columns `x0`
    /// through `x_end`.
    pub open spec fn spec_rows_rects(self, y: int, y_end: int, x0: int, x_end: int) -> Seq<FxRect>
        decreases y_end + 1 - y,
    {
        if y > y_end {
            Seq::empty()
        } else {
            self.spec_row_rects(y, x0, x_end) + self.spec_rows_rects(y + 1, y_end, x0, x_end)
        }
    }

    /// Every solid rectangle within `radius` tiles of `grid`, row-major.
    pub open spec fn spec_tiles_around(self, grid: GridIndex, radius: int) -> Seq<FxRect> {
        self.spec_rows_rects(grid.y - radius, grid.y + radius, grid.x - radius, grid.x + radius)
    }

    /// Append the solid rectangles of one cell to `out` (see
    /// [`Self::spec_cell_rects`]).
    #[verifier::rlimit(60)]
    fn push_cell_rects(&self, x: i64, y: i64, out: &mut Vec<FxRect>)
        requires
            self.wf(),
            -0x20000 <= x <= 0x20000,
            -0x20000 <= y <= 0x20000,
        ensures
            final(out)@ == old(out)@ + self.spec_cell_rects(x as int, y as int),
            crate::collision::colliders_wf(old(out)@) ==> crate::collision::colliders_wf(
                final(out)@,
            ),
    {
        let ghost before = out@;
        let ghost cell = self.spec_cell_rects(x as int, y as int);
        if x >= 0 && y >= 0 && (x as usize) < self.width && (y as usize) < self.height {
            let ux = x as usize;
            let uy = y as usize;
            proof {
                assert(0 <= (uy as int) * self.spec_width() + ux < self.spec_width()
                    * self.spec_height() && (uy as int) * self.spec_width() + ux < 0x1000000)
                    by (nonlinear_arith)
                    requires
                        0 <= ux < self.spec_width(),
                        0 <= uy < self.spec_height(),
                        self.spec_width() <= 4096,
                        self.spec_height() <= 4096,
                ;
            }
            let idx = uy * self.width + ux;
            let m = self.masks[idx] & 0x0F;
            proof {
                assert(m == (self.spec_mask_at(ux as int, uy as int) & 0x0F));
            }
            if m != 0 {
                let tile = self.tile_bounds(ux, uy);
                if m == 0x0F {
                    out.push(tile);
                } else {
                    let hw = tile.w / 2;
                    let hh = tile.h / 2;
                    if m & 0x01 != 0 {
                        out.push(FxRect { x: tile.x, y: tile.y, w: hw, h: hh });
                    }
                    if m & 0x02 != 0 {
                        out.push(FxRect { x: tile.x + hw, y: tile.y, w: hw, h: hh });
                    }
                    if m & 0x04 != 0 {
                        out.push(FxRect { x: tile.x, y: tile.y + hh, w: hw, h: hh });
                    }
                    if m & 0x08 != 0 {
                        out.push(FxRect { x: tile.x + hw, y: tile.y + hh, w: hw, h: hh });
                    }
                }
            }
        }
        proof {
            assert(out@ =~= before + cell);
            self.lemma_cell_rects_wide(x as int, y as int);
            if crate::collision::colliders_wf(before) {
                assert forall|i: int| 0 <= i < out@.len() implies crate::geom::rect_wide(
                    #[trigger] out@[i],
                ) by {
                    if i >= before.len() {
                        assert(out@[i] == cell[i - before.len()]);
                    }
                }
            }
        }
    }

    /// Every rectangle a cell contributes lies in the wide range.
    proof fn lemma_cell_rects_wide(self, x: int, y: int)
        requires
            self.wf(),
        ensures
            forall|i: int|
                0 <= i < self.spec_cell_rects(x, y).len() ==> crate::geom::rect_wide(
                    #[trigger] self.spec_cell_rects(x, y)[i],
                ),
    {
        if 0 <= x < self.spec_width() && 0 <= y < self.spec_height() {
            assert(0 <= x * self.spec_tile_size() <= 4096 * (TILE_SIZE_MAX as int) && 0 <= y
                * self.spec_tile_size() <= 4096 * (TILE_SIZE_MAX as int)) by (nonlinear_arith)
                requires
                    0 <= x <= 4096,
                    0 <= y <= 4096,
                    0 < self.spec_tile_size() <= TILE_SIZE_MAX,
            ;
        }
    }

    /// The solid rectangles within `radius` tiles of `grid`, as a fresh
    /// vector (see [`Self::fill_hitboxes_around_grid`]).
    pub fn hitboxes_around_grid(&self, grid: GridIndex, radius: i64) -> (r: Vec<FxRect>)
        requires
            self.wf(),
            -0x10000 <= grid.x <= 0x10000,
            -0x10000 <= grid.y <= 0x10000,
            0 <= radius <= 8,
        ensures
            r@ == self.spec_tiles_around(grid, radius as int),
            crate::collision::colliders_wf(r@),
    {
        let mut hitboxes: Vec<FxRect> = Vec::new();
        self.fill_hitboxes_around_grid(grid, radius, &mut hitboxes);
        hitboxes
    }

    /// Fill `out` (cleared first) with every solid rectangle within
    /// `radius` tiles of `grid`, row by row.
    pub fn fill_hitboxes_around_grid(&self, grid: GridIndex, radius: i64, out: &mut Vec<FxRect>)
        requires
            self.wf(),
            -0x10000 <= grid.x <= 0x10000,
            -0x10000 <= grid.y <= 0x10000,
            0 <= radius <= 8,
        ensures
            final(out)@ == self.spec_tiles_around(grid, radius as int),
            crate::collision::colliders_wf(final(out)@),
    {
        out.clear();
        let start_x = grid.x - radius;
        let end_x = grid.x + radius;
        let start_y = grid.y - radius;
        let end_y = grid.y + radius;
        let ghost expected = self.spec_tiles_around(grid, radius as int);
        let mut y = start_y;
        proof {
            assert(expected =~= out@ + self.spec_rows_rects(
                y as int,
                end_y as int,
                start_x as int,
                end_x as int,
            ));
        }
        while y <= end_y
            invariant
                self.wf(),
                start_y <= y <= end_y + 1,
                -0x20000 <= start_x <= 0x20000,
                -0x20000 <= end_x <= 0x20000,
                -0x20000 <= start_y <= 0x20000,
                -0x20000 <= end_y <= 0x20000,
                start_x <= end_x + 1,
                expected =~= out@ + self.spec_rows_rects(
                    y as int,
                    end_y as int,
                    start_x as int,
                    end_x as int,
                ),
                crate::collision::colliders_wf(out@),
            decreases end_y + 1 - y,
        {
            let mut x = start_x;
            proof {
                assert(self.spec_rows_rects(y as int, end_y as int, start_x as int, end_x as int)
                    =~= self.spec_row_rects(y as int, x as int, end_x as int)
                    + self.spec_rows_rects(y + 1, end_y as int, start_x as int, end_x as int));
            }
            while x <= end_x
                invariant
                    self.wf(),
                    start_x <= x <= end_x + 1,
                    -0x20000 <= start_x <= 0x20000,
                    -0x20000 <= end_x <= 0x20000,
                    -0x20000 <= y <= 0x20000,
                    expected =~= out@ + self.spec_row_rects(y as int, x as int, end_x as int)
                        + self.spec_rows_rects(y + 1, end_y as int, start_x as int, end_x as int),
                    crate::collision::colliders_wf(out@),
                decreases end_x + 1 - x,
            {
                self.push_cell_rects(x, y, out);
                proof {
                    assert(expected =~= out@ + self.spec_row_rects(y as int, x + 1, end_x as int)
                        + self.spec_rows_rects(y + 1, end_y as int, start_x as int, end_x as int));
                }
                x = x + 1;
            }
            y = y + 1;
        }
        proof {
            assert(expected =~= out@);
        }
    }
}

} // verus!
