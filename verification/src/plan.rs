//! Sizing of the output image from a tile grid and a wanted width.

use crate::tile::TileGrid;
use vstd::prelude::*;

verus! {

/// The wanted width is smaller than the number of tile columns, so that no tile would
/// get even one pixel.
#[derive(Clone, Copy, Debug, PartialEq, Eq, Structural)]
pub struct ZoomTooCoarseError {
    pub tile_count_x: u64,
    pub image_width: u32,
}

/// A tile grid together with the pixel size of each tile and of the whole image.
#[derive(Clone, Copy, Debug, PartialEq, Eq, Structural)]
pub struct MosaicPlan {
    pub grid: TileGrid,
    /// Side of one tile in the output, in pixels.
    pub res: u32,
    pub width: u64,
    pub height: u64,
}

impl MosaicPlan {
    /// Every tile gets a square of `res` pixels, and the image is exactly as large as
    /// the grid of those squares.
    pub open spec fn wf(self) -> bool {
        &&& self.grid.wf()
        &&& self.res > 0
        &&& self.width == self.res * self.grid.spec_count_x()
        &&& self.height == self.res * self.grid.spec_count_y()
    }

    /// The plan that `grid` and `image_width` determine: the largest whole tile side
    /// that keeps the image within the wanted width.
    pub open spec fn is_plan_for(self, grid: TileGrid, image_width: u32) -> bool {
        &&& self.grid == grid
        &&& self.res == image_width as int / grid.spec_count_x()
        &&& self.width == self.res * grid.spec_count_x()
        &&& self.height == self.res * grid.spec_count_y()
    }
}

/// Sizes the output image for `grid`. The tile side is the wanted width divided by the
/// number of columns, rounded down; the image is that side times the number of columns
/// wide and times the number of rows high. Fails when the tile side would be zero.
pub fn plan_mosaic(grid: &TileGrid, image_width: u32) -> (r: Result<
    MosaicPlan,
    ZoomTooCoarseError,
>)
    requires
        grid.wf(),
    ensures
        r is Err <==> image_width < grid.spec_count_x(),
        r is Err ==> r->Err_0 == (ZoomTooCoarseError {
            tile_count_x: grid.spec_count_x() as u64,
            image_width,
        }),
        r is Ok ==> r->Ok_0.is_plan_for(*grid, image_width) && r->Ok_0.wf(),
        r is Ok ==> r->Ok_0.width <= image_width < r->Ok_0.width + grid.spec_count_x(),
{
    let count_x: u64 = grid.count_x();
    let count_y: u64 = grid.count_y();
    let res: u64 = image_width as u64 / count_x;
    if res == 0 {
        proof {
            assert(image_width < count_x) by (nonlinear_arith)
                requires
                    image_width as int / count_x as int == 0,
                    count_x > 0,
                    image_width >= 0,
            ;
        }
        return Err(ZoomTooCoarseError { tile_count_x: count_x, image_width });
    }
    proof {
        crate::tile::lemma_side_bound(grid.zoom as nat);
        assert(res <= image_width && res * count_x <= image_width < res * count_x + count_x
            && res * count_y <= 0xffff_ffff * 0x8000_0000 && count_x <= image_width)
            by (nonlinear_arith)
            requires
                res == image_width as int / count_x as int,
                res > 0,
                0 < count_x <= 0x8000_0000,
                0 < count_y <= 0x8000_0000,
                0 <= image_width <= 0xffff_ffff,
        ;
    }
    Ok(MosaicPlan { grid: *grid, res: res as u32, width: res * count_x, height: res * count_y })
}

/// The image keeps the proportions of the grid: its height is to its width as the
/// number of rows is to the number of columns.
pub proof fn lemma_plan_keeps_proportions(plan: MosaicPlan)
    requires
        plan.wf(),
    ensures
        plan.height * plan.grid.spec_count_x() == plan.width * plan.grid.spec_count_y(),
        plan.width as int / plan.grid.spec_count_x() == plan.res,
        plan.height as int / plan.grid.spec_count_y() == plan.res,
{
    let r = plan.res as int;
    let cx = plan.grid.spec_count_x();
    let cy = plan.grid.spec_count_y();
    assert((r * cy) * cx == (r * cx) * cy) by (nonlinear_arith);
    assert((r * cx) / cx == r) by (nonlinear_arith)
        requires
            cx > 0,
    ;
    assert((r * cy) / cy == r) by (nonlinear_arith)
        requires
            cy > 0,
    ;
}

} // verus!
