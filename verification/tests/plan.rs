use mtb::plan::{plan_mosaic, MosaicPlan, ZoomTooCoarseError};
use mtb::tile::TileGrid;

fn grid(x_min: u32, x_max: u32, y_min: u32, y_max: u32) -> TileGrid {
    TileGrid {
        zoom: 10,
        x_min,
        x_max,
        y_min,
        y_max,
    }
}

#[test]
fn two_by_two_tiles_at_width_512() {
    let g = grid(547, 548, 380, 381);
    let plan = plan_mosaic(&g, 512).unwrap();
    assert_eq!(plan.res, 256);
    assert_eq!(plan.width, 512);
    assert_eq!(plan.height, 512);
    assert_eq!(plan.grid, g);
}

#[test]
fn width_is_rounded_down_to_whole_tiles() {
    let g = grid(10, 12, 20, 21);
    let plan = plan_mosaic(&g, 1000).unwrap();
    assert_eq!(
        plan,
        MosaicPlan {
            grid: g,
            res: 333,
            width: 999,
            height: 666
        }
    );
}

#[test]
fn tall_grid_gives_a_tall_image() {
    let g = grid(5, 5, 0, 9);
    let plan = plan_mosaic(&g, 2048).unwrap();
    assert_eq!(plan.res, 2048);
    assert_eq!(plan.width, 2048);
    assert_eq!(plan.height, 20480);
}

#[test]
fn one_pixel_a_tile_is_enough() {
    let g = grid(0, 3, 0, 0);
    let plan = plan_mosaic(&g, 4).unwrap();
    assert_eq!(plan.res, 1);
    assert_eq!(plan.width, 4);
    assert_eq!(plan.height, 1);
}

#[test]
fn fewer_pixels_than_columns_is_too_coarse() {
    let g = grid(0, 3, 0, 0);
    assert_eq!(
        plan_mosaic(&g, 3),
        Err(ZoomTooCoarseError {
            tile_count_x: 4,
            image_width: 3
        })
    );
    assert_eq!(
        plan_mosaic(&g, 0),
        Err(ZoomTooCoarseError {
            tile_count_x: 4,
            image_width: 0
        })
    );
}

#[test]
fn single_tile_with_no_width_is_too_coarse() {
    let g = grid(7, 7, 7, 7);
    assert_eq!(
        plan_mosaic(&g, 0),
        Err(ZoomTooCoarseError {
            tile_count_x: 1,
            image_width: 0
        })
    );
    assert_eq!(plan_mosaic(&g, 1).unwrap().res, 1);
}

#[test]
fn largest_width_on_the_widest_grid_does_not_overflow() {
    let g = TileGrid {
        zoom: 31,
        x_min: 0,
        x_max: 0,
        y_min: 0,
        y_max: 2_147_483_647,
    };
    let plan = plan_mosaic(&g, u32::MAX).unwrap();
    assert_eq!(plan.res, u32::MAX);
    assert_eq!(plan.width, 4_294_967_295);
    assert_eq!(plan.height, 4_294_967_295u64 * 2_147_483_648u64);
}
