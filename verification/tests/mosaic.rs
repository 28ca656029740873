use mtb::mosaic::{assemble, progress_chunk, tile_origin, Mosaic, Raster};
use mtb::plan::{plan_mosaic, MosaicPlan};
use mtb::tile::{TileCoordinate, TileGrid};
use std::io::Cursor;

fn grid() -> TileGrid {
    TileGrid {
        zoom: 10,
        x_min: 547,
        x_max: 548,
        y_min: 380,
        y_max: 381,
    }
}

fn plan(image_width: u32) -> MosaicPlan {
    plan_mosaic(&grid(), image_width).unwrap()
}

fn tile(x: u32, y: u32) -> TileCoordinate {
    TileCoordinate { zoom: 10, x, y }
}

fn solid(width: u32, height: u32, value: u8) -> Raster {
    Raster::from_samples(width, height, vec![value; (4 * width * height) as usize]).unwrap()
}

fn sample(data: &[u8], width: u32, x: u32, y: u32, c: u32) -> u8 {
    data[(4 * (y * width + x) + c) as usize]
}

#[test]
fn blank_raster_is_all_zero() {
    let r = Raster::blank(3, 2).unwrap();
    assert_eq!(r.width(), 3);
    assert_eq!(r.height(), 2);
    assert_eq!(r.into_samples(), vec![0u8; 24]);
}

#[test]
fn blank_raster_may_be_empty() {
    let r = Raster::blank(0, 5).unwrap();
    assert_eq!((r.width(), r.height()), (0, 5));
    assert_eq!(r.into_samples(), Vec::<u8>::new());
}

#[test]
fn raster_keeps_the_samples_it_was_built_from() {
    let data: Vec<u8> = (0..24).collect();
    let r = Raster::from_samples(2, 3, data.clone()).unwrap();
    assert_eq!(r.width(), 2);
    assert_eq!(r.height(), 3);
    assert_eq!(r.into_samples(), data);
}

#[test]
fn raster_needs_four_samples_for_each_pixel() {
    assert!(Raster::from_samples(2, 3, vec![0u8; 23]).is_none());
    assert!(Raster::from_samples(2, 3, vec![0u8; 25]).is_none());
    assert!(Raster::from_samples(2, 3, Vec::new()).is_none());
    assert!(Raster::from_samples(0, 0, Vec::new()).is_some());
}

#[test]
fn decode_reads_a_png() {
    let data: Vec<u8> = (0..32).map(|i| (i * 7) as u8).collect();
    let img = image::RgbaImage::from_raw(4, 2, data.clone()).unwrap();
    let mut bytes = Vec::new();
    img.write_to(&mut Cursor::new(&mut bytes), image::ImageFormat::Png)
        .unwrap();
    let r = Raster::decode(&bytes).unwrap();
    assert_eq!((r.width(), r.height()), (4, 2));
    assert_eq!(r.into_samples(), data);
}

#[test]
fn decode_refuses_an_image_that_is_no_png() {
    let img = image::RgbaImage::from_raw(2, 2, vec![9u8; 16]).unwrap();
    let mut bytes = Vec::new();
    img.write_to(&mut Cursor::new(&mut bytes), image::ImageFormat::Bmp)
        .unwrap();
    assert!(image::load_from_memory(&bytes).is_ok());
    assert!(Raster::decode(&bytes).is_none());
}

#[test]
fn decode_reads_a_png_without_alpha() {
    let img = image::RgbImage::from_raw(2, 1, vec![1, 2, 3, 4, 5, 6]).unwrap();
    let mut bytes = Vec::new();
    img.write_to(&mut Cursor::new(&mut bytes), image::ImageFormat::Png)
        .unwrap();
    let r = Raster::decode(&bytes).unwrap();
    assert_eq!((r.width(), r.height()), (2, 1));
    assert_eq!(r.into_samples(), vec![1, 2, 3, 255, 4, 5, 6, 255]);
}

#[test]
fn decode_refuses_what_is_no_image() {
    assert!(Raster::decode(b"").is_none());
    assert!(Raster::decode(b"plain text").is_none());
    assert!(Raster::decode(&[0x89, b'P', b'N', b'G']).is_none());
}

#[test]
fn resample_to_the_same_size_keeps_the_samples() {
    let data: Vec<u8> = (0..64).map(|i| (i * 3) as u8).collect();
    let r = Raster::from_samples(4, 4, data.clone()).unwrap();
    let out = r.resample(4, 4);
    assert_eq!((out.width(), out.height()), (4, 4));
    assert_eq!(out.into_samples(), data);
}

#[test]
fn resample_gives_the_asked_size() {
    let r = solid(4, 4, 200);
    let out = r.resample(8, 2);
    assert_eq!((out.width(), out.height()), (8, 2));
    let samples = out.into_samples();
    assert_eq!(samples.len(), 64);
    assert!(samples.iter().all(|&s| s == 200));
}

#[test]
fn resample_of_an_empty_image_is_blank() {
    let r = Raster::from_samples(0, 0, Vec::new()).unwrap();
    assert!(r.can_resample(2, 2));
    let out = r.resample(2, 2);
    assert_eq!((out.width(), out.height()), (2, 2));
    assert_eq!(out.into_samples(), vec![0u8; 16]);
}

#[test]
fn resampling_is_possible_while_the_buffers_fit() {
    let r = solid(4, 4, 1);
    assert!(r.can_resample(1, 1));
    assert!(r.can_resample(256, 256));
    assert!(!r.can_resample(0, 1));
    assert!(!r.can_resample(1, 0));
    assert!(!r.can_resample(u32::MAX, u32::MAX));
    let limit = isize::MAX as u128;
    let wide = Raster::from_samples(4_000_000_000, 0, Vec::new()).unwrap();
    assert!(wide.can_resample(1, 1));
    let height = 200_000_000u32;
    assert_eq!(
        wide.can_resample(1, height),
        16 * 4_000_000_000u128 * (height as u128) <= limit
    );
    assert_eq!(
        r.can_resample(40_000, 60_000),
        4 * 40_000u128 * 60_000u128 <= limit
    );
}

#[test]
fn resample_blends_neighbours() {
    let mut data = vec![0u8; 16];
    data[4..8].copy_from_slice(&[255, 255, 255, 255]);
    data[8..12].copy_from_slice(&[255, 255, 255, 255]);
    let r = Raster::from_samples(4, 1, data.clone()).unwrap();
    let out = r.resample(2, 1);
    assert_eq!((out.width(), out.height()), (2, 1));
    let samples = out.into_samples();
    assert_eq!(samples.len(), 8);
    assert_ne!(samples, data[0..8].to_vec());
    assert!(samples[0] > 0 && samples[0] < 255);
    assert_eq!(samples[0], samples[4]);
}

#[test]
fn origin_of_each_tile() {
    let p = plan(512);
    assert_eq!(tile_origin(&p, tile(547, 380)), (0, 0));
    assert_eq!(tile_origin(&p, tile(548, 380)), (256, 0));
    assert_eq!(tile_origin(&p, tile(547, 381)), (0, 256));
    assert_eq!(tile_origin(&p, tile(548, 381)), (256, 256));
}

#[test]
fn squares_of_two_tiles_share_no_pixel() {
    let p = plan(512);
    let tiles = grid().tiles().unwrap();
    for a in &tiles {
        for b in &tiles {
            if a == b {
                continue;
            }
            let (ax, ay) = tile_origin(&p, *a);
            let (bx, by) = tile_origin(&p, *b);
            let res = p.res as u64;
            assert!(ax + res <= bx || bx + res <= ax || ay + res <= by || by + res <= ay);
        }
    }
}

#[test]
fn new_mosaic_is_blank_and_has_the_planned_size() {
    let m = Mosaic::new(plan(6)).unwrap();
    assert_eq!(m.plan.res, 3);
    assert_eq!((m.raster.width(), m.raster.height()), (6, 6));
    assert!(m.failed.is_empty());
    assert_eq!(m.raster.into_samples(), vec![0u8; 4 * 6 * 6]);
}

#[test]
fn mosaic_too_large_for_a_raster_is_refused() {
    let g = TileGrid {
        zoom: 31,
        x_min: 0,
        x_max: 0,
        y_min: 0,
        y_max: 2_147_483_647,
    };
    let p = plan_mosaic(&g, u32::MAX).unwrap();
    assert!(Mosaic::new(p).is_none());
}

#[test]
fn blit_fills_the_square_of_the_tile_and_no_other() {
    let mut m = Mosaic::new(plan(4)).unwrap();
    m.blit(tile(548, 380), &solid(2, 2, 9));
    let data = m.raster.into_samples();
    for y in 0..4 {
        for x in 0..4 {
            let inside = x >= 2 && y < 2;
            for c in 0..4 {
                assert_eq!(sample(&data, 4, x, y, c), if inside { 9 } else { 0 });
            }
        }
    }
}

#[test]
fn blit_copies_the_tile_pixel_by_pixel() {
    let mut m = Mosaic::new(plan(4)).unwrap();
    let tile_data: Vec<u8> = (1..=16).collect();
    let t = Raster::from_samples(2, 2, tile_data.clone()).unwrap();
    m.blit(tile(547, 381), &t);
    let data = m.raster.into_samples();
    for y in 0..2 {
        for x in 0..2 {
            for c in 0..4 {
                assert_eq!(
                    sample(&data, 4, x, y + 2, c),
                    sample(&tile_data, 2, x, y, c)
                );
            }
        }
    }
    assert_eq!(sample(&data, 4, 0, 0, 0), 0);
    assert_eq!(sample(&data, 4, 2, 2, 0), 0);
}

#[test]
fn place_resamples_to_the_tile_size() {
    let mut m = Mosaic::new(plan(4)).unwrap();
    assert!(m.place(tile(547, 380), &solid(256, 256, 77)));
    assert!(m.place(tile(548, 381), &solid(2, 2, 55)));
    assert!(m.failed.is_empty());
    let data = m.raster.into_samples();
    for y in 0..4 {
        for x in 0..4 {
            let want = if x < 2 && y < 2 {
                77
            } else if x >= 2 && y >= 2 {
                55
            } else {
                0
            };
            for c in 0..4 {
                assert_eq!(sample(&data, 4, x, y, c), want);
            }
        }
    }
}

#[test]
fn tiles_can_be_placed_in_any_order() {
    let tiles = grid().tiles().unwrap();
    let mut forward = Mosaic::new(plan(8)).unwrap();
    for (i, t) in tiles.iter().enumerate() {
        forward.place(*t, &solid(5, 5, 10 * (i as u8 + 1)));
    }
    let mut backward = Mosaic::new(plan(8)).unwrap();
    for (i, t) in tiles.iter().enumerate().rev() {
        backward.place(*t, &solid(5, 5, 10 * (i as u8 + 1)));
    }
    assert_eq!(forward.raster.into_samples(), backward.raster.into_samples());
}

#[test]
fn skipped_tile_is_recorded_and_stays_blank() {
    let mut m = Mosaic::new(plan(4)).unwrap();
    m.place(tile(547, 380), &solid(2, 2, 1));
    m.skip(tile(548, 380));
    m.skip(tile(548, 381));
    assert_eq!(m.failed, vec![tile(548, 380), tile(548, 381)]);
    let data = m.raster.into_samples();
    assert_eq!(sample(&data, 4, 0, 0, 0), 1);
    assert_eq!(sample(&data, 4, 2, 0, 0), 0);
    assert_eq!(sample(&data, 4, 3, 3, 3), 0);
}

#[test]
fn tiles_are_handed_out_in_a_hundred_chunks_at_most() {
    assert_eq!(progress_chunk(0), 1);
    assert_eq!(progress_chunk(4), 1);
    assert_eq!(progress_chunk(99), 1);
    assert_eq!(progress_chunk(100), 2);
    assert_eq!(progress_chunk(1234), 13);
}

#[test]
fn assembled_mosaic_holds_each_tile_in_its_square() {
    let images = vec![
        Some(solid(2, 2, 10)),
        Some(solid(7, 3, 20)),
        None,
        Some(solid(2, 2, 40)),
    ];
    let m = assemble(plan(4), &images).unwrap();
    assert_eq!(m.plan, plan(4));
    assert_eq!(m.failed, vec![tile(548, 380)]);
    assert_eq!((m.raster.width(), m.raster.height()), (4, 4));
    let data = m.raster.into_samples();
    for y in 0..4 {
        for x in 0..4 {
            let want = match (x / 2, y / 2) {
                (0, 0) => 10,
                (0, 1) => 20,
                (1, 0) => 0,
                _ => 40,
            };
            for c in 0..4 {
                assert_eq!(sample(&data, 4, x, y, c), want);
            }
        }
    }
}

#[test]
fn assembled_mosaic_without_any_image_is_blank() {
    let images = vec![None, None, None, None];
    let m = assemble(plan(6), &images).unwrap();
    assert_eq!(m.failed, grid().tiles().unwrap());
    assert_eq!(m.raster.into_samples(), vec![0u8; 4 * 6 * 6]);
}

#[test]
fn assembly_needs_one_image_for_each_tile() {
    assert!(assemble(plan(4), &Vec::new()).is_none());
    assert!(assemble(plan(4), &vec![None, None, None]).is_none());
    assert!(assemble(plan(4), &vec![None, None, None, None, None]).is_none());
}

#[test]
fn assembly_keeps_a_tile_of_the_tile_size_as_it_is() {
    let tile_data: Vec<u8> = (100..116).collect();
    let images = vec![
        None,
        None,
        None,
        Some(Raster::from_samples(2, 2, tile_data.clone()).unwrap()),
    ];
    let m = assemble(plan(4), &images).unwrap();
    let data = m.raster.into_samples();
    for y in 0..2 {
        for x in 0..2 {
            for c in 0..4 {
                assert_eq!(
                    sample(&data, 4, x + 2, y + 2, c),
                    sample(&tile_data, 2, x, y, c)
                );
            }
        }
    }
}
