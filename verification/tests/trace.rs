use pathtracer::trace::{
    advance_frame_counter, color_step, fresh_frame_counters, partition_image, RadianceStep,
    ScatterClass, TileRegion, MAX_FRAMES_PER_PIXEL,
};

#[test]
fn partition_covers_each_pixel_exactly_once() {
    let image = (8u32, 6u32);
    let tile = (4u32, 2u32);
    let tiles = partition_image(image, tile);
    assert_eq!(tiles.len(), 2 * 3);
    for y in 0..image.1 {
        for x in 0..image.0 {
            let mut owners = 0;
            for t in &tiles {
                let inside = t.start_xy.0 <= x && x < t.end_xy.0 && t.start_xy.1 <= y
                    && y < t.end_xy.1;
                if inside {
                    owners += 1;
                }
            }
            assert_eq!(owners, 1, "pixel ({x},{y}) owned by {owners} tiles");
        }
    }
}

#[test]
fn partition_single_tile_is_whole_image() {
    let tiles = partition_image((16, 16), (16, 16));
    assert_eq!(tiles.len(), 1);
    assert_eq!(tiles[0].start_xy, (0, 0));
    assert_eq!(tiles[0].end_xy, (16, 16));
}

#[test]
fn partition_tiles_write_disjoint_row_slices() {
    // Two tiles of the same tile row share image rows; their row slices in
    // the shared buffer must not overlap.
    let tiles = partition_image((8, 4), (4, 4));
    assert_eq!(tiles.len(), 2);
    let (left, right) = (&tiles[0], &tiles[1]);
    for j in 0..4u32 {
        let ls = left.buffer_row_start(j);
        let rs = right.buffer_row_start(j);
        let lw = (left.end_xy.0 - left.start_xy.0) as usize * 4;
        assert!(ls + lw <= rs || rs + 4 * 4 <= ls);
    }
}

#[test]
fn tile_geometry() {
    let tile = TileRegion::new((2, 4), (6, 8), (16, 16));
    assert_eq!(tile.num_pixels_xy(), (4, 4));
    assert_eq!(tile.num_pixels(), 16);
    // Window coordinates flip vertically: the tile ending at image row 8 of
    // a 16-row image starts at window row 8.
    assert_eq!(tile.image_start_xy(), (2, 8));
    // Image row 5, pixel columns 2..6, four channels per pixel.
    assert_eq!(tile.buffer_row_start(5), 4 * (2 + 5 * 16));
    assert_eq!(tile.local_pixel_index(1, 3), 7);
}

#[test]
fn frame_counters_accumulate_and_freeze() {
    let mut counters = fresh_frame_counters(4);
    assert_eq!(counters, vec![0, 0, 0, 0]);
    advance_frame_counter(&mut counters, 2);
    advance_frame_counter(&mut counters, 2);
    advance_frame_counter(&mut counters, 0);
    assert_eq!(counters, vec![1, 0, 2, 0]);
    counters[3] = MAX_FRAMES_PER_PIXEL + 1;
    advance_frame_counter(&mut counters, 3);
    assert_eq!(counters[3], MAX_FRAMES_PER_PIXEL + 1);
    counters[1] = MAX_FRAMES_PER_PIXEL;
    advance_frame_counter(&mut counters, 1);
    assert_eq!(counters[1], MAX_FRAMES_PER_PIXEL + 1);
}

#[test]
fn estimator_branches() {
    assert_eq!(color_step(ScatterClass::Miss, 0, 50), RadianceStep::Background);
    assert_eq!(color_step(ScatterClass::Absorbed, 0, 50), RadianceStep::EmittedOnly);
    assert_eq!(
        color_step(ScatterClass::Specular, 3, 50),
        RadianceStep::RecurseSpecular { next_depth: 4 }
    );
    assert_eq!(
        color_step(ScatterClass::Diffuse, 3, 50),
        RadianceStep::RecurseDiffuse { next_depth: 4 }
    );
    // The hard cutoff: at max_depth a hit only contributes its emission.
    assert_eq!(color_step(ScatterClass::Diffuse, 50, 50), RadianceStep::EmittedOnly);
    assert_eq!(color_step(ScatterClass::Specular, 50, 50), RadianceStep::EmittedOnly);
    // A miss is background at any depth.
    assert_eq!(color_step(ScatterClass::Miss, 50, 50), RadianceStep::Background);
}

#[test]
fn scatter_consulted_only_below_cutoff() {
    assert!(pathtracer::trace::scatter_allowed(0, 1));
    assert!(pathtracer::trace::scatter_allowed(49, 50));
    assert!(!pathtracer::trace::scatter_allowed(50, 50));
    assert!(!pathtracer::trace::scatter_allowed(51, 50));
    assert!(!pathtracer::trace::scatter_allowed(0, 0));
}

#[test]
fn estimator_recursion_is_depth_bounded() {
    // Drive the decision function the way the integrator does and count the
    // scatter chain; with max_depth = d it can never exceed d bounces.
    let max_depth = 7;
    let mut depth = 0;
    let mut bounces = 0;
    loop {
        match color_step(ScatterClass::Diffuse, depth, max_depth) {
            RadianceStep::RecurseDiffuse { next_depth } => {
                bounces += 1;
                depth = next_depth;
            }
            _ => break,
        }
        assert!(bounces <= max_depth);
    }
    assert_eq!(bounces, max_depth);
}
