//! The discrete frame of the tracer: how the image is cut into tile jobs,
//! where each tile writes in the shared output buffer, how per-pixel
//! progressive accumulation counts frames, and which way the recursive
//! radiance estimator branches at each bounce.
//!
//! The floating-point work of a tile — camera rays, intersection, shading —
//! stays with the caller; every index it writes through and every recursion
//! decision it takes comes from here.

use vstd::prelude::*;
use vstd::arithmetic::div_mod::{
    lemma_fundamental_div_mod,
    lemma_fundamental_div_mod_converse,
    lemma_div_pos_is_pos,
};

verus! {

/// Progressive accumulation stops counting new frames for a pixel past this
/// many, freezing the blend weight.
pub const MAX_FRAMES_PER_PIXEL: u32 = 1000;

/// The rectangle of pixels `[start_xy, end_xy)` a single tile job traces,
/// inside an image of `image_size` pixels. Coordinates are in image space,
/// `x` to the right and `y` upward; the output buffer holds four values per
/// pixel, row after row.
#[derive(Clone, Copy, Debug)]
pub struct TileRegion {
    pub start_xy: (u32, u32),
    pub end_xy: (u32, u32),
    pub image_size: (u32, u32),
}

impl TileRegion {
    /// A tile lies inside its image, and the image's four-channel buffer is
    /// addressable.
    pub open spec fn wf(self) -> bool {
        &&& self.start_xy.0 <= self.end_xy.0 <= self.image_size.0
        &&& self.start_xy.1 <= self.end_xy.1 <= self.image_size.1
        &&& 4 * self.image_size.0 * self.image_size.1 <= usize::MAX
    }

    /// The pixels this tile traces.
    pub open spec fn contains_pixel(self, x: int, y: int) -> bool {
        &&& self.start_xy.0 <= x < self.end_xy.0
        &&& self.start_xy.1 <= y < self.end_xy.1
    }

    pub open spec fn num_px_x(self) -> int {
        self.end_xy.0 - self.start_xy.0
    }

    pub open spec fn num_px_y(self) -> int {
        self.end_xy.1 - self.start_xy.1
    }

    pub fn new(start_xy: (u32, u32), end_xy: (u32, u32), image_size: (u32, u32)) -> (r: TileRegion)
        requires
            start_xy.0 <= end_xy.0 <= image_size.0,
            start_xy.1 <= end_xy.1 <= image_size.1,
            4 * image_size.0 * image_size.1 <= usize::MAX,
        ensures
            r == (TileRegion { start_xy, end_xy, image_size }),
            r.wf(),
    {
        TileRegion { start_xy, end_xy, image_size }
    }

    /// Width and height of the tile in pixels.
    pub fn num_pixels_xy(&self) -> (r: (u32, u32))
        requires
            self.start_xy.0 <= self.end_xy.0,
            self.start_xy.1 <= self.end_xy.1,
        ensures
            r.0 == self.num_px_x(),
            r.1 == self.num_px_y(),
    {
        (self.end_xy.0 - self.start_xy.0, self.end_xy.1 - self.start_xy.1)
    }

    /// Where the tile starts in window coordinates, whose `y` runs downward
    /// from the top of the image.
    pub fn image_start_xy(&self) -> (r: (u32, u32))
        requires
            self.wf(),
        ensures
            r.0 == self.start_xy.0,
            r.1 == self.image_size.1 - self.end_xy.1,
    {
        let num_px_y = self.end_xy.1 - self.start_xy.1;
        (self.start_xy.0, self.image_size.1 - self.start_xy.1 - num_px_y)
    }

    /// Number of per-pixel frame counters a tile keeps.
    pub fn num_pixels(&self) -> (r: usize)
        requires
            self.wf(),
        ensures
            r == self.num_px_x() * self.num_px_y(),
    {
        proof {
            lemma_tile_products_fit(*self);
        }
        (self.end_xy.0 - self.start_xy.0) as usize * ((self.end_xy.1 - self.start_xy.1) as usize)
    }

    /// The buffer offset of the first channel this tile writes in image row
    /// `j`, and the guarantee that the whole row slice of the tile stays
    /// inside the image buffer.
    pub fn buffer_row_start(&self, j: u32) -> (r: usize)
        requires
            self.wf(),
            self.start_xy.1 <= j < self.end_xy.1,
        ensures
            r == 4 * (self.start_xy.0 + j * self.image_size.0),
            r + 4 * self.num_px_x() <= 4 * self.image_size.0 * self.image_size.1,
    {
        proof {
            lemma_tile_products_fit(*self);
            assert((j * self.image_size.0) as int == j as int * self.image_size.0 as int
                && j as int * self.image_size.0 as int + self.end_xy.0 <= self.image_size.0 as int
                * self.image_size.1 as int) by (nonlinear_arith)
                requires
                    j < self.end_xy.1 <= self.image_size.1,
                    self.end_xy.0 <= self.image_size.0,
            ;
        }
        4 * (self.start_xy.0 as usize + (j as usize) * (self.image_size.0 as usize))
    }

    /// The index of pixel `(col_idx, row_idx)` of the tile in its row-major
    /// block of per-pixel counters.
    pub fn local_pixel_index(&self, row_idx: usize, col_idx: usize) -> (r: usize)
        requires
            self.wf(),
            row_idx < self.num_px_y(),
            col_idx < self.num_px_x(),
        ensures
            r == row_idx * self.num_px_x() + col_idx,
            r < self.num_px_x() * self.num_px_y(),
    {
        proof {
            lemma_tile_products_fit(*self);
            assert(row_idx * self.num_px_x() + col_idx < self.num_px_x() * self.num_px_y()
                && row_idx * self.num_px_x() + col_idx <= usize::MAX) by (nonlinear_arith)
                requires
                    row_idx < self.num_px_y(),
                    col_idx < self.num_px_x(),
                    0 <= self.num_px_x(),
                    self.num_px_x() * self.num_px_y() <= usize::MAX,
            ;
        }
        row_idx * ((self.end_xy.0 - self.start_xy.0) as usize) + col_idx
    }
}

/// Pixel and channel counts of a well-formed tile fit in `usize`.
proof fn lemma_tile_products_fit(t: TileRegion)
    requires
        t.wf(),
    ensures
        0 <= t.num_px_x() * t.num_px_y() <= t.image_size.0 * t.image_size.1,
        0 <= t.image_size.0 * t.image_size.1 <= 4 * t.image_size.0 * t.image_size.1,
        4 * (t.image_size.0 * t.image_size.1) == 4 * t.image_size.0 * t.image_size.1,
        4 * t.image_size.0 * t.image_size.1 <= usize::MAX,
{
    assert(0 <= t.num_px_x() * t.num_px_y() <= t.image_size.0 * t.image_size.1
        && t.image_size.0 * t.image_size.1 <= 4 * t.image_size.0 * t.image_size.1
        && 4 * (t.image_size.0 * t.image_size.1) == 4 * t.image_size.0 * t.image_size.1)
        by (nonlinear_arith)
        requires
            0 <= t.num_px_x() <= t.image_size.0,
            0 <= t.num_px_y() <= t.image_size.1,
    ;
}

/// A fresh block of per-pixel frame counters, all zero: the state after
/// `clear_buffer`, when accumulated history is discarded because the camera
/// or the scene changed.
pub fn fresh_frame_counters(num_pixels: usize) -> (r: Vec<u32>)
    ensures
        r@.len() == num_pixels,
        forall|k: int| 0 <= k < r@.len() ==> #[trigger] r@[k] == 0,
{
    let mut counters: Vec<u32> = Vec::new();
    let mut i: usize = 0;
    while i < num_pixels
        invariant
            i <= num_pixels,
            counters@.len() == i,
            forall|k: int| 0 <= k < i ==> #[trigger] counters@[k] == 0,
        decreases num_pixels - i,
    {
        counters.push(0);
        i = i + 1;
    }
    counters
}

/// Counts one more accumulated frame for one pixel, leaving every other
/// pixel's count alone; past `MAX_FRAMES_PER_PIXEL` the count freezes.
pub fn advance_frame_counter(counters: &mut Vec<u32>, idx: usize)
    requires
        idx < old(counters)@.len(),
    ensures
        final(counters)@.len() == old(counters)@.len(),
        final(counters)@[idx as int] == if old(counters)@[idx as int] <= MAX_FRAMES_PER_PIXEL {
            old(counters)@[idx as int] + 1
        } else {
            old(counters)@[idx as int] as int
        },
        forall|k: int|
            0 <= k < old(counters)@.len() && k != idx ==> final(counters)@[k] == old(
                counters,
            )@[k],
{
    let current = counters[idx];
    if current <= MAX_FRAMES_PER_PIXEL {
        counters.set(idx, current + 1);
    }
}

/// The tile of the regular grid partition with index `t`, counting tiles
/// row by row.
pub open spec fn grid_tile(image_size: (u32, u32), tile_size: (u32, u32), t: int) -> TileRegion {
    let ntx = image_size.0 as int / tile_size.0 as int;
    let tx = t % ntx;
    let ty = t / ntx;
    TileRegion {
        start_xy: ((tile_size.0 * tx) as u32, (tile_size.1 * ty) as u32),
        end_xy: ((tile_size.0 * tx + tile_size.0) as u32, (tile_size.1 * ty + tile_size.1) as u32),
        image_size,
    }
}

/// A tile size fits an image when it is positive and divides the image
/// evenly on both axes; fitting a requested size is what the rounding
/// helpers are for, and a size that still does not divide is a
/// configuration error the caller must refuse before dispatch.
pub open spec fn tile_size_fits(image_size: (u32, u32), tile_size: (u32, u32)) -> bool {
    &&& 1 <= tile_size.0 <= image_size.0
    &&& 1 <= tile_size.1 <= image_size.1
    &&& image_size.0 % tile_size.0 == 0
    &&& image_size.1 % tile_size.1 == 0
    &&& 4 * image_size.0 * image_size.1 <= usize::MAX
}

/// Cuts the image into the regular grid of tile jobs, row by row: tile
/// `t` of the result is exactly `grid_tile(image_size, tile_size, t)`.
pub fn partition_image(image_size: (u32, u32), tile_size: (u32, u32)) -> (r: Vec<TileRegion>)
    requires
        tile_size_fits(image_size, tile_size),
    ensures
        r@.len() == (image_size.0 as int / tile_size.0 as int) * (image_size.1 as int
            / tile_size.1 as int),
        forall|t: int|
            0 <= t < r@.len() ==> #[trigger] r@[t] == grid_tile(image_size, tile_size, t),
        forall|t: int| 0 <= t < r@.len() ==> (#[trigger] r@[t]).wf(),
{
    let ntx: u32 = image_size.0 / tile_size.0;
    let nty: u32 = image_size.1 / tile_size.1;
    proof {
        lemma_grid_counts(image_size, tile_size);
    }
    let mut tiles: Vec<TileRegion> = Vec::new();
    let mut ty: u32 = 0;
    while ty < nty
        invariant
            tile_size_fits(image_size, tile_size),
            ntx == image_size.0 as int / tile_size.0 as int,
            nty == image_size.1 as int / tile_size.1 as int,
            ty <= nty,
            tiles@.len() == ty * ntx,
            forall|t: int|
                0 <= t < tiles@.len() ==> #[trigger] tiles@[t] == grid_tile(
                    image_size,
                    tile_size,
                    t,
                ),
            forall|t: int| 0 <= t < tiles@.len() ==> (#[trigger] tiles@[t]).wf(),
        decreases nty - ty,
    {
        let mut tx: u32 = 0;
        while tx < ntx
            invariant
                tile_size_fits(image_size, tile_size),
                ntx == image_size.0 as int / tile_size.0 as int,
                nty == image_size.1 as int / tile_size.1 as int,
                ty < nty,
                tx <= ntx,
                tiles@.len() == ty * ntx + tx,
                forall|t: int|
                    0 <= t < tiles@.len() ==> #[trigger] tiles@[t] == grid_tile(
                        image_size,
                        tile_size,
                        t,
                    ),
                forall|t: int| 0 <= t < tiles@.len() ==> (#[trigger] tiles@[t]).wf(),
            decreases ntx - tx,
        {
            proof {
                lemma_grid_counts(image_size, tile_size);
                lemma_grid_index(image_size, tile_size, tx as int, ty as int);
            }
            let start_xy = (tile_size.0 * tx, tile_size.1 * ty);
            let end_xy = (start_xy.0 + tile_size.0, start_xy.1 + tile_size.1);
            let tile = TileRegion::new(start_xy, end_xy, image_size);
            tiles.push(tile);
            tx = tx + 1;
        }
        ty = ty + 1;
        proof {
            assert((ty - 1) * ntx as int + ntx as int == ty * ntx as int) by (nonlinear_arith);
        }
    }
    proof {
        assert(nty as int * ntx as int == ntx as int * nty as int) by (nonlinear_arith);
    }
    tiles
}

/// Tile counts along each axis are positive, and the whole grid's pixel
/// count is the image's.
proof fn lemma_grid_counts(image_size: (u32, u32), tile_size: (u32, u32))
    requires
        tile_size_fits(image_size, tile_size),
    ensures
        1 <= image_size.0 as int / tile_size.0 as int <= image_size.0,
        1 <= image_size.1 as int / tile_size.1 as int <= image_size.1,
        tile_size.0 * (image_size.0 as int / tile_size.0 as int) == image_size.0,
        tile_size.1 * (image_size.1 as int / tile_size.1 as int) == image_size.1,
{
    assert(1 <= image_size.0 as int / tile_size.0 as int <= image_size.0 && tile_size.0 * (
    image_size.0 as int / tile_size.0 as int) == image_size.0) by (nonlinear_arith)
        requires
            1 <= tile_size.0 <= image_size.0,
            image_size.0 % tile_size.0 == 0,
    ;
    assert(1 <= image_size.1 as int / tile_size.1 as int <= image_size.1 && tile_size.1 * (
    image_size.1 as int / tile_size.1 as int) == image_size.1) by (nonlinear_arith)
        requires
            1 <= tile_size.1 <= image_size.1,
            image_size.1 % tile_size.1 == 0,
    ;
}

/// Grid cell `(tx, ty)` is tile number `ty * ntx + tx`, its corners stay
/// inside the image, and `grid_tile` of that number names exactly this cell.
proof fn lemma_grid_index(image_size: (u32, u32), tile_size: (u32, u32), tx: int, ty: int)
    requires
        tile_size_fits(image_size, tile_size),
        0 <= tx < image_size.0 as int / tile_size.0 as int,
        0 <= ty < image_size.1 as int / tile_size.1 as int,
    ensures
        tile_size.0 * tx + tile_size.0 <= image_size.0,
        tile_size.1 * ty + tile_size.1 <= image_size.1,
        grid_tile(image_size, tile_size, ty * (image_size.0 as int / tile_size.0 as int) + tx)
            == (TileRegion {
            start_xy: ((tile_size.0 * tx) as u32, (tile_size.1 * ty) as u32),
            end_xy: ((tile_size.0 * tx + tile_size.0) as u32, (
            tile_size.1 * ty + tile_size.1) as u32),
            image_size,
        }),
{
    let ntx = image_size.0 as int / tile_size.0 as int;
    let nty = image_size.1 as int / tile_size.1 as int;
    lemma_grid_counts(image_size, tile_size);
    assert(tile_size.0 * tx + tile_size.0 <= tile_size.0 * ntx) by (nonlinear_arith)
        requires
            tx < ntx,
            1 <= tile_size.0,
    ;
    assert(tile_size.1 * ty + tile_size.1 <= tile_size.1 * nty) by (nonlinear_arith)
        requires
            ty < nty,
            1 <= tile_size.1,
    ;
    let t = ty * ntx + tx;
    assert(t / ntx == ty && t % ntx == tx) by {
        lemma_fundamental_div_mod_converse(t, ntx, ty, tx);
    }
}

/// Tracing the image as one single tile and tracing it as a grid of tile
/// jobs touch the same pixels the same number of times: under the grid
/// partition, every pixel of the image belongs to exactly one tile (so the
/// only difference between the two renderings is which job traces a pixel,
/// never whether or how often).
pub proof fn lemma_partition_traces_each_pixel_once(
    tiles: Seq<TileRegion>,
    image_size: (u32, u32),
    tile_size: (u32, u32),
    x: int,
    y: int,
)
    requires
        tile_size_fits(image_size, tile_size),
        tiles.len() == (image_size.0 as int / tile_size.0 as int) * (image_size.1 as int
            / tile_size.1 as int),
        forall|t: int|
            0 <= t < tiles.len() ==> #[trigger] tiles[t] == grid_tile(image_size, tile_size, t),
        0 <= x < image_size.0,
        0 <= y < image_size.1,
    ensures
        exists|t: int| 0 <= t < tiles.len() && (#[trigger] tiles[t]).contains_pixel(x, y),
        forall|t1: int, t2: int|
            0 <= t1 < tiles.len() && 0 <= t2 < tiles.len() && (#[trigger] tiles[t1]).contains_pixel(
                x,
                y,
            ) && (#[trigger] tiles[t2]).contains_pixel(x, y) ==> t1 == t2,
{
    let ntx = image_size.0 as int / tile_size.0 as int;
    let nty = image_size.1 as int / tile_size.1 as int;
    let tw = tile_size.0 as int;
    let th = tile_size.1 as int;
    lemma_grid_counts(image_size, tile_size);

    // The tile that covers the pixel.
    let tx = x / tw;
    let ty = y / th;
    lemma_fundamental_div_mod(x, tw);
    lemma_fundamental_div_mod(y, th);
    assert(0 <= tx < ntx && tw * tx <= x < tw * tx + tw) by (nonlinear_arith)
        requires
            1 <= tw,
            0 <= x < tw * ntx,
            x == tw * tx + x % tw,
            0 <= x % tw < tw,
    ;
    assert(0 <= ty < nty && th * ty <= y < th * ty + th) by (nonlinear_arith)
        requires
            1 <= th,
            0 <= y < th * nty,
            y == th * ty + y % th,
            0 <= y % th < th,
    ;
    let t = ty * ntx + tx;
    assert(0 <= t < ntx * nty) by (nonlinear_arith)
        requires
            t == ty * ntx + tx,
            0 <= tx < ntx,
            0 <= ty < nty,
    ;
    lemma_grid_index(image_size, tile_size, tx, ty);
    assert(tiles[t].contains_pixel(x, y));

    // And it is the only one: containment pins the cell on each axis.
    assert forall|t1: int, t2: int|
        0 <= t1 < tiles.len() && 0 <= t2 < tiles.len() && (#[trigger] tiles[t1]).contains_pixel(
            x,
            y,
        ) && (#[trigger] tiles[t2]).contains_pixel(x, y) implies t1 == t2 by {
        lemma_grid_cell_of_pixel(image_size, tile_size, t1, x, y);
        lemma_grid_cell_of_pixel(image_size, tile_size, t2, x, y);
    }
}

/// A grid tile containing a pixel must be the tile whose cell coordinates
/// are the pixel's coordinates divided by the tile size.
proof fn lemma_grid_cell_of_pixel(
    image_size: (u32, u32),
    tile_size: (u32, u32),
    t: int,
    x: int,
    y: int,
)
    requires
        tile_size_fits(image_size, tile_size),
        0 <= t < (image_size.0 as int / tile_size.0 as int) * (image_size.1 as int
            / tile_size.1 as int),
        grid_tile(image_size, tile_size, t).contains_pixel(x, y),
    ensures
        t == (y / tile_size.1 as int) * (image_size.0 as int / tile_size.0 as int) + x
            / tile_size.0 as int,
{
    let ntx = image_size.0 as int / tile_size.0 as int;
    let nty = image_size.1 as int / tile_size.1 as int;
    let tw = tile_size.0 as int;
    let th = tile_size.1 as int;
    lemma_grid_counts(image_size, tile_size);
    let tx = t % ntx;
    let ty = t / ntx;
    lemma_fundamental_div_mod(t, ntx);
    assert(0 <= tx < ntx) by {
        lemma_div_pos_is_pos(t, ntx);
    }
    assert(0 <= ty < nty) by (nonlinear_arith)
        requires
            t == ntx * ty + tx,
            0 <= t < ntx * nty,
            0 <= tx < ntx,
    ;
    // The tile's pixel ranges do not overflow `u32`, so its bounds really
    // are `tw * tx .. tw * tx + tw` on each axis.
    lemma_grid_index(image_size, tile_size, tx, ty);
    assert(x / tw == tx) by {
        lemma_fundamental_div_mod_converse(x, tw, tx, x - tw * tx);
    }
    assert(y / th == ty) by {
        lemma_fundamental_div_mod_converse(y, th, ty, y - th * ty);
    }
}

/// What the float work of one bounce reported back to the estimator.
#[derive(Clone, Copy, PartialEq, Eq, Structural, Debug)]
pub enum ScatterClass {
    /// The ray left the scene without striking anything.
    Miss,
    /// The ray struck a surface whose material does not scatter (a pure
    /// emitter or absorber).
    Absorbed,
    /// The material scattered along a single reflected or refracted ray.
    Specular,
    /// The material scattered into a sampled distribution of directions.
    Diffuse,
}

/// What the estimator does next at this bounce.
#[derive(Clone, Copy, PartialEq, Eq, Structural, Debug)]
pub enum RadianceStep {
    /// Return zero radiance: the ray saw only background.
    Background,
    /// Return the surface's own emission and stop.
    EmittedOnly,
    /// Multiply the albedo into the recursive estimate along the specular
    /// ray, with no density division.
    RecurseSpecular { next_depth: i32 },
    /// Sample the light/material mixture distribution, divide by its
    /// density, and recurse along the sampled ray.
    RecurseDiffuse { next_depth: i32 },
}

impl RadianceStep {
    /// The steps that recurse one bounce deeper.
    pub open spec fn recurses(self) -> bool {
        self is RecurseSpecular || self is RecurseDiffuse
    }
}

/// The depth test the estimator applies before consulting a material at
/// all: past the cutoff a hit contributes its emission only, so no scatter
/// is sampled and no random numbers are drawn for it.
pub fn scatter_allowed(depth: i32, max_depth: i32) -> (r: bool)
    ensures
        r <==> depth < max_depth,
{
    depth < max_depth
}

/// One decision of the recursive radiance estimator: a miss is background; a
/// hit past the depth cutoff, or one that does not scatter, contributes its
/// emission only; otherwise the estimator recurses one bounce deeper, the
/// specular way or the sampled way.
pub fn color_step(outcome: ScatterClass, depth: i32, max_depth: i32) -> (r: RadianceStep)
    requires
        0 <= depth,
        depth < i32::MAX,
    ensures
        outcome is Miss ==> r == RadianceStep::Background,
        outcome is Absorbed ==> r == RadianceStep::EmittedOnly,
        outcome !is Miss && depth >= max_depth ==> r == RadianceStep::EmittedOnly,
        outcome is Specular && depth < max_depth ==> r == (RadianceStep::RecurseSpecular {
            next_depth: (depth + 1) as i32,
        }),
        outcome is Diffuse && depth < max_depth ==> r == (RadianceStep::RecurseDiffuse {
            next_depth: (depth + 1) as i32,
        }),
        r.recurses() ==> depth < max_depth,
{
    match outcome {
        ScatterClass::Miss => RadianceStep::Background,
        ScatterClass::Absorbed => RadianceStep::EmittedOnly,
        ScatterClass::Specular => {
            if depth < max_depth {
                RadianceStep::RecurseSpecular { next_depth: depth + 1 }
            } else {
                RadianceStep::EmittedOnly
            }
        },
        ScatterClass::Diffuse => {
            if depth < max_depth {
                RadianceStep::RecurseDiffuse { next_depth: depth + 1 }
            } else {
                RadianceStep::EmittedOnly
            }
        },
    }
}

/// Depths along one call chain of the estimator are `0, 1, 2, ...`, and a
/// chain only grows while `color_step` permits recursion, which it does only
/// below `max_depth`: so no call chain holds more than `max_depth` scatter
/// events beyond the first call.
pub proof fn lemma_recursion_depth_bounded(depths: Seq<i32>, max_depth: i32)
    requires
        0 <= max_depth,
        depths.len() > 0 ==> depths[0] == 0,
        forall|i: int|
            0 <= i < depths.len() - 1 ==> #[trigger] depths[i] < max_depth && depths[i + 1]
                == depths[i] + 1,
    ensures
        forall|i: int| 0 <= i < depths.len() ==> #[trigger] depths[i] == i,
        depths.len() <= max_depth + 1,
{
    assert forall|i: int| 0 <= i < depths.len() implies #[trigger] depths[i] == i by {
        lemma_chain_counts_up(depths, max_depth, i);
    }
    if depths.len() > max_depth + 1 {
        let last = depths.len() - 1;
        lemma_chain_counts_up(depths, max_depth, last - 1);
        assert(depths[last - 1] < max_depth);
    }
}

/// Along a chain whose depths start at zero and step by one, depth `i` is
/// `i`.
proof fn lemma_chain_counts_up(depths: Seq<i32>, max_depth: i32, i: int)
    requires
        depths.len() > 0 ==> depths[0] == 0,
        forall|k: int|
            0 <= k < depths.len() - 1 ==> #[trigger] depths[k] < max_depth && depths[k + 1]
                == depths[k] + 1,
        0 <= i < depths.len(),
    ensures
        depths[i] == i,
    decreases i,
{
    if i > 0 {
        lemma_chain_counts_up(depths, max_depth, i - 1);
        assert(depths[i - 1] < max_depth && depths[i - 1 + 1] == depths[i - 1] + 1);
    }
}

} // verus!
