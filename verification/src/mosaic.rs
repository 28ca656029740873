//! Assembly of the output raster from resampled tiles.

use crate::plan::MosaicPlan;
use crate::tile::{lemma_tile_at, lemma_tile_at_is_injective, TileCoordinate, TileGrid};
use vstd::prelude::*;

verus! {

/// What a raster holds: its size in pixels and its samples, row by row from the top,
/// four to a pixel (red, green, blue, alpha).
pub struct RasterView {
    pub width: nat,
    pub height: nat,
    pub samples: Seq<u8>,
}

impl RasterView {
    /// There are exactly four samples for each pixel, and they fit in one allocation.
    pub open spec fn wf(self) -> bool {
        &&& self.width <= u32::MAX
        &&& self.height <= u32::MAX
        &&& 4 * self.width * self.height <= isize::MAX
        &&& self.samples.len() == 4 * self.width * self.height
    }

    /// Whether `(x, y)` names a pixel and `c` one of its four channels.
    pub open spec fn in_bounds(self, x: int, y: int, c: int) -> bool {
        0 <= x < self.width && 0 <= y < self.height && 0 <= c < 4
    }

    /// Channel `c` of the pixel in column `x` of row `y`.
    pub open spec fn sample(self, x: int, y: int, c: int) -> u8 {
        self.samples[4 * (y * self.width + x) + c]
    }

    /// Whether `(x, y)` lies in the rectangle of `tile`'s size whose top left corner is at
    /// `(x0, y0)`.
    pub open spec fn covers(tile: RasterView, x0: int, y0: int, x: int, y: int) -> bool {
        x0 <= x < x0 + tile.width && y0 <= y < y0 + tile.height
    }

    /// `self` is `base` with `tile` copied over it, the tile's top left corner at
    /// `(x0, y0)`: inside that rectangle it holds the tile's samples, outside it those of
    /// `base`.
    pub open spec fn is_paste_of(self, base: RasterView, tile: RasterView, x0: int, y0: int) -> bool {
        &&& self.wf()
        &&& self.width == base.width
        &&& self.height == base.height
        &&& forall|x: int, y: int, c: int|
            self.in_bounds(x, y, c) ==> #[trigger] self.sample(x, y, c) == if Self::covers(
                tile,
                x0,
                y0,
                x,
                y,
            ) {
                tile.sample(x - x0, y - y0, c)
            } else {
                base.sample(x, y, c)
            }
    }

    /// The rectangle of `content`'s size whose top left corner is at `(x0, y0)` holds
    /// the samples of `content`.
    pub open spec fn holds_at(self, x0: int, y0: int, content: RasterView) -> bool {
        forall|x: int, y: int, c: int|
            content.in_bounds(x, y, c) ==> self.sample(x0 + x, y0 + y, c)
                == #[trigger] content.sample(x, y, c)
    }

    /// Whether the image can be resampled to `width` by `height` pixels: the size is
    /// not empty, and both the result and the intermediate image of the resampling,
    /// which has the source's width, the new height and sixteen bytes for each pixel,
    /// fit in one allocation.
    pub open spec fn can_resample(self, width: u32, height: u32) -> bool {
        &&& 0 < width
        &&& 0 < height
        &&& 4 * width * height <= isize::MAX
        &&& 16 * self.width * height <= isize::MAX
    }

    /// The image resampled to `width` by `height` pixels with the triangle filter.
    pub open spec fn resampled(self, width: u32, height: u32) -> RasterView {
        RasterView {
            width: width as nat,
            height: height as nat,
            samples: triangle_resampled(
                self.samples,
                self.width as u32,
                self.height as u32,
                width,
                height,
            ),
        }
    }

    /// A raster of the given size with every sample zero: transparent black.
    pub open spec fn blank(width: nat, height: nat) -> RasterView {
        RasterView { width, height, samples: Seq::new(4 * width * height, |i: int| 0u8) }
    }
}

/// An image of eight-bit RGBA pixels, held by the `image` crate.
#[verifier::external_body]
pub struct Raster {
    image: image::RgbaImage,
}

/// The samples that a raster holds, in the order of its buffer.
pub uninterp spec fn raster_samples(r: Raster) -> Seq<u8>;

/// Width and height of a raster in pixels.
pub uninterp spec fn raster_dimensions(r: Raster) -> (u32, u32);

/// The samples that resampling with the triangle filter gives, from an image with the
/// samples `samples` and the size `width` by `height`, for the size `new_width` by
/// `new_height`.
pub uninterp spec fn triangle_resampled(
    samples: Seq<u8>,
    width: u32,
    height: u32,
    new_width: u32,
    new_height: u32,
) -> Seq<u8>;

/// What decoding bytes as a PNG image gives: nothing where the bytes are no PNG image
/// that the decoder reads, else width, height and RGBA samples.
pub uninterp spec fn decoded(bytes: Seq<u8>) -> Option<(u32, u32, Seq<u8>)>;

impl View for Raster {
    type V = RasterView;

    open spec fn view(&self) -> RasterView {
        RasterView {
            width: raster_dimensions(*self).0 as nat,
            height: raster_dimensions(*self).1 as nat,
            samples: raster_samples(*self),
        }
    }
}

/// `image::ImageBuffer::new`: a buffer of the given size, every sample zero. It panics
/// where the sample count overflows, which the precondition leaves out.
#[verifier::external_body]
fn raster_new(width: u32, height: u32) -> (r: Raster)
    requires
        4 * width * height <= isize::MAX,
    ensures
        raster_dimensions(r) == (width, height),
        raster_samples(r) == Seq::new((4 * width * height) as nat, |i: int| 0u8),
{
    Raster { image: image::RgbaImage::new(width, height) }
}

/// `image::ImageBuffer::from_raw`: takes the container as the image's buffer where it
/// holds at least four samples for each pixel, and gives nothing otherwise.
#[verifier::external_body]
fn raster_from_raw(width: u32, height: u32, data: Vec<u8>) -> (r: Option<Raster>)
    ensures
        r is Some <==> 4 * width * height <= data@.len(),
        r is Some ==> raster_dimensions(r->0) == (width, height) && raster_samples(r->0)
            == data@,
{
    image::RgbaImage::from_raw(width, height, data).map(|image| Raster { image })
}

/// `image::ImageBuffer::into_raw`: hands out the image's buffer.
#[verifier::external_body]
fn raster_into_raw(r: Raster) -> (data: Vec<u8>)
    ensures
        data@ == raster_samples(r),
{
    r.image.into_raw()
}

/// `image::ImageBuffer::dimensions`: width and height.
#[verifier::external_body]
fn raster_dims(r: &Raster) -> (d: (u32, u32))
    ensures
        d == raster_dimensions(*r),
{
    r.image.dimensions()
}

/// `image::GenericImage::copy_from`: copies `other` into `r` with its top left corner at
/// `(x, y)`. Where `other` does not fit there, it reports so and `r` stays as it was.
#[verifier::external_body]
fn raster_copy_from(r: &mut Raster, other: &Raster, x: u32, y: u32) -> (ok: bool)
    requires
        old(r)@.wf(),
        other@.wf(),
    ensures
        ok <==> x + raster_dimensions(*other).0 <= raster_dimensions(*old(r)).0 && y
            + raster_dimensions(*other).1 <= raster_dimensions(*old(r)).1,
        raster_dimensions(*final(r)) == raster_dimensions(*old(r)),
        !ok ==> raster_samples(*final(r)) == raster_samples(*old(r)),
        ok ==> final(r)@.is_paste_of(old(r)@, other@, x as int, y as int),
{
    image::GenericImage::copy_from(&mut r.image, &other.image, x, y).is_ok()
}

/// `image::imageops::resize` with the triangle filter: a new image of the asked size.
/// Its samples are a function of the source image and that size; where the size is the
/// source's own, they are the source's. On its way it allocates an image of the
/// source's width and the new height with sixteen bytes for each pixel, and it panics
/// where that or the result overflows, which the precondition leaves out.
#[verifier::external_body]
fn raster_resize_triangle(r: &Raster, width: u32, height: u32) -> (out: Raster)
    requires
        r@.wf(),
        0 < width,
        0 < height,
        4 * width * height <= isize::MAX,
        16 * raster_dimensions(*r).0 * height <= isize::MAX,
    ensures
        raster_dimensions(out) == (width, height),
        raster_samples(out).len() == 4 * width * height,
        raster_samples(out) == triangle_resampled(
            raster_samples(*r),
            raster_dimensions(*r).0,
            raster_dimensions(*r).1,
            width,
            height,
        ),
        raster_dimensions(*r) == (width, height) ==> raster_samples(out) == raster_samples(*r),
{
    Raster {
        image: image::imageops::resize(
            &r.image,
            width,
            height,
            image::imageops::FilterType::Triangle,
        ),
    }
}

/// `image::load_from_memory_with_format` for PNG, the result converted to RGBA by
/// `DynamicImage::into_rgba8`: the image that the bytes encode, or nothing where they
/// are no PNG image that the decoder reads.
#[verifier::external_body]
fn decode_png_rgba(bytes: &[u8]) -> (r: Option<Raster>)
    ensures
        r is None <==> decoded(bytes@) is None,
        r is Some ==> r->0@.wf() && decoded(bytes@) == Some(
            (raster_dimensions(r->0).0, raster_dimensions(r->0).1, raster_samples(r->0)),
        ),
{
    image::load_from_memory_with_format(bytes, image::ImageFormat::Png).ok().map(
        |d| Raster { image: d.into_rgba8() },
    )
}

/// Number of bytes of an image with `per_pixel` bytes for each pixel.
fn bytes_needed(per_pixel: u8, width: u32, height: u32) -> (total: u128)
    ensures
        total == per_pixel * width * height,
{
    proof {
        assert(width * height <= 0xffff_ffff * 0xffff_ffff && per_pixel * width * height
            == per_pixel * (width * height)) by (nonlinear_arith)
            requires
                0 <= width <= 0xffff_ffff,
                0 <= height <= 0xffff_ffff,
        ;
    }
    let area: u64 = (width as u64) * (height as u64);
    proof {
        assert(per_pixel * area <= 255 * 0xffff_ffff_ffff_ffff) by (nonlinear_arith)
            requires
                0 <= per_pixel <= 255,
                0 <= area <= 0xffff_ffff_ffff_ffff,
        ;
    }
    (per_pixel as u128) * (area as u128)
}

impl Raster {
    /// A raster of the given size with every sample zero, where such a raster can be
    /// held in memory.
    pub fn blank(width: u32, height: u32) -> (r: Option<Raster>)
        ensures
            r is Some <==> 4 * width * height <= isize::MAX,
            r is Some ==> r->0@ == RasterView::blank(width as nat, height as nat) && r->0@.wf(),
    {
        let total: u128 = bytes_needed(4, width, height);
        if total <= isize::MAX as u128 {
            Some(raster_new(width, height))
        } else {
            None
        }
    }

    /// Width in pixels.
    pub fn width(&self) -> (w: u32)
        ensures
            w == self@.width,
    {
        raster_dims(self).0
    }

    /// Height in pixels.
    pub fn height(&self) -> (h: u32)
        ensures
            h == self@.height,
    {
        raster_dims(self).1
    }

    /// Builds a raster from its samples, where there are exactly four for each pixel
    /// and no more than one allocation holds.
    pub fn from_samples(width: u32, height: u32, data: Vec<u8>) -> (r: Option<Raster>)
        ensures
            r is Some <==> data@.len() == 4 * width * height <= isize::MAX,
            r is Some ==> r->0@ == (RasterView {
                width: width as nat,
                height: height as nat,
                samples: data@,
            }) && r->0@.wf(),
    {
        let total: u128 = bytes_needed(4, width, height);
        if data.len() as u128 != total || total > isize::MAX as u128 {
            return None;
        }
        raster_from_raw(width, height, data)
    }

    /// Hands out the samples.
    pub fn into_samples(self) -> (data: Vec<u8>)
        ensures
            data@ == self@.samples,
    {
        raster_into_raw(self)
    }

    /// Decodes a PNG image into RGBA pixels; nothing where the bytes encode none.
    pub fn decode(bytes: &[u8]) -> (r: Option<Raster>)
        ensures
            r is None <==> decoded(bytes@) is None,
            r is Some ==> r->0@.wf() && decoded(bytes@) == Some(
                (r->0@.width as u32, r->0@.height as u32, r->0@.samples),
            ),
    {
        decode_png_rgba(bytes)
    }

    /// Whether the image can be resampled to `width` by `height` pixels.
    pub fn can_resample(&self, width: u32, height: u32) -> (b: bool)
        ensures
            b == self@.can_resample(width, height),
    {
        let result: u128 = bytes_needed(4, width, height);
        let between: u128 = bytes_needed(16, self.width(), height);
        0 < width && 0 < height && result <= isize::MAX as u128 && between <= isize::MAX as u128
    }

    /// Resamples the image to `width` by `height` pixels with the triangle filter. An
    /// image that has that size already keeps its samples.
    pub fn resample(&self, width: u32, height: u32) -> (out: Raster)
        requires
            self@.wf(),
            self@.can_resample(width, height),
        ensures
            out@ == self@.resampled(width, height),
            out@.wf(),
            self@.width == width && self@.height == height ==> out@.samples == self@.samples,
    {
        raster_resize_triangle(self, width, height)
    }
}

/// Column, in pixels, at which the left edge of `tile` lies in the image of `plan`.
pub open spec fn spec_origin_x(plan: MosaicPlan, tile: TileCoordinate) -> int {
    (tile.x - plan.grid.x_min) * plan.res
}

/// Row, in pixels, at which the top edge of `tile` lies in the image of `plan`.
pub open spec fn spec_origin_y(plan: MosaicPlan, tile: TileCoordinate) -> int {
    (tile.y - plan.grid.y_min) * plan.res
}

/// The pixel at which the top left corner of `tile` lies in the image of `plan`. The
/// tile's square lies inside the image.
pub fn tile_origin(plan: &MosaicPlan, tile: TileCoordinate) -> (o: (u64, u64))
    requires
        plan.wf(),
        plan.grid.contains(tile),
    ensures
        o.0 == spec_origin_x(*plan, tile),
        o.1 == spec_origin_y(*plan, tile),
        o.0 + plan.res <= plan.width,
        o.1 + plan.res <= plan.height,
{
    let dx: u64 = (tile.x - plan.grid.x_min) as u64;
    let dy: u64 = (tile.y - plan.grid.y_min) as u64;
    let res: u64 = plan.res as u64;
    proof {
        lemma_square_is_inside(*plan, tile);
    }
    (dx * res, dy * res)
}

/// Two different tiles of the grid occupy squares of the image that share no pixel.
pub proof fn lemma_tiles_do_not_overlap(plan: MosaicPlan, a: TileCoordinate, b: TileCoordinate)
    requires
        plan.wf(),
        plan.grid.contains(a),
        plan.grid.contains(b),
        a != b,
    ensures
        spec_origin_x(plan, a) + plan.res <= spec_origin_x(plan, b) || spec_origin_x(plan, b)
            + plan.res <= spec_origin_x(plan, a) || spec_origin_y(plan, a) + plan.res
            <= spec_origin_y(plan, b) || spec_origin_y(plan, b) + plan.res <= spec_origin_y(
            plan,
            a,
        ),
{
    let r = plan.res as int;
    let ax = a.x - plan.grid.x_min;
    let bx = b.x - plan.grid.x_min;
    let ay = a.y - plan.grid.y_min;
    let by = b.y - plan.grid.y_min;
    if ax < bx {
        assert(ax * r + r <= bx * r) by (nonlinear_arith)
            requires
                ax + 1 <= bx,
                r >= 0,
        ;
    } else if bx < ax {
        assert(bx * r + r <= ax * r) by (nonlinear_arith)
            requires
                bx + 1 <= ax,
                r >= 0,
        ;
    } else if ay < by {
        assert(ay * r + r <= by * r) by (nonlinear_arith)
            requires
                ay + 1 <= by,
                r >= 0,
        ;
    } else {
        assert(by < ay);
        assert(by * r + r <= ay * r) by (nonlinear_arith)
            requires
                by + 1 <= ay,
                r >= 0,
        ;
    }
}

/// The raster under assembly: the plan it follows, the pixels so far, and the tiles
/// that could not be had and were left blank.
pub struct Mosaic {
    pub plan: MosaicPlan,
    pub raster: Raster,
    pub failed: Vec<TileCoordinate>,
}

impl Mosaic {
    /// The raster has the size that the plan gives, and every tile recorded as failed
    /// is one of the grid's.
    pub open spec fn wf(&self) -> bool {
        &&& self.plan.wf()
        &&& self.raster@.wf()
        &&& self.raster@.width == self.plan.width
        &&& self.raster@.height == self.plan.height
        &&& forall|i: int|
            0 <= i < self.failed@.len() ==> self.plan.grid.contains(#[trigger] self.failed@[i])
    }

    /// The square of the tile at place `j` of the grid's walk holds `content`.
    pub open spec fn square_holds(&self, j: int, content: RasterView) -> bool {
        self.raster@.holds_at(
            spec_origin_x(self.plan, self.plan.grid.spec_tile_at(j)),
            spec_origin_y(self.plan, self.plan.grid.spec_tile_at(j)),
            content,
        )
    }

    /// Whether an image of the plan's size can be held in memory.
    pub open spec fn spec_fits(plan: MosaicPlan) -> bool {
        &&& plan.width <= u32::MAX
        &&& plan.height <= u32::MAX
        &&& 4 * plan.width * plan.height <= isize::MAX
    }

    /// Starts the assembly with a blank raster of the plan's size, where such a raster
    /// can be held in memory.
    pub fn new(plan: MosaicPlan) -> (m: Option<Mosaic>)
        requires
            plan.wf(),
        ensures
            m is Some <==> Self::spec_fits(plan),
            m is Some ==> m->0.wf() && m->0.plan == plan && m->0.failed@.len() == 0 && m->0.raster@
                == RasterView::blank(plan.width as nat, plan.height as nat),
    {
        if plan.width > u32::MAX as u64 || plan.height > u32::MAX as u64 {
            return None;
        }
        match Raster::blank(plan.width as u32, plan.height as u32) {
            Some(raster) => Some(Mosaic { plan, raster, failed: Vec::new() }),
            None => None,
        }
    }

    /// Copies a tile image that has the plan's tile size into the square of `tile`. All
    /// other pixels stay as they were.
    pub fn blit(&mut self, tile: TileCoordinate, resized: &Raster)
        requires
            old(self).wf(),
            old(self).plan.grid.contains(tile),
            resized@.wf(),
            resized@.width == old(self).plan.res,
            resized@.height == old(self).plan.res,
        ensures
            final(self).wf(),
            final(self).plan == old(self).plan,
            final(self).failed@ == old(self).failed@,
            final(self).raster@.is_paste_of(
                old(self).raster@,
                resized@,
                spec_origin_x(old(self).plan, tile),
                spec_origin_y(old(self).plan, tile),
            ),
    {
        let o = tile_origin(&self.plan, tile);
        let ok = raster_copy_from(&mut self.raster, resized, o.0 as u32, o.1 as u32);
        assert(ok);
    }

    /// Whether `image` can be resampled to the plan's tile size.
    pub open spec fn spec_takes(&self, image: RasterView) -> bool {
        image.can_resample(self.plan.res, self.plan.res)
    }

    /// Resamples a tile image to the plan's tile size and copies it into the square of
    /// `tile`; all other pixels stay as they were. An image that cannot be resampled
    /// to that size is not placed: the tile is recorded as failed and its square stays
    /// as it was. Tells whether the image was placed.
    pub fn place(&mut self, tile: TileCoordinate, image: &Raster) -> (placed: bool)
        requires
            old(self).wf(),
            old(self).plan.grid.contains(tile),
            image@.wf(),
        ensures
            final(self).wf(),
            final(self).plan == old(self).plan,
            placed == old(self).spec_takes(image@),
            placed ==> final(self).failed@ == old(self).failed@,
            placed ==> final(self).raster@.is_paste_of(
                old(self).raster@,
                image@.resampled(old(self).plan.res, old(self).plan.res),
                spec_origin_x(old(self).plan, tile),
                spec_origin_y(old(self).plan, tile),
            ),
            !placed ==> final(self).raster@ == old(self).raster@,
            !placed ==> final(self).failed@ == old(self).failed@.push(tile),
    {
        let res = self.plan.res;
        if !image.can_resample(res, res) {
            self.skip(tile);
            return false;
        }
        let resized = image.resample(res, res);
        self.blit(tile, &resized);
        true
    }

    /// Records that `tile` could not be had. Its square stays as it was.
    pub fn skip(&mut self, tile: TileCoordinate)
        requires
            old(self).wf(),
            old(self).plan.grid.contains(tile),
        ensures
            final(self).wf(),
            final(self).plan == old(self).plan,
            final(self).raster@ == old(self).raster@,
            final(self).failed@ == old(self).failed@.push(tile),
    {
        self.failed.push(tile);
    }
}

/// Every sample of a raster is some channel of some pixel.
proof fn lemma_index_is_a_sample(v: RasterView, i: int) -> (r: (int, int, int))
    requires
        v.wf(),
        0 <= i < v.samples.len(),
    ensures
        v.in_bounds(r.0, r.1, r.2),
        4 * (r.1 * v.width + r.0) + r.2 == i,
{
    let w = v.width as int;
    let h = v.height as int;
    let c = i % 4;
    let p = i / 4;
    assert(w > 0) by (nonlinear_arith)
        requires
            0 <= i < 4 * w * h,
            w >= 0,
    ;
    let x = p % w;
    let y = p / w;
    assert(p < w * h) by (nonlinear_arith)
        requires
            p == i / 4,
            0 <= i < 4 * w * h,
    ;
    assert(0 <= y < h && 0 <= x < w && y * w + x == p) by (nonlinear_arith)
        requires
            0 <= p < w * h,
            w > 0,
            x == p % w,
            y == p / w,
    ;
    (x, y, c)
}

/// Two tiles whose squares share no pixel can be copied into a raster in either
/// order: the raster that results is the same.
pub proof fn lemma_paste_order_is_irrelevant(
    base: RasterView,
    a: RasterView,
    ax: int,
    ay: int,
    b: RasterView,
    bx: int,
    by: int,
    after_a: RasterView,
    after_ab: RasterView,
    after_b: RasterView,
    after_ba: RasterView,
)
    requires
        ax + a.width <= bx || bx + b.width <= ax || ay + a.height <= by || by + b.height <= ay,
        after_a.is_paste_of(base, a, ax, ay),
        after_ab.is_paste_of(after_a, b, bx, by),
        after_b.is_paste_of(base, b, bx, by),
        after_ba.is_paste_of(after_b, a, ax, ay),
    ensures
        after_ab == after_ba,
{
    assert forall|i: int| 0 <= i < after_ab.samples.len() implies after_ab.samples[i]
        == after_ba.samples[i] by {
        let (x, y, c) = lemma_index_is_a_sample(after_ab, i);
        assert(after_ab.sample(x, y, c) == after_ab.samples[i]);
        assert(after_ba.sample(x, y, c) == after_ba.samples[i]);
        assert(after_a.in_bounds(x, y, c));
        assert(after_b.in_bounds(x, y, c));
        if RasterView::covers(b, bx, by, x, y) {
            assert(after_ab.sample(x, y, c) == b.sample(x - bx, y - by, c));
            assert(after_b.sample(x, y, c) == b.sample(x - bx, y - by, c));
        } else if RasterView::covers(a, ax, ay, x, y) {
            assert(after_a.sample(x, y, c) == a.sample(x - ax, y - ay, c));
        } else {
            assert(after_a.sample(x, y, c) == base.sample(x, y, c));
            assert(after_b.sample(x, y, c) == base.sample(x, y, c));
        }
    }
    assert(after_ab.samples =~= after_ba.samples);
}

/// How many tiles are handed out together, so that progress can be told about a
/// hundred times in all: one more than a hundredth of the number of tiles.
pub fn progress_chunk(count: usize) -> (len: usize)
    ensures
        len == count / 100 + 1,
        len * 100 > count,
{
    count / 100 + 1
}

/// The samples of a pixel lie inside the buffer.
pub proof fn lemma_sample_is_inside(v: RasterView, x: int, y: int, c: int)
    requires
        v.samples.len() == 4 * v.width * v.height,
        v.in_bounds(x, y, c),
    ensures
        0 <= 4 * (y * v.width + x) + c < v.samples.len(),
{
    let w = v.width as int;
    let h = v.height as int;
    assert(0 <= 4 * (y * w + x) + c < 4 * w * h) by (nonlinear_arith)
        requires
            0 <= x < w,
            0 <= y < h,
            0 <= c < 4,
    ;
}

/// Every sample of a blank raster is zero.
pub proof fn lemma_blank_is_zero(width: nat, height: nat, x: int, y: int, c: int)
    requires
        RasterView::blank(width, height).in_bounds(x, y, c),
    ensures
        RasterView::blank(width, height).sample(x, y, c) == 0,
{
    let v = RasterView::blank(width, height);
    lemma_sample_is_inside(v, x, y, c);
}

/// After a tile was copied into a raster, the rectangle it was copied to holds it.
pub proof fn lemma_paste_sets_rectangle(
    before: RasterView,
    after: RasterView,
    tile: RasterView,
    x0: int,
    y0: int,
)
    requires
        after.is_paste_of(before, tile, x0, y0),
        0 <= x0,
        0 <= y0,
        x0 + tile.width <= after.width,
        y0 + tile.height <= after.height,
    ensures
        after.holds_at(x0, y0, tile),
{
    assert forall|x: int, y: int, c: int| tile.in_bounds(x, y, c) implies after.sample(
        x0 + x,
        y0 + y,
        c,
    ) == #[trigger] tile.sample(x, y, c) by {
        assert(after.in_bounds(x0 + x, y0 + y, c));
        assert(RasterView::covers(tile, x0, y0, x0 + x, y0 + y));
    }
}

/// After a tile was copied into a raster, a rectangle that shares no pixel with the
/// tile's holds what it held before.
pub proof fn lemma_paste_keeps_rectangle(
    before: RasterView,
    after: RasterView,
    tile: RasterView,
    x0: int,
    y0: int,
    content: RasterView,
    x1: int,
    y1: int,
)
    requires
        after.is_paste_of(before, tile, x0, y0),
        before.holds_at(x1, y1, content),
        0 <= x1,
        0 <= y1,
        x1 + content.width <= after.width,
        y1 + content.height <= after.height,
        x0 + tile.width <= x1 || x1 + content.width <= x0 || y0 + tile.height <= y1 || y1
            + content.height <= y0,
    ensures
        after.holds_at(x1, y1, content),
{
    assert forall|x: int, y: int, c: int| content.in_bounds(x, y, c) implies after.sample(
        x1 + x,
        y1 + y,
        c,
    ) == #[trigger] content.sample(x, y, c) by {
        assert(after.in_bounds(x1 + x, y1 + y, c));
        assert(!RasterView::covers(tile, x0, y0, x1 + x, y1 + y));
        assert(after.sample(x1 + x, y1 + y, c) == before.sample(x1 + x, y1 + y, c));
    }
}

/// The square of a tile of the grid lies inside the image.
pub proof fn lemma_square_is_inside(plan: MosaicPlan, tile: TileCoordinate)
    requires
        plan.wf(),
        plan.grid.contains(tile),
    ensures
        0 <= spec_origin_x(plan, tile),
        0 <= spec_origin_y(plan, tile),
        spec_origin_x(plan, tile) + plan.res <= plan.width,
        spec_origin_y(plan, tile) + plan.res <= plan.height,
{
    let dx = tile.x - plan.grid.x_min;
    let dy = tile.y - plan.grid.y_min;
    let res = plan.res as int;
    let cx = plan.grid.spec_count_x();
    let cy = plan.grid.spec_count_y();
    assert(dx * res + res <= res * cx && dx * res >= 0) by (nonlinear_arith)
        requires
            0 <= dx <= cx - 1,
            res >= 0,
    ;
    assert(dy * res + res <= res * cy && dy * res >= 0) by (nonlinear_arith)
        requires
            0 <= dy <= cy - 1,
            res >= 0,
    ;
}

/// Whether there is an image for a tile and it can be resampled to the tile size.
pub open spec fn spec_usable(image: Option<Raster>, res: u32) -> bool {
    image is Some && image->0@.can_resample(res, res)
}

/// What the square of the tile at place `j` is to hold once the images before place
/// `k` have been put in: the image of that tile, resampled to the tile size, if it is
/// among them and can be resampled; else nothing but blank pixels.
pub open spec fn spec_expected(images: Seq<Option<Raster>>, res: u32, j: int, k: int) -> RasterView {
    if j < k && spec_usable(images[j], res) {
        images[j]->0@.resampled(res, res)
    } else {
        RasterView::blank(res as nat, res as nat)
    }
}

/// The tiles for which `images` holds no image that can be resampled to the tile
/// size, in the order of the grid's walk.
pub open spec fn spec_failed(grid: TileGrid, images: Seq<Option<Raster>>, res: u32) -> Seq<
    TileCoordinate,
>
    decreases images.len(),
{
    if images.len() == 0 {
        Seq::empty()
    } else if spec_usable(images.last(), res) {
        spec_failed(grid, images.drop_last(), res)
    } else {
        spec_failed(grid, images.drop_last(), res).push(grid.spec_tile_at(images.len() - 1))
    }
}

/// Assembles the whole mosaic. `images` holds, for each tile of the grid in the order
/// of its walk, the image that was fetched for it, or nothing where none could be
/// had. Each image is resampled to the tile size and fills the square of its tile; a
/// tile without an image, or with one that cannot be resampled to the tile size, is
/// recorded as failed and its square stays blank. There is no mosaic where the raster
/// cannot be held in memory or the images are not one for each tile.
pub fn assemble(plan: MosaicPlan, images: &Vec<Option<Raster>>) -> (m: Option<Mosaic>)
    requires
        plan.wf(),
        forall|j: int|
            0 <= j < images@.len() && (#[trigger] images@[j]) is Some ==> images@[j]->0@.wf(),
    ensures
        m is Some <==> Mosaic::spec_fits(plan) && images@.len() == plan.grid.spec_count_x()
            * plan.grid.spec_count_y(),
        m is Some ==> m->0.wf() && m->0.plan == plan && m->0.failed@ == spec_failed(
            plan.grid,
            images@,
            plan.res,
        ),
        m is Some ==> forall|j: int|
            0 <= j < images@.len() ==> m->0.square_holds(
                j,
                #[trigger] spec_expected(images@, plan.res, j, images@.len() as int),
            ),
{
    let total: u64 = plan.grid.count();
    let n: usize = images.len();
    if n as u64 != total {
        return None;
    }
    let mut m = match Mosaic::new(plan) {
        Some(m) => m,
        None => {
            return None;
        },
    };
    let tiles = match plan.grid.tiles() {
        Some(tiles) => tiles,
        None => {
            return None;
        },
    };
    let res = plan.res;
    proof {
        assert forall|j: int| 0 <= j < n implies m.square_holds(
            j,
            #[trigger] spec_expected(images@, res, j, 0),
        ) by {
            let t = plan.grid.spec_tile_at(j);
            lemma_tile_at(plan.grid, j);
            lemma_square_is_inside(plan, t);
            let ox = spec_origin_x(plan, t);
            let oy = spec_origin_y(plan, t);
            let small = RasterView::blank(res as nat, res as nat);
            assert forall|x: int, y: int, c: int| small.in_bounds(x, y, c) implies m.raster@.sample(
                ox + x,
                oy + y,
                c,
            ) == #[trigger] small.sample(x, y, c) by {
                lemma_blank_is_zero(res as nat, res as nat, x, y, c);
                lemma_blank_is_zero(plan.width as nat, plan.height as nat, ox + x, oy + y, c);
            }
        }
        assert(images@.subrange(0, 0) =~= Seq::<Option<Raster>>::empty());
    }
    let mut k: usize = 0;
    while k < n
        invariant
            plan.wf(),
            res == plan.res,
            k <= n,
            n == images@.len(),
            n == tiles@.len(),
            n == plan.grid.spec_count_x() * plan.grid.spec_count_y(),
            forall|j: int|
                0 <= j < images@.len() && (#[trigger] images@[j]) is Some ==> images@[j]->0@.wf(),
            forall|j: int| 0 <= j < n ==> #[trigger] tiles@[j] == plan.grid.spec_tile_at(j),
            m.wf(),
            m.plan == plan,
            m.failed@ == spec_failed(plan.grid, images@.subrange(0, k as int), res),
            forall|j: int|
                0 <= j < n ==> m.square_holds(
                    j,
                    #[trigger] spec_expected(images@, res, j, k as int),
                ),
        decreases n - k,
    {
        let t = tiles[k];
        let ghost before = m.raster@;
        let ghost ox = spec_origin_x(plan, t);
        let ghost oy = spec_origin_y(plan, t);
        proof {
            lemma_tile_at(plan.grid, k as int);
            lemma_square_is_inside(plan, t);
            let next = images@.subrange(0, k + 1);
            assert(next.drop_last() =~= images@.subrange(0, k as int));
            assert(next.last() == images@[k as int]);
        }
        match &images[k] {
            Some(image) => {
                let placed = m.place(t, image);
                proof {
                    let pasted = image@.resampled(res, res);
                    let after = m.raster@;
                    assert forall|j: int| 0 <= j < n implies m.square_holds(
                        j,
                        #[trigger] spec_expected(images@, res, j, k + 1),
                    ) by {
                        let tj = plan.grid.spec_tile_at(j);
                        lemma_tile_at(plan.grid, j);
                        lemma_square_is_inside(plan, tj);
                        if !placed {
                            assert(spec_expected(images@, res, j, k + 1) == spec_expected(
                                images@,
                                res,
                                j,
                                k as int,
                            ));
                        } else if j == k {
                            lemma_paste_sets_rectangle(before, after, pasted, ox, oy);
                        } else {
                            lemma_tile_at_is_injective(plan.grid, j, k as int);
                            lemma_tiles_do_not_overlap(plan, t, tj);
                            let content = spec_expected(images@, res, j, k as int);
                            assert(spec_expected(images@, res, j, k + 1) == content);
                            lemma_paste_keeps_rectangle(
                                before,
                                after,
                                pasted,
                                ox,
                                oy,
                                content,
                                spec_origin_x(plan, tj),
                                spec_origin_y(plan, tj),
                            );
                        }
                    }
                }
            },
            None => {
                m.skip(t);
                proof {
                    assert forall|j: int| 0 <= j < n implies m.square_holds(
                        j,
                        #[trigger] spec_expected(images@, res, j, k + 1),
                    ) by {
                        assert(spec_expected(images@, res, j, k + 1) == spec_expected(
                            images@,
                            res,
                            j,
                            k as int,
                        ));
                    }
                }
            },
        }
        k = k + 1;
    }
    proof {
        assert(images@.subrange(0, n as int) =~= images@);
    }
    Some(m)
}

} // verus!
