//! Laying finished pixel colours out in the output image.
//!
//! Colours are produced bottom row first, the way the image plane is
//! parameterised; the image stores its top row first. `render` does the flip.

use image::DynamicImage;
use vstd::prelude::*;

verus! {

#[verifier::external_type_specification]
#[verifier::external_body]
pub struct ExDynamicImage(image::DynamicImage);

/// What an image holds: for an image backed by a buffer of 8-bit RGB pixels,
/// the map from each (column, row) inside the image to the bytes stored
/// there; for an image of any other layout, the empty map.
pub uninterp spec fn raster_pixels(img: DynamicImage) -> Map<(int, int), (u8, u8, u8)>;

/// A quantised colour: one byte per channel.
#[derive(Clone, Copy, Debug, PartialEq, Eq, Structural)]
pub struct Rgb {
    pub r: u8,
    pub g: u8,
    pub b: u8,
}

impl Rgb {
    /// The three channels as a tuple, in the order red, green, blue.
    pub open spec fn channels(self) -> (u8, u8, u8) {
        (self.r, self.g, self.b)
    }
}

/// Rendering configuration: the size of the image in pixels, the number of
/// samples averaged into each pixel and the longest light path that is
/// followed.
#[derive(Clone, Copy, Debug, PartialEq, Eq, Structural)]
pub struct ImageInfo {
    pub width: u32,
    pub height: u32,
    pub samples_per_pixel: u32,
    pub max_depth: i32,
}

impl ImageInfo {
    /// The number of pixels of the image.
    pub open spec fn pixel_count(self) -> int {
        self.width * self.height
    }

    /// Whether column `x`, row `y` lies inside the image.
    pub open spec fn contains(self, x: int, y: int) -> bool {
        0 <= x < self.width && 0 <= y < self.height
    }

    /// The image row that shows row `y` of the image plane: the plane counts
    /// rows from the bottom, the image from the top.
    pub open spec fn flipped(self, y: int) -> int {
        self.height - 1 - y
    }

    /// Where the colour of pixel (`x`, `y`) of the image plane stands in a
    /// sequence of colours given row by row, bottom row first.
    pub open spec fn sample_index(self, x: int, y: int) -> int {
        y * self.width + x
    }

    /// Whether `n` colours are exactly one per pixel, and the image's buffer
    /// of three bytes per pixel can be allocated.
    pub open spec fn renderable(self, n: int) -> bool {
        n == self.pixel_count() && 3 * self.pixel_count() <= isize::MAX
    }

    /// Whether `img` is the image of this size that shows `colors`: it holds
    /// exactly the pixels inside the image, and the pixel in column `x` of
    /// image row `row` is the colour computed for (`x`, `flipped(row)`).
    pub open spec fn shows(self, img: DynamicImage, colors: Seq<Rgb>) -> bool {
        &&& forall|x: int, row: int|
            #![trigger raster_pixels(img).dom().contains((x, row))]
            #![trigger self.contains(x, row)]
            raster_pixels(img).dom().contains((x, row)) <==> self.contains(x, row)
        &&& forall|x: int, row: int|
            self.contains(x, row) ==> #[trigger] raster_pixels(img)[(x, row)]
                == colors[self.sample_index(x, self.flipped(row))].channels()
    }

    /// The image row for row `y` of the image plane.
    pub fn sink_row(&self, y: u32) -> (row: u32)
        requires
            y < self.height,
        ensures
            row == self.flipped(y as int),
            row < self.height,
    {
        self.height - 1 - y
    }
}

/// Calls `image::DynamicImage::new_rgb8`. Trusted: the new image is backed by
/// 8-bit RGB and holds exactly the pixels of a `width` by `height` image. The
/// bound keeps the buffer of three bytes per pixel within what can be
/// allocated; beyond it the call panics.
#[verifier::external_body]
fn new_rgb8(width: u32, height: u32) -> (img: DynamicImage)
    requires
        3 * (width * height) <= isize::MAX,
    ensures
        forall|x: int, y: int|
            raster_pixels(img).dom().contains((x, y)) <==> (0 <= x < width && 0 <= y < height),
{
    DynamicImage::new_rgb8(width, height)
}

/// Calls `image::GenericImage::put_pixel` on a `DynamicImage`. Trusted: on an
/// image backed by 8-bit RGB the pixel at (`x`, `y`) becomes (`r`, `g`, `b`),
/// the alpha byte is dropped, and no other pixel changes. The call panics
/// outside the image, so the position must be one that the image holds.
#[verifier::external_body]
fn put_pixel(img: &mut DynamicImage, x: u32, y: u32, r: u8, g: u8, b: u8, a: u8)
    requires
        raster_pixels(*old(img)).dom().contains((x as int, y as int)),
    ensures
        raster_pixels(*final(img)) == raster_pixels(*old(img)).insert(
            (x as int, y as int),
            (r, g, b),
        ),
{
    image::GenericImage::put_pixel(img, x, y, image::Rgba([r, g, b, a]));
}

/// Builds the output image from the colours of all pixels, given row by row
/// from the bottom row of the image plane upwards, each row from left to
/// right. Every colour is stored opaque, in the image row that mirrors its
/// row of the plane. There is no image when the colours are not exactly one
/// per pixel, or when the image is too large to be allocated.
pub fn render(info: &ImageInfo, colors: &Vec<Rgb>) -> (out: Option<DynamicImage>)
    ensures
        out is Some <==> info.renderable(colors@.len() as int),
        out is Some ==> info.shows(out->Some_0, colors@),
{
    assert(info.width * info.height <= u64::MAX) by (nonlinear_arith)
        requires
            info.width <= u32::MAX,
            info.height <= u32::MAX,
    ;
    let count: u64 = (info.width as u64) * (info.height as u64);
    if count > (isize::MAX as u64) / 3 || colors.len() as u64 != count {
        return None;
    }
    let width: usize = info.width as usize;
    let mut img = new_rgb8(info.width, info.height);
    let mut y: u32 = 0;
    while y < info.height
        invariant
            y <= info.height,
            width == info.width,
            colors@.len() == info.pixel_count(),
            3 * info.pixel_count() <= isize::MAX,
            forall|x: int, row: int|
                raster_pixels(img).dom().contains((x, row)) <==> info.contains(x, row),
            forall|x: int, row: int|
                info.contains(x, row) && info.flipped(row) < y ==> #[trigger] raster_pixels(
                    img,
                )[(x, row)] == colors@[info.sample_index(x, info.flipped(row))].channels(),
        decreases info.height - y,
    {
        let row: u32 = info.sink_row(y);
        let mut x: u32 = 0;
        while x < info.width
            invariant
                y < info.height,
                x <= info.width,
                width == info.width,
                row == info.flipped(y as int),
                colors@.len() == info.pixel_count(),
                3 * info.pixel_count() <= isize::MAX,
                forall|c: int, r: int|
                    raster_pixels(img).dom().contains((c, r)) <==> info.contains(c, r),
                forall|c: int, r: int|
                    info.contains(c, r) && (info.flipped(r) < y || (r == row && c < x))
                        ==> #[trigger] raster_pixels(img)[(c, r)] == colors@[info.sample_index(
                        c,
                        info.flipped(r),
                    )].channels(),
            decreases info.width - x,
        {
            proof {
                lemma_sample_index_in_range(*info, x as int, y as int);
                assert(info.contains(x as int, row as int));
                assert(raster_pixels(img).dom().contains((x as int, row as int)));
            }
            let color: Rgb = colors[(y as usize) * width + (x as usize)];
            put_pixel(&mut img, x, row, color.r, color.g, color.b, 255);
            x = x + 1;
        }
        y = y + 1;
    }
    Some(img)
}

/// The colour of a pixel inside the image has a place among one colour per
/// pixel.
proof fn lemma_sample_index_in_range(info: ImageInfo, x: int, y: int)
    requires
        info.contains(x, y),
    ensures
        0 <= info.sample_index(x, y) < info.pixel_count(),
        y * info.width >= 0,
{
    let w = info.width as int;
    let h = info.height as int;
    assert(0 <= y * w && y * w + w <= h * w) by (nonlinear_arith)
        requires
            0 <= y < h,
            0 <= w,
    ;
    assert(h * w == w * h) by (nonlinear_arith);
}

} // verus!
