//! Images: the source image of the `image` crate, read pixel by pixel, and
//! the 8-bit RGB buffer that the passes fill.

use vstd::prelude::*;
use crate::color::{convert_srgb, is_lab_of, Lab, Rgb8};

verus! {

/// The source image of the `image` crate. It is carried and read through
/// the functions below; nothing of its layout is known here.
#[verifier::external_type_specification]
#[verifier::external_body]
pub struct ExDynamicImage(image::DynamicImage);

/// An image of 8-bit RGB pixels, held in an `ImageBuffer` of the `image`
/// crate.
#[verifier::external_body]
pub struct PixelBuffer {
    inner: image::RgbImage,
}

/// Width and height of a source image.
pub uninterp spec fn image_dimensions(img: image::DynamicImage) -> (u32, u32);

/// The pixels of a source image by column and row, without their alpha.
pub uninterp spec fn image_pixels(img: image::DynamicImage) -> Map<(u32, u32), Rgb8>;

/// Width and height that a buffer was made with.
pub uninterp spec fn buffer_dimensions(buffer: PixelBuffer) -> (u32, u32);

/// The pixels of a buffer by column and row.
pub uninterp spec fn buffer_pixels(buffer: PixelBuffer) -> Map<(u32, u32), Rgb8>;

/// The columns and rows of an image of the given size.
pub open spec fn positions(width: u32, height: u32) -> Set<(u32, u32)> {
    Set::new(|at: (u32, u32)| at.0 < width && at.1 < height)
}

/// A black image of the given size.
pub open spec fn blank(width: u32, height: u32) -> Map<(u32, u32), Rgb8> {
    Map::new(
        |at: (u32, u32)| at.0 < width && at.1 < height,
        |at: (u32, u32)| Rgb8 { red: 0, green: 0, blue: 0 },
    )
}

/// The largest number of samples that a buffer can hold.
pub open spec fn sample_limit() -> int {
    isize::MAX as int
}

/// Calls `GenericImageView::dimensions` on the source image.
#[verifier::external_body]
fn source_dimensions(img: &image::DynamicImage) -> (size: (u32, u32))
    ensures
        size == image_dimensions(*img),
{
    image::GenericImageView::dimensions(img)
}

/// Calls `GenericImageView::get_pixel` on the source image, which panics
/// outside the image, and `Pixel::to_rgb`, which drops the alpha channel.
#[verifier::external_body]
fn source_pixel(img: &image::DynamicImage, x: u32, y: u32) -> (pixel: Rgb8)
    requires
        x < image_dimensions(*img).0,
        y < image_dimensions(*img).1,
    ensures
        pixel == image_pixels(*img)[(x, y)],
{
    let rgb = image::Pixel::to_rgb(&image::GenericImageView::get_pixel(img, x, y));
    Rgb8 { red: rgb.0[0], green: rgb.0[1], blue: rgb.0[2] }
}

/// Calls `ImageBuffer::new`, which gives an image whose samples are all zero
/// and panics where three samples per pixel are more than a vector holds.
#[verifier::external_body]
fn blank_buffer(width: u32, height: u32) -> (buffer: PixelBuffer)
    requires
        3 * width * height <= sample_limit(),
    ensures
        buffer_dimensions(buffer) == (width, height),
        buffer_pixels(buffer) == blank(width, height),
{
    PixelBuffer { inner: image::ImageBuffer::new(width, height) }
}

/// Calls `ImageBuffer::dimensions`.
#[verifier::external_body]
fn buffer_size(buffer: &PixelBuffer) -> (size: (u32, u32))
    ensures
        size == buffer_dimensions(*buffer),
{
    buffer.inner.dimensions()
}

/// Calls `ImageBuffer::get_pixel`, which panics outside the image.
#[verifier::external_body]
fn load_pixel(buffer: &PixelBuffer, x: u32, y: u32) -> (pixel: Rgb8)
    requires
        x < buffer_dimensions(*buffer).0,
        y < buffer_dimensions(*buffer).1,
    ensures
        pixel == buffer_pixels(*buffer)[(x, y)],
{
    let rgb = buffer.inner.get_pixel(x, y);
    Rgb8 { red: rgb.0[0], green: rgb.0[1], blue: rgb.0[2] }
}

/// Calls `ImageBuffer::put_pixel`, which overwrites one pixel and panics
/// outside the image.
#[verifier::external_body]
fn store_pixel(buffer: &mut PixelBuffer, x: u32, y: u32, pixel: Rgb8)
    requires
        x < buffer_dimensions(*old(buffer)).0,
        y < buffer_dimensions(*old(buffer)).1,
    ensures
        buffer_dimensions(*final(buffer)) == buffer_dimensions(*old(buffer)),
        buffer_pixels(*final(buffer)) == buffer_pixels(*old(buffer)).insert((x, y), pixel),
{
    buffer.inner.put_pixel(x, y, image::Rgb([pixel.red, pixel.green, pixel.blue]));
}

/// The number of pixels of an image of the given size.
pub fn pixel_count(width: u32, height: u32) -> (count: u64)
    ensures
        count == width * height,
{
    assert(width * height <= 0xffff_ffff * 0xffff_ffff) by (nonlinear_arith)
        requires
            width <= 0xffff_ffff,
            height <= 0xffff_ffff,
    ;
    (width as u64) * (height as u64)
}

/// Tells whether a buffer of the given size can be made.
pub fn fits_in_memory(width: u32, height: u32) -> (fits: bool)
    ensures
        fits == (3 * width * height <= sample_limit()),
{
    let count = pixel_count(width, height);
    let limit: u64 = (isize::MAX as u64) / 3;
    assert(3 * width * height == 3 * (width * height)) by (nonlinear_arith);
    count <= limit
}

/// Turns the running number of a pixel, counted row by row, into its column
/// and row. A row number beyond 32 bits is cut to its low 32 bits.
pub fn get_coordinates(i: u64, width: u32) -> (at: (u32, u32))
    requires
        width > 0,
    ensures
        at.0 == i % (width as u64),
        at.1 == (i / (width as u64)) % 0x1_0000_0000,
{
    let x = (i % width as u64) as u32;
    let y = ((i / width as u64) % 0x1_0000_0000) as u32;
    (x, y)
}

/// The running number of the pixel in column `x` of row `y`.
pub open spec fn running_number(x: u32, y: u32, width: u32) -> int {
    y * width + x
}

/// Within an image, the column and row of a pixel are those that
/// `get_coordinates` gives for its running number.
pub proof fn lemma_coordinates_of_running_number(x: u32, y: u32, width: u32)
    requires
        x < width,
    ensures
        running_number(x, y, width) % (width as int) == x,
        running_number(x, y, width) / (width as int) == y,
{
    vstd::arithmetic::div_mod::lemma_fundamental_div_mod_converse(
        running_number(x, y, width),
        width as int,
        y as int,
        x as int,
    );
}

/// The pixel in column `x` of row `y`.
pub open spec fn pixel_at(pixels: Map<(u32, u32), Rgb8>, x: u32, y: u32) -> Rgb8 {
    pixels[(x, y)]
}

/// Whether a buffer for an image of this size can be made.
pub open spec fn holds_image(size: (u32, u32)) -> bool {
    3 * size.0 * size.1 <= sample_limit()
}

/// The column and row of the pixel with running number `i`.
pub open spec fn position_of(i: int, width: u32) -> (u32, u32) {
    ((i % (width as int)) as u32, (i / (width as int)) as u32)
}

/// The column and row of the pixel with running number `i` lie in the image,
/// and `i` is their running number.
pub proof fn lemma_position_of(i: int, width: u32, height: u32)
    requires
        0 <= i < width * height,
    ensures
        width > 0,
        0 <= i % (width as int) < width,
        0 <= i / (width as int) < height,
        running_number(position_of(i, width).0, position_of(i, width).1, width) == i,
{
    assert(width > 0) by (nonlinear_arith)
        requires
            0 <= i < width * height,
    ;
    vstd::arithmetic::div_mod::lemma_multiply_divide_lt(i, width as int, height as int);
    vstd::arithmetic::div_mod::lemma_fundamental_div_mod(i, width as int);
    vstd::arithmetic::div_mod::lemma_div_pos_is_pos(i, width as int);
    assert((width as int) * (i / width as int) == (i / width as int) * (width as int))
        by (nonlinear_arith);
}

/// Every position of an image has a running number below the number of
/// pixels, and is the position of that number.
pub proof fn lemma_running_number_of(x: u32, y: u32, width: u32, height: u32)
    requires
        x < width,
        y < height,
    ensures
        0 <= running_number(x, y, width) < width * height,
        position_of(running_number(x, y, width), width) == (x, y),
{
    assert(y * width + x < width * height) by (nonlinear_arith)
        requires
            x < width,
            y < height,
    ;
    lemma_coordinates_of_running_number(x, y, width);
}

/// The pixels of an image that a buffer can hold can be counted in `usize`.
pub proof fn lemma_count_fits(width: u32, height: u32)
    requires
        holds_image((width, height)),
    ensures
        width * height <= usize::MAX,
{
    assert(width * height <= 3 * width * height) by (nonlinear_arith);
}

impl View for PixelBuffer {
    type V = Map<(u32, u32), Rgb8>;

    open spec fn view(&self) -> Map<(u32, u32), Rgb8> {
        buffer_pixels(*self)
    }
}

impl PixelBuffer {
    /// The number of columns.
    pub open spec fn width(&self) -> u32 {
        buffer_dimensions(*self).0
    }

    /// The number of rows.
    pub open spec fn height(&self) -> u32 {
        buffer_dimensions(*self).1
    }

    /// The buffer holds a pixel at each of its positions and nowhere else.
    pub open spec fn wf(&self) -> bool {
        self@.dom() == positions(self.width(), self.height())
    }

    /// A black image, or `None` where an image of that size cannot be held.
    pub fn new(width: u32, height: u32) -> (made: Option<PixelBuffer>)
        ensures
            made is Some <==> 3 * width * height <= sample_limit(),
            made matches Some(buffer) ==> buffer.wf() && buffer.width() == width && buffer.height()
                == height && buffer@ == blank(width, height),
    {
        if fits_in_memory(width, height) {
            let buffer = blank_buffer(width, height);
            assert(buffer@.dom() =~= positions(width, height));
            Some(buffer)
        } else {
            None
        }
    }

    /// Width and height of the image.
    pub fn dimensions(&self) -> (size: (u32, u32))
        ensures
            size == (self.width(), self.height()),
    {
        buffer_size(self)
    }

    /// The pixel in column `x` of row `y`.
    pub fn get_pixel(&self, x: u32, y: u32) -> (pixel: Rgb8)
        requires
            x < self.width(),
            y < self.height(),
        ensures
            pixel == self@[(x, y)],
    {
        load_pixel(self, x, y)
    }

    /// Overwrites the pixel in column `x` of row `y`.
    pub fn put_pixel(&mut self, x: u32, y: u32, pixel: Rgb8)
        requires
            x < old(self).width(),
            y < old(self).height(),
        ensures
            final(self).width() == old(self).width(),
            final(self).height() == old(self).height(),
            final(self)@ == old(self)@.insert((x, y), pixel),
            old(self).wf() ==> final(self).wf(),
    {
        store_pixel(self, x, y, pixel);
        proof {
            if old(self).wf() {
                assert(old(self)@.dom().contains((x, y)));
                assert(self@.dom() =~= old(self)@.dom());
            }
        }
    }
}

/// Width and height of the source image.
pub fn dimensions(img: &image::DynamicImage) -> (size: (u32, u32))
    ensures
        size == image_dimensions(*img),
{
    source_dimensions(img)
}

/// The pixel in column `x` of row `y` of the source image, without its alpha.
pub fn get_pixel(img: &image::DynamicImage, x: u32, y: u32) -> (pixel: Rgb8)
    requires
        x < image_dimensions(*img).0,
        y < image_dimensions(*img).1,
    ensures
        pixel == image_pixels(*img)[(x, y)],
{
    source_pixel(img, x, y)
}

/// The L\*a\*b\* color of the pixel in column `x` of row `y` of the source
/// image.
pub fn get_lab_color(img: &image::DynamicImage, x: u32, y: u32) -> (color: Lab)
    requires
        x < image_dimensions(*img).0,
        y < image_dimensions(*img).1,
    ensures
        is_lab_of(image_pixels(*img)[(x, y)], color),
{
    let pixel = source_pixel(img, x, y);
    convert_srgb(pixel)
}

} // verus!
