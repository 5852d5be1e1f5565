//! The pixel buffer that a render fills: an `image::RgbImage` of 8-bit RGB pixels.
//!
//! `image::ImageBuffer` is generic over `image::Pixel`, a trait that verified code cannot name,
//! so the image is held in an opaque struct and reached through three wrappers.
use vstd::prelude::*;
use image::RgbImage;

verus! {

/// An `image::RgbImage`, seen from verified code through the functions below only.
#[verifier::external_body]
pub struct PixelBuffer {
    img: RgbImage,
}

/// An 8-bit RGB pixel value.
pub type Rgb8 = (u8, u8, u8);

/// The width and height of an image.
pub uninterp spec fn image_dimensions(img: PixelBuffer) -> (u32, u32);

/// The pixels of an image, by `(x, y)` coordinate.
pub uninterp spec fn image_pixels(img: PixelBuffer) -> Map<(u32, u32), Rgb8>;

/// The coordinates of an image of the given size.
pub open spec fn coordinates(width: u32, height: u32) -> Set<(u32, u32)> {
    Set::new(|c: (u32, u32)| c.0 < width && c.1 < height)
}

/// Relies on `image::ImageBuffer::new`: a buffer of the given size with every sample zero. It
/// panics when `3 * width * height` overflows `usize`, and its `vec!` when that exceeds
/// `isize::MAX`.
#[verifier::external_body]
fn blank_image(width: u32, height: u32) -> (r: PixelBuffer)
    requires
        3 * (width as int) * (height as int) <= isize::MAX,
    ensures
        image_dimensions(r) == (width, height),
        image_pixels(r).dom() == coordinates(width, height),
        forall|c: (u32, u32)|
            #[trigger] coordinates(width, height).contains(c) ==> image_pixels(r)[c] == (
                0u8,
                0u8,
                0u8,
            ),
{
    PixelBuffer { img: RgbImage::new(width, height) }
}

/// Relies on `image::ImageBuffer::put_pixel`: sets the pixel at `(x, y)`; it panics out of
/// bounds.
#[verifier::external_body]
fn put_rgb(img: &mut PixelBuffer, x: u32, y: u32, rgb: Rgb8)
    requires
        x < image_dimensions(*old(img)).0,
        y < image_dimensions(*old(img)).1,
    ensures
        image_dimensions(*final(img)) == image_dimensions(*old(img)),
        image_pixels(*final(img)) == image_pixels(*old(img)).insert((x, y), rgb),
{
    img.img.put_pixel(x, y, image::Rgb([rgb.0, rgb.1, rgb.2]));
}

/// Relies on `image::ImageBuffer::get_pixel`: the pixel at `(x, y)`; it panics out of bounds.
#[verifier::external_body]
fn get_rgb(img: &PixelBuffer, x: u32, y: u32) -> (r: Rgb8)
    requires
        x < image_dimensions(*img).0,
        y < image_dimensions(*img).1,
    ensures
        r == image_pixels(*img)[(x, y)],
{
    let p = img.img.get_pixel(x, y);
    (p.0[0], p.0[1], p.0[2])
}

/// A rectangular grid of RGB pixels.
pub struct Canvas {
    pub width: u32,
    pub height: u32,
    pub pixels: PixelBuffer,
}

impl Canvas {
    /// The canvas's image has the canvas's size and one pixel per coordinate.
    pub open spec fn wf(&self) -> bool {
        &&& image_dimensions(self.pixels) == (self.width, self.height)
        &&& image_pixels(self.pixels).dom() == coordinates(self.width, self.height)
    }

    /// The pixel at `(x, y)`.
    pub open spec fn pixel(&self, x: u32, y: u32) -> Rgb8 {
        image_pixels(self.pixels)[(x, y)]
    }

    /// A black canvas of the given size. The size in bytes must not exceed `isize::MAX`.
    pub fn new(width: u32, height: u32) -> (r: Self)
        requires
            3 * (width as int) * (height as int) <= isize::MAX,
        ensures
            r.wf(),
            r.width == width,
            r.height == height,
            forall|x: u32, y: u32| x < width && y < height ==> #[trigger] r.pixel(x, y) == (
                0u8,
                0u8,
                0u8,
            ),
    {
        let pixels = blank_image(width, height);
        let r = Canvas { width, height, pixels };
        assert forall|x: u32, y: u32| x < width && y < height implies #[trigger] r.pixel(x, y) == (
            0u8,
            0u8,
            0u8,
        ) by {
            assert(coordinates(width, height).contains((x, y)));
        }
        r
    }

    /// Sets the pixel at `(x, y)`; every other pixel stays as it was.
    pub fn write_pixel(&mut self, x: u32, y: u32, rgb: Rgb8)
        requires
            old(self).wf(),
            x < old(self).width,
            y < old(self).height,
        ensures
            final(self).wf(),
            final(self).width == old(self).width,
            final(self).height == old(self).height,
            final(self).pixel(x, y) == rgb,
            forall|a: u32, b: u32|
                a < old(self).width && b < old(self).height && (a, b) != (x, y)
                    ==> #[trigger] final(self).pixel(a, b) == old(self).pixel(a, b),
    {
        put_rgb(&mut self.pixels, x, y, rgb);
        proof {
            assert(coordinates(self.width, self.height).contains((x, y)));
            assert(image_pixels(self.pixels).dom() =~= coordinates(self.width, self.height));
        }
    }

    /// The pixel at `(x, y)`.
    pub fn read_pixel(&self, x: u32, y: u32) -> (r: Rgb8)
        requires
            self.wf(),
            x < self.width,
            y < self.height,
        ensures
            r == self.pixel(x, y),
    {
        get_rgb(&self.pixels, x, y)
    }

    /// Writes one row of a render: the pixel `(x, y)` becomes `row[x]` where that is `Some`;
    /// pixels whose entry is `None` (no ray could be cast) and all other rows stay as they were.
    pub fn write_row(&mut self, y: u32, row: &Vec<Option<Rgb8>>)
        requires
            old(self).wf(),
            y < old(self).height,
            row@.len() <= old(self).width,
        ensures
            final(self).wf(),
            final(self).width == old(self).width,
            final(self).height == old(self).height,
            forall|a: u32, b: u32|
                a < old(self).width && b < old(self).height ==> #[trigger] final(self).pixel(a, b)
                    == if b == y && a < row@.len() && row@[a as int].is_some() {
                    row@[a as int].unwrap()
                } else {
                    old(self).pixel(a, b)
                },
    {
        let mut x: usize = 0;
        while x < row.len()
            invariant
                x <= row@.len(),
                row@.len() <= self.width,
                y < self.height,
                self.wf(),
                self.width == old(self).width,
                self.height == old(self).height,
                forall|a: u32, b: u32|
                    a < self.width && b < self.height ==> #[trigger] self.pixel(a, b) == if b == y
                        && a < x && row@[a as int].is_some() {
                        row@[a as int].unwrap()
                    } else {
                        old(self).pixel(a, b)
                    },
            decreases row@.len() - x,
        {
            match row[x] {
                Some(rgb) => {
                    self.write_pixel(x as u32, y, rgb);
                },
                None => {},
            }
            x = x + 1;
        }
    }
}

} // verus!
