//! Frames in BGR order: the pixel, and the buffer that a frame is read into.

use vstd::prelude::*;

verus! {

/// A pixel in blue, green, red order.
#[derive(Clone, Copy, Debug, PartialEq, Eq)]
pub struct Bgr(pub [u8; 3]);

impl Bgr {
    /// The number of channels.
    pub const CHANNEL_COUNT: u8 = 3;

    /// The channels, in blue, green, red order.
    pub fn channels(&self) -> (channels: &[u8; 3])
        ensures
            *channels == self.0,
    {
        &self.0
    }

    /// The channels with an opaque alpha after them.
    pub fn channels4(&self) -> (channels: (u8, u8, u8, u8))
        ensures
            channels == (self.0[0], self.0[1], self.0[2], u8::MAX),
    {
        (self.0[0], self.0[1], self.0[2], u8::MAX)
    }

    /// A pixel of the first three channels given; the fourth is dropped.
    pub fn from_channels(a: u8, b: u8, c: u8, _d: u8) -> (pixel: Self)
        ensures
            pixel.0@ == seq![a, b, c],
    {
        Bgr([a, b, c])
    }

    /// The channels in red, green, blue order.
    pub fn to_rgb(&self) -> (rgb: [u8; 3])
        ensures
            rgb@ == seq![self.0[2], self.0[1], self.0[0]],
    {
        [self.0[2], self.0[1], self.0[0]]
    }

    /// The channels in red, green, blue order, with an opaque alpha after them.
    pub fn to_rgba(&self) -> (rgba: [u8; 4])
        ensures
            rgba@ == seq![self.0[2], self.0[1], self.0[0], u8::MAX],
    {
        [self.0[2], self.0[1], self.0[0], u8::MAX]
    }

    /// Replaces every channel by its complement.
    pub fn invert(&mut self)
        ensures
            final(self).0@ == seq![
                (u8::MAX - old(self).0[0]) as u8,
                (u8::MAX - old(self).0[1]) as u8,
                (u8::MAX - old(self).0[2]) as u8,
            ],
    {
        let inverted = [u8::MAX - self.0[0], u8::MAX - self.0[1], u8::MAX - self.0[2]];
        self.0 = inverted;
    }
}

/// An image whose pixels are in blue, green, red order, three bytes each:
/// an `image::RgbImage` read in that order.
#[verifier::external_body]
pub struct BgrImage {
    image: image::RgbImage,
}

/// The subpixels that an image holds, row by row.
pub uninterp spec fn image_bytes(image: BgrImage) -> Seq<u8>;

/// The width and the height of an image, in pixels.
pub uninterp spec fn image_size(image: BgrImage) -> (u32, u32);

impl BgrImage {
    /// `image::ImageBuffer::new`: an image of the given size, every subpixel
    /// of which is zero. It panics where the number of subpixels does not
    /// fit a vector, which the precondition excludes.
    #[verifier::external_body]
    fn zeroed(width: u32, height: u32) -> (image: Self)
        requires
            3 * width * height <= isize::MAX,
        ensures
            image_size(image) == (width, height),
            image_bytes(image) == Seq::new((3 * width * height) as nat, |i: int| 0u8),
    {
        BgrImage { image: image::ImageBuffer::new(width, height) }
    }

    /// `image::ImageBuffer::dimensions`: the width and the height.
    #[verifier::external_body]
    fn raw_dimensions(&self) -> (size: (u32, u32))
        ensures
            size == image_size(*self),
    {
        self.image.dimensions()
    }

    /// `image::ImageBuffer::as_raw`: the subpixels, row by row.
    #[verifier::external_body]
    fn raw(&self) -> (bytes: &[u8])
        ensures
            bytes@ == image_bytes(*self),
    {
        self.image.as_raw().as_slice()
    }

    /// The mutable deref of `image::ImageBuffer`: the subpixels, row by row,
    /// to be written. The image keeps its size, and holds afterwards what
    /// was written.
    #[verifier::external_body]
    fn raw_mut(&mut self) -> (bytes: &mut [u8])
        ensures
            bytes@ == image_bytes(*old(self)),
            image_bytes(*final(self)) == final(bytes)@,
            image_size(*final(self)) == image_size(*old(self)),
    {
        &mut *self.image
    }

    /// A black image of the given size.
    pub fn new(width: u32, height: u32) -> (image: Self)
        requires
            3 * width * height <= isize::MAX,
        ensures
            image_size(image) == (width, height),
            image_bytes(image) == Seq::new((3 * width * height) as nat, |i: int| 0u8),
    {
        BgrImage::zeroed(width, height)
    }

    /// The width and the height, in pixels.
    pub fn dimensions(&self) -> (size: (u32, u32))
        ensures
            size == image_size(*self),
    {
        self.raw_dimensions()
    }

    /// The bytes of the image, row by row, three for each pixel.
    pub fn deref(&self) -> (bytes: &[u8])
        ensures
            bytes@ == image_bytes(*self),
    {
        self.raw()
    }

    /// The bytes of the image, to be written: a frame is read into them.
    /// The image keeps its size.
    pub fn deref_mut(&mut self) -> (bytes: &mut [u8])
        ensures
            bytes@ == image_bytes(*old(self)),
            image_bytes(*final(self)) == final(bytes)@,
            image_size(*final(self)) == image_size(*old(self)),
    {
        self.raw_mut()
    }
}

} // verus!
