//! The raster that the elements paint on: four bytes for every pixel, red,
//! green, blue and alpha, row after row from the top.

use vstd::prelude::*;

verus! {

/// The error of the `png` crate's encoder. It is carried through unread.
#[verifier::external_type_specification]
#[verifier::external_body]
pub struct ExPngEncodingError(png::EncodingError);

/// Why no image could be made.
#[derive(Clone, Copy, Debug, PartialEq, Eq, Structural)]
pub enum RenderError {
    /// The raster would have no column or no row.
    Empty,
    /// The raster's sides or its bytes are beyond what the machine can count.
    TooLarge,
    /// The columns would reach above the tallest raster that is allowed.
    TooTall,
    /// Two arrays that have to be of one length are not.
    Mismatch,
    /// The sum of a bucket over all sources does not fit into 64 bits.
    Overflow,
    /// The capture cannot be read.
    UnreadableCapture,
    /// The capture holds no packet.
    NoPacket,
    /// The encoder refused the raster. A well-formed raster is never refused.
    Encoding,
}

/// One pixel: red, green, blue, alpha.
pub type Pixel = (u8, u8, u8, u8);

/// An opaque white pixel, the background of every raster.
pub open spec fn white() -> Pixel {
    (255u8, 255u8, 255u8, 255u8)
}

/// An opaque pixel of a given colour.
pub open spec fn opaque(color: (u8, u8, u8)) -> Pixel {
    (color.0, color.1, color.2, 255u8)
}

/// A raster of `width` by `height` pixels.
#[derive(Debug)]
pub struct Canvas {
    pub width: u32,
    pub height: u32,
    pub pixels: Vec<u8>,
}

impl Canvas {
    /// The number of pixels.
    pub open spec fn cells(&self) -> int {
        self.width * self.height
    }

    /// The raster has a column and a row, and four bytes for every pixel.
    pub open spec fn wf(&self) -> bool {
        &&& self.width > 0
        &&& self.height > 0
        &&& self.pixels@.len() == 4 * self.cells()
    }

    /// The pixel that is `i` places behind the top left one, counting along
    /// the rows.
    pub open spec fn cell(&self, i: int) -> Pixel {
        (
            self.pixels@[4 * i],
            self.pixels@[4 * i + 1],
            self.pixels@[4 * i + 2],
            self.pixels@[4 * i + 3],
        )
    }

    /// Every pixel is the background.
    pub open spec fn is_blank(&self) -> bool {
        forall|i: int| 0 <= i < self.cells() ==> #[trigger] self.cell(i) == white()
    }

    /// Tests whether the raster is well formed.
    pub fn is_sound(&self) -> (sound: bool)
        ensures
            sound == self.wf(),
    {
        if self.width == 0 || self.height == 0 {
            return false;
        }
        let len: usize = self.pixels.len();
        let cells: Option<usize> = (self.width as usize).checked_mul(self.height as usize);
        let bytes: Option<usize> = match cells {
            Some(cells) => cells.checked_mul(4),
            None => None,
        };
        match bytes {
            Some(bytes) => len == bytes,
            None => false,
        }
    }

    /// A raster of the given size with nothing painted on it.
    pub fn blank(width: u32, height: u32) -> (canvas: Result<Canvas, RenderError>)
        ensures
            match canvas {
                Ok(canvas) => {
                    &&& canvas.wf()
                    &&& canvas.width == width
                    &&& canvas.height == height
                    &&& canvas.is_blank()
                },
                Err(RenderError::Empty) => width == 0 || height == 0,
                Err(RenderError::TooLarge) => width > 0 && height > 0 && 4 * (width * height)
                    > usize::MAX,
                Err(_) => false,
            },
    {
        if width == 0 || height == 0 {
            return Err(RenderError::Empty);
        }
        let cells: Option<usize> = (width as usize).checked_mul(height as usize);
        let bytes: Option<usize> = match cells {
            Some(cells) => cells.checked_mul(4),
            None => None,
        };
        match bytes {
            Some(bytes) => {
                let pixels: Vec<u8> = vec![255u8; bytes];
                Ok(Canvas { width, height, pixels })
            },
            None => Err(RenderError::TooLarge),
        }
    }

    /// Paints the pixel that is `i` places behind the top left one; its
    /// alpha stays as it is.
    pub fn paint(&mut self, i: usize, color: (u8, u8, u8))
        requires
            old(self).wf(),
            i < old(self).cells(),
        ensures
            final(self).wf(),
            final(self).width == old(self).width,
            final(self).height == old(self).height,
            final(self).cell(i as int) == (color.0, color.1, color.2, old(self).cell(i as int).3),
            forall|j: int|
                0 <= j < old(self).cells() && j != i ==> #[trigger] final(self).cell(j) == old(
                    self,
                ).cell(j),
    {
        assert(4 * i + 3 < self.pixels.len());
        let base: usize = 4 * i;
        self.pixels.set(base, color.0);
        self.pixels.set(base + 1, color.1);
        self.pixels.set(base + 2, color.2);
    }
}

/// The bytes of the PNG file that the `png` crate writes for a raster of
/// eight-bit RGBA pixels with its default settings.
pub uninterp spec fn png_file(width: u32, height: u32, pixels: Seq<u8>) -> Seq<u8>;

/// Encodes a raster with `png::Encoder` and `png::Writer::write_image_data`,
/// as RGBA with eight bits a channel and into memory. The contract gives the
/// file's bytes a name and claims of them only that they depend on the size
/// and the pixels alone. It claims success for a raster with a column and a
/// row: the encoder refuses a side of 0, a colour type that does not go with
/// the depth, a buffer of the wrong length, a frame out of sequence and what
/// its writer refuses, and none of these is met here, since RGBA goes with
/// eight bits, the buffer has four bytes for every pixel, one frame is
/// written and the writer is a `Vec<u8>`. It asks for four bytes for every
/// pixel: the encoder multiplies the sides before it looks at the buffer.
#[verifier::external_body]
fn png_encode(width: u32, height: u32, pixels: &[u8]) -> (file: Result<
    Vec<u8>,
    png::EncodingError,
>)
    requires
        pixels@.len() == 4 * (width * height),
    ensures
        file matches Ok(file) ==> file@ == png_file(width, height, pixels@),
        width > 0 && height > 0 ==> file is Ok,
{
    let mut file = Vec::new();
    let mut encoder = png::Encoder::new(&mut file, width, height);
    encoder.set_color(png::ColorType::Rgba);
    encoder.set_depth(png::BitDepth::Eight);
    let mut writer = encoder.write_header()?;
    writer.write_image_data(pixels)?;
    writer.finish()?;
    Ok(file)
}

/// The bytes of the PNG file for `canvas`. Every well-formed raster has its
/// file; one without a column or a row, or with other than four bytes for
/// every pixel, is refused before the encoder sees it.
pub fn encode(canvas: &Canvas) -> (file: Result<Vec<u8>, RenderError>)
    ensures
        match file {
            Ok(file) => canvas.wf() && file@ == png_file(
                canvas.width,
                canvas.height,
                canvas.pixels@,
            ),
            Err(RenderError::Empty) => canvas.width == 0 || canvas.height == 0,
            Err(RenderError::Mismatch) => canvas.width > 0 && canvas.height > 0 && !canvas.wf(),
            Err(_) => false,
        },
{
    if !canvas.is_sound() {
        if canvas.width == 0 || canvas.height == 0 {
            return Err(RenderError::Empty);
        }
        return Err(RenderError::Mismatch);
    }
    match png_encode(canvas.width, canvas.height, canvas.pixels.as_slice()) {
        Ok(file) => Ok(file),
        Err(_) => Err(RenderError::Encoding),
    }
}

} // verus!
