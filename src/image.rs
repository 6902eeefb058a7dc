use vstd::prelude::*;

verus! {

/// Offset of channel `c` of pixel `(x, y)` in a row-major buffer of `ch`
/// channels per pixel.
pub open spec fn pixel_offset(width: int, ch: int, x: int, y: int, c: int) -> int {
    (y * width + x) * ch + c
}

/// A row-major pixel buffer: one byte per pixel for `Gray`, three interleaved
/// bytes (R, G, B) per pixel for `Rgb`.
#[derive(Clone)]
pub enum Image {
    Gray { width: usize, height: usize, data: Vec<u8> },
    Rgb { width: usize, height: usize, data: Vec<u8> },
}

impl Image {
    pub open spec fn spec_width(&self) -> usize {
        match self {
            Image::Gray { width, .. } => *width,
            Image::Rgb { width, .. } => *width,
        }
    }

    pub open spec fn spec_height(&self) -> usize {
        match self {
            Image::Gray { height, .. } => *height,
            Image::Rgb { height, .. } => *height,
        }
    }

    pub open spec fn spec_data(&self) -> Seq<u8> {
        match self {
            Image::Gray { data, .. } => data@,
            Image::Rgb { data, .. } => data@,
        }
    }

    /// Bytes per pixel: 1 for gray, 3 for RGB.
    pub open spec fn channels(&self) -> nat {
        match self {
            Image::Gray { .. } => 1,
            Image::Rgb { .. } => 3,
        }
    }

    /// The buffer holds exactly one sample per channel of every pixel.
    pub open spec fn wf(&self) -> bool {
        self.spec_data().len() == self.spec_width() * self.spec_height() * self.channels()
    }

    /// Channel `c` of pixel `(x, y)`.
    pub open spec fn sample(&self, x: int, y: int, c: int) -> u8 {
        self.spec_data()[pixel_offset(self.spec_width() as int, self.channels() as int, x, y, c)]
    }

    /// Makes a gray image; the buffer must hold `width * height` bytes.
    pub fn gray(width: usize, height: usize, data: Vec<u8>) -> (r: Image)
        requires
            data@.len() == width * height,
        ensures
            r == (Image::Gray { width, height, data }),
            r.wf(),
    {
        Image::Gray { width, height, data }
    }

    /// Makes an RGB image; the buffer must hold `width * height * 3` bytes.
    pub fn rgb(width: usize, height: usize, data: Vec<u8>) -> (r: Image)
        requires
            data@.len() == width * height * 3,
        ensures
            r == (Image::Rgb { width, height, data }),
            r.wf(),
    {
        Image::Rgb { width, height, data }
    }

    #[verifier::when_used_as_spec(spec_width)]
    pub fn width(&self) -> (r: usize)
        ensures
            r == self.spec_width(),
    {
        match self {
            Image::Gray { width, .. } => *width,
            Image::Rgb { width, .. } => *width,
        }
    }

    #[verifier::when_used_as_spec(spec_height)]
    pub fn height(&self) -> (r: usize)
        ensures
            r == self.spec_height(),
    {
        match self {
            Image::Gray { height, .. } => *height,
            Image::Rgb { height, .. } => *height,
        }
    }

    pub fn data(&self) -> (r: &Vec<u8>)
        ensures
            r@ == self.spec_data(),
    {
        match self {
            Image::Gray { data, .. } => data,
            Image::Rgb { data, .. } => data,
        }
    }

    /// Mutable access to the buffer; format and dimensions stay as they are.
    pub fn data_mut(&mut self) -> (r: &mut Vec<u8>)
        ensures
            *r == match *old(self) {
                Image::Gray { data, .. } => data,
                Image::Rgb { data, .. } => data,
            },
            *final(self) == match *old(self) {
                Image::Gray { width, height, .. } => Image::Gray { width, height, data: *final(r) },
                Image::Rgb { width, height, .. } => Image::Rgb { width, height, data: *final(r) },
            },
    {
        match self {
            Image::Gray { data, .. } => data,
            Image::Rgb { data, .. } => data,
        }
    }
}

} // verus!
