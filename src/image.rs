use vstd::prelude::*;

verus! {

/// A position in an image that may or may not fall inside it.
pub trait ImageCoordinate {
    /// The row-major index this position names in a `width` by `height` image, if it is inside.
    spec fn spec_index(&self, width: usize, height: usize) -> Option<int>;

    fn index(&self, width: usize, height: usize) -> (r: Option<usize>)
        ensures
            match self.spec_index(width, height) {
                Some(i) => r == Some(i as usize) && 0 <= i < width * height && i <= usize::MAX,
                None => r is None,
            },
    ;
}

/// A plain row-major index.
impl ImageCoordinate for usize {
    open spec fn spec_index(&self, width: usize, height: usize) -> Option<int> {
        if *self < width * height {
            Some(*self as int)
        } else {
            None
        }
    }

    fn index(&self, width: usize, height: usize) -> (r: Option<usize>) {
        match width.checked_mul(height) {
            Some(n) => if *self < n {
                Some(*self)
            } else {
                None
            },
            None => {
                proof {
                    assert(*self < width * height);
                }
                Some(*self)
            },
        }
    }
}

/// Offsets `(x, y)` from the image centre, which is `(width / 2, height / 2)`.
impl ImageCoordinate for (isize, isize) {
    open spec fn spec_index(&self, width: usize, height: usize) -> Option<int> {
        let cx = self.0 + width / 2;
        let cy = self.1 + height / 2;
        if 0 <= cx < width && 0 <= cy < height && cy * width + cx <= usize::MAX {
            Some(cy * width + cx)
        } else {
            None
        }
    }

    fn index(&self, width: usize, height: usize) -> (r: Option<usize>) {
        let cx = self.0 as i128 + (width / 2) as i128;
        let cy = self.1 as i128 + (height / 2) as i128;
        if cx < 0 || cy < 0 || cx >= width as i128 || cy >= height as i128 {
            return None;
        }
        let cx = cx as usize;
        let cy = cy as usize;
        proof {
            assert(cy * width + cx < width * height) by (nonlinear_arith)
                requires
                    cy < height,
                    cx < width,
            ;
        }
        match cy.checked_mul(width) {
            Some(row) => row.checked_add(cx),
            None => {
                proof {
                    assert(cy * width + cx > usize::MAX);
                }
                None
            },
        }
    }
}

/// A two-dimensional image of samples, stored row by row.
pub struct Image<P> {
    pub width: usize,
    pub height: usize,
    pub pixels: Vec<P>,
}

impl<P> Image<P> {
    /// The samples, row by row.
    pub open spec fn samples(&self) -> Seq<P> {
        self.pixels@
    }

    pub fn new(width: usize, height: usize, pixels: Vec<P>) -> (r: Self)
        ensures
            r.width == width,
            r.height == height,
            r.samples() == pixels@,
    {
        Image { width, height, pixels }
    }

    /// The sample at `coordinate`, when the coordinate lies inside the image and the buffer
    /// reaches it.
    pub fn get_pixel<C: ImageCoordinate>(&self, coordinate: C) -> (r: Option<&P>)
        ensures
            match coordinate.spec_index(self.width, self.height) {
                Some(i) => if i < self.samples().len() {
                    r == Some(&self.samples()[i])
                } else {
                    r is None
                },
                None => r is None,
            },
    {
        match coordinate.index(self.width, self.height) {
            Some(i) => if i < self.pixels.len() {
                Some(&self.pixels[i])
            } else {
                None
            },
            None => None,
        }
    }

    /// All samples, row by row.
    pub fn pixels(&self) -> (r: &[P])
        ensures
            r@ == self.samples(),
    {
        self.pixels.as_slice()
    }
}

/// The sample buffer of a decoded image, in one of the integer sample types.
pub enum Pixels {
    U8(Vec<u8>),
    I8(Vec<i8>),
    U16(Vec<u16>),
    I16(Vec<i16>),
    U32(Vec<u32>),
    I32(Vec<i32>),
    U64(Vec<u64>),
    I64(Vec<i64>),
}

/// An image in one of the integer sample types.
pub enum ImageEnum {
    U8(Image<u8>),
    I8(Image<i8>),
    U16(Image<u16>),
    I16(Image<i16>),
    U32(Image<u32>),
    I32(Image<i32>),
    U64(Image<u64>),
    I64(Image<i64>),
}

impl ImageEnum {
    pub open spec fn spec_width(&self) -> usize {
        match self {
            ImageEnum::U8(i) => i.width,
            ImageEnum::I8(i) => i.width,
            ImageEnum::U16(i) => i.width,
            ImageEnum::I16(i) => i.width,
            ImageEnum::U32(i) => i.width,
            ImageEnum::I32(i) => i.width,
            ImageEnum::U64(i) => i.width,
            ImageEnum::I64(i) => i.width,
        }
    }

    pub open spec fn spec_height(&self) -> usize {
        match self {
            ImageEnum::U8(i) => i.height,
            ImageEnum::I8(i) => i.height,
            ImageEnum::U16(i) => i.height,
            ImageEnum::I16(i) => i.height,
            ImageEnum::U32(i) => i.height,
            ImageEnum::I32(i) => i.height,
            ImageEnum::U64(i) => i.height,
            ImageEnum::I64(i) => i.height,
        }
    }

    pub fn width(&self) -> (r: usize)
        ensures
            r == self.spec_width(),
    {
        match self {
            ImageEnum::U8(image) => image.width,
            ImageEnum::I8(image) => image.width,
            ImageEnum::U16(image) => image.width,
            ImageEnum::I16(image) => image.width,
            ImageEnum::U32(image) => image.width,
            ImageEnum::I32(image) => image.width,
            ImageEnum::U64(image) => image.width,
            ImageEnum::I64(image) => image.width,
        }
    }

    pub fn height(&self) -> (r: usize)
        ensures
            r == self.spec_height(),
    {
        match self {
            ImageEnum::U8(image) => image.height,
            ImageEnum::I8(image) => image.height,
            ImageEnum::U16(image) => image.height,
            ImageEnum::I16(image) => image.height,
            ImageEnum::U32(image) => image.height,
            ImageEnum::I32(image) => image.height,
            ImageEnum::U64(image) => image.height,
            ImageEnum::I64(image) => image.height,
        }
    }

    /// Pairs a sample buffer with its dimensions.
    pub fn from_pixels(width: usize, height: usize, pixels: Pixels) -> (r: Self)
        ensures
            r.spec_width() == width,
            r.spec_height() == height,
            match (pixels, r) {
                (Pixels::U8(p), ImageEnum::U8(i)) => i.samples() == p@,
                (Pixels::I8(p), ImageEnum::I8(i)) => i.samples() == p@,
                (Pixels::U16(p), ImageEnum::U16(i)) => i.samples() == p@,
                (Pixels::I16(p), ImageEnum::I16(i)) => i.samples() == p@,
                (Pixels::U32(p), ImageEnum::U32(i)) => i.samples() == p@,
                (Pixels::I32(p), ImageEnum::I32(i)) => i.samples() == p@,
                (Pixels::U64(p), ImageEnum::U64(i)) => i.samples() == p@,
                (Pixels::I64(p), ImageEnum::I64(i)) => i.samples() == p@,
                _ => false,
            },
    {
        match pixels {
            Pixels::U8(pixels) => ImageEnum::U8(Image::new(width, height, pixels)),
            Pixels::I8(pixels) => ImageEnum::I8(Image::new(width, height, pixels)),
            Pixels::U16(pixels) => ImageEnum::U16(Image::new(width, height, pixels)),
            Pixels::I16(pixels) => ImageEnum::I16(Image::new(width, height, pixels)),
            Pixels::U32(pixels) => ImageEnum::U32(Image::new(width, height, pixels)),
            Pixels::I32(pixels) => ImageEnum::I32(Image::new(width, height, pixels)),
            Pixels::U64(pixels) => ImageEnum::U64(Image::new(width, height, pixels)),
            Pixels::I64(pixels) => ImageEnum::I64(Image::new(width, height, pixels)),
        }
    }
}

} // verus!
