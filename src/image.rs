use vstd::prelude::*;

verus! {

/// Channels in a pixel: red, green and blue.
pub const COLORS_PER_PIXEL: usize = 3;

/// Bytes that each color channel takes in an image.
#[derive(Clone, Copy, Debug, PartialEq, Eq, Structural)]
pub enum BytesPerColor {
    One,
    Two,
}

impl BytesPerColor {
    pub open spec fn spec_bytes(self) -> nat {
        match self {
            BytesPerColor::One => 1,
            BytesPerColor::Two => 2,
        }
    }

    pub fn bytes(&self) -> (r: usize)
        ensures
            r == self.spec_bytes(),
    {
        match self {
            BytesPerColor::One => 1,
            BytesPerColor::Two => 2,
        }
    }

    /// Bits of each channel: 8 or 16.
    pub fn bit_depth(&self) -> (r: u8)
        ensures
            r == 8 * self.spec_bytes(),
    {
        match self {
            BytesPerColor::One => 8,
            BytesPerColor::Two => 16,
        }
    }
}

/// The bytes of channel levels: one byte per level, or two, high byte first.
pub open spec fn packed(levels: Seq<u16>, bytes: BytesPerColor) -> Seq<u8> {
    match bytes {
        BytesPerColor::One => Seq::new(levels.len(), |i: int| levels[i] as u8),
        BytesPerColor::Two => Seq::new(
            2 * levels.len(),
            |i: int|
                if i % 2 == 0 {
                    (levels[i / 2] / 256) as u8
                } else {
                    (levels[i / 2] % 256) as u8
                },
        ),
    }
}

/// The pixels of an image as the bytes of an RGB file, rows from the top.
#[derive(Debug)]
pub struct ImageBuffer {
    pub bytes_per_color: BytesPerColor,
    pub buffer: Vec<u8>,
    pub bytes_per_pixel: usize,
    pub bytes_per_row: usize,
    pub imgx: usize,
    pub imgy: usize,
}

impl ImageBuffer {
    /// An image with no bytes yet, and the layout that its bytes will have.
    pub fn new(imgx: usize, imgy: usize, bytes_per_color: BytesPerColor) -> (r: ImageBuffer)
        requires
            6 * imgx <= usize::MAX,
        ensures
            r.bytes_per_color == bytes_per_color,
            r.buffer@.len() == 0,
            r.bytes_per_pixel == COLORS_PER_PIXEL * bytes_per_color.spec_bytes(),
            r.bytes_per_row == r.bytes_per_pixel * imgx,
            r.imgx == imgx,
            r.imgy == imgy,
    {
        let bytes_per_pixel = COLORS_PER_PIXEL * bytes_per_color.bytes();
        assert(bytes_per_pixel * imgx <= 6 * imgx) by (nonlinear_arith)
            requires
                bytes_per_pixel <= 6,
        ;
        let bytes_per_row = bytes_per_pixel * imgx;
        ImageBuffer {
            bytes_per_color,
            buffer: Vec::new(),
            bytes_per_pixel,
            bytes_per_row,
            imgx,
            imgy,
        }
    }

    /// The image whose channels, red, green then blue for each pixel, row by
    /// row from the top, have the given levels. With one byte per color each
    /// level is below 256.
    pub fn from_levels(imgx: usize, imgy: usize, bytes_per_color: BytesPerColor, levels: &Vec<u16>) -> (r: ImageBuffer)
        requires
            6 * imgx <= usize::MAX,
            levels@.len() == 3 * imgx * imgy,
            bytes_per_color == BytesPerColor::One ==> forall|i: int| 0 <= i < levels@.len() ==> levels@[i] < 256,
        ensures
            r.bytes_per_color == bytes_per_color,
            r.buffer@ == packed(levels@, bytes_per_color),
            r.bytes_per_pixel == COLORS_PER_PIXEL * bytes_per_color.spec_bytes(),
            r.bytes_per_row == r.bytes_per_pixel * imgx,
            r.imgx == imgx,
            r.imgy == imgy,
    {
        let mut image = ImageBuffer::new(imgx, imgy, bytes_per_color);
        let n = levels.len();
        let mut i: usize = 0;
        match bytes_per_color {
            BytesPerColor::One => {
                while i < n
                    invariant
                        n == levels@.len(),
                        i <= n,
                        forall|j: int| 0 <= j < n ==> levels@[j] < 256,
                        image.buffer@ == packed(levels@.subrange(0, i as int), BytesPerColor::One),
                        image.bytes_per_color == bytes_per_color,
                        image.bytes_per_pixel == COLORS_PER_PIXEL * bytes_per_color.spec_bytes(),
                        image.bytes_per_row == image.bytes_per_pixel * imgx,
                        image.imgx == imgx,
                        image.imgy == imgy,
                    decreases n - i,
                {
                    image.buffer.push(levels[i] as u8);
                    i += 1;
                    assert(image.buffer@ =~= packed(levels@.subrange(0, i as int), BytesPerColor::One));
                }
            },
            BytesPerColor::Two => {
                while i < n
                    invariant
                        n == levels@.len(),
                        i <= n,
                        image.buffer@ == packed(levels@.subrange(0, i as int), BytesPerColor::Two),
                        image.bytes_per_color == bytes_per_color,
                        image.bytes_per_pixel == COLORS_PER_PIXEL * bytes_per_color.spec_bytes(),
                        image.bytes_per_row == image.bytes_per_pixel * imgx,
                        image.imgx == imgx,
                        image.imgy == imgy,
                    decreases n - i,
                {
                    let level = levels[i];
                    image.buffer.push((level / 256) as u8);
                    image.buffer.push((level % 256) as u8);
                    i += 1;
                    assert(image.buffer@ =~= packed(levels@.subrange(0, i as int), BytesPerColor::Two));
                }
            },
        }
        assert(levels@.subrange(0, n as int) =~= levels@);
        image
    }
}

} // verus!
