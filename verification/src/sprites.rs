//! Sprite sheet loading and frame extraction.
//!
//! The sheet is a grid of fixed-size tiles. How it is divided up is declared by
//! the pet file rather than assumed here, so this module only decodes pixels.

use vstd::prelude::*;
use vstd::slice::slice_subrange;

verus! {

/// The errors of `png`'s decoder.
#[verifier::external_type_specification]
#[verifier::external_body]
pub struct ExDecodingError(png::DecodingError);

/// A picture as the decoder hands it over.
#[derive(Debug)]
pub struct Picture {
    pub width: u32,
    pub height: u32,
    /// Bits to a sample.
    pub depth: u8,
    /// What the samples of a pixel are, in PNG's own numbering.
    pub colour: u8,
    /// The samples, row by row.
    pub data: Vec<u8>,
}

/// What a picture holds.
pub struct PictureItem {
    pub width: u32,
    pub height: u32,
    pub depth: u8,
    pub colour: u8,
    pub data: Seq<u8>,
}

impl View for Picture {
    type V = PictureItem;

    open spec fn view(&self) -> PictureItem {
        PictureItem {
            width: self.width,
            height: self.height,
            depth: self.depth,
            colour: self.colour,
            data: self.data@,
        }
    }
}

/// One sample: how light it is.
pub const GREY: u8 = 0;

/// Three samples: red, green and blue.
pub const RGB: u8 = 2;

/// Two samples: how light it is and how solid.
pub const GREY_ALPHA: u8 = 4;

/// Four samples: red, green, blue and how solid.
pub const RGBA: u8 = 6;

/// How many samples a pixel has.
#[verifier::allow_in_spec]
pub fn samples(colour: u8) -> u8
    returns
        (if colour == RGBA {
            4u8
        } else if colour == RGB {
            3u8
        } else if colour == GREY_ALPHA {
            2u8
        } else {
            1u8
        }),
{
    if colour == RGBA {
        4
    } else if colour == RGB {
        3
    } else if colour == GREY_ALPHA {
        2
    } else {
        1
    }
}

/// What came of decoding a PNG file.
pub enum PngReading {
    BadHeader,
    BadData,
    Done(PictureItem),
}

/// What `png`'s decoder makes of a file's bytes, with palettes and small
/// samples expanded and an alpha channel added.
pub uninterp spec fn png_reading(bytes: Seq<u8>) -> PngReading;

/// Calls `png::Decoder::read_info` and `png::Reader::next_frame`, asking for
/// the transformations `EXPAND` and `ALPHA`. The outer error is the first
/// call's, the inner one the second's. What comes of it is a function of the
/// bytes alone. A frame of eight-bit samples has as many of them as its pixels
/// have; nothing more is said of the picture, nor of the errors.
#[verifier::external_body]
fn png_decode(bytes: &[u8]) -> (r: Result<Result<Picture, png::DecodingError>, png::DecodingError>)
    ensures
        match r {
            Err(_) => png_reading(bytes@) == PngReading::BadHeader,
            Ok(Err(_)) => png_reading(bytes@) == PngReading::BadData,
            Ok(Ok(p)) => png_reading(bytes@) == PngReading::Done(p@) && (p.depth == 8
                ==> p.data@.len() == p.width * samples(p.colour) * p.height),
        },
{
    let mut decoder = png::Decoder::new(std::io::Cursor::new(bytes));
    decoder.set_transformations(png::Transformations::EXPAND | png::Transformations::ALPHA);
    let mut reader = decoder.read_info()?;
    let mut data = vec![0; reader.output_buffer_size().unwrap_or(0)];
    let info = match reader.next_frame(&mut data) {
        Ok(info) => info,
        Err(e) => return Ok(Err(e)),
    };
    data.truncate(info.buffer_size());
    let (width, height) = (info.width, info.height);
    let (depth, colour) = (info.bit_depth as u8, info.color_type as u8);
    Ok(Ok(Picture { width, height, depth, colour, data }))
}

/// Why a file holds no sprite sheet.
#[derive(Debug)]
pub enum SheetError {
    /// It does not start like a PNG file.
    Header(png::DecodingError),
    /// Its pixels cannot be read.
    Data(png::DecodingError),
    /// Its samples are not of eight bits but of this many.
    Depth(u8),
    /// Its pixels are of a kind that is not supported.
    Colour(u8),
}

/// Why a picture is no sprite sheet.
#[derive(Clone, Copy, Debug, PartialEq, Eq, Structural)]
pub enum SheetFault {
    Depth(u8),
    Colour(u8),
}

/// A sprite sheet.
pub struct Sheet {
    pub width: u32,
    pub height: u32,
    /// Straight (non-premultiplied) RGBA8.
    pub pixels: Vec<u8>,
}

/// The four parts of the pixel that starts at place `i` of the samples.
pub open spec fn rgba_at(colour: u8, data: Seq<u8>, i: int) -> Seq<u8> {
    if colour == RGBA {
        seq![data[i], data[i + 1], data[i + 2], data[i + 3]]
    } else if colour == RGB {
        seq![data[i], data[i + 1], data[i + 2], 0xff]
    } else if colour == GREY_ALPHA {
        seq![data[i], data[i], data[i], data[i + 1]]
    } else {
        seq![data[i], data[i], data[i], 0xff]
    }
}

/// Is the kind of pixel supported?
pub open spec fn is_supported(colour: u8) -> bool {
    colour == RGBA || colour == RGB || colour == GREY_ALPHA || colour == GREY
}

/// What is wrong with a picture as a sprite sheet, if anything is.
pub open spec fn fault_of(p: PictureItem) -> Option<SheetFault> {
    if p.depth != 8 {
        Some(SheetFault::Depth(p.depth))
    } else if !is_supported(p.colour) {
        Some(SheetFault::Colour(p.colour))
    } else {
        None
    }
}

impl Sheet {
    /// Is there a pixel of four parts for every place on the sheet?
    pub open spec fn wf(self) -> bool {
        self.pixels@.len() == 4 * (self.width * self.height)
    }

    /// Is this the sheet that the picture shows?
    pub open spec fn shows(self, p: PictureItem) -> bool {
        &&& self.wf()
        &&& self.width == p.width
        &&& self.height == p.height
        &&& forall|i: int|
            0 <= i < p.width * p.height ==> #[trigger] self.pixels@.subrange(4 * i, 4 * i + 4)
                == rgba_at(p.colour, p.data, i * samples(p.colour))
    }

    /// The sheet in a picture. Pet sheets come in whatever the author saved,
    /// and the blit only ever wants one layout.
    pub fn from_picture(p: &Picture) -> (r: Result<Sheet, SheetFault>)
        requires
            p.depth == 8 ==> p.data@.len() == p.width * samples(p.colour) * p.height,
        ensures
            match r {
                Ok(s) => fault_of(p@) is None && s.shows(p@),
                Err(f) => fault_of(p@) == Some(f),
            },
    {
        if p.depth != 8 {
            return Err(SheetFault::Depth(p.depth));
        }
        let colour: u8 = p.colour;
        if colour != RGBA && colour != RGB && colour != GREY_ALPHA && colour != GREY {
            return Err(SheetFault::Colour(colour));
        }
        let n: usize = samples(colour) as usize;
        let ghost count: int = p.width * p.height;
        assert(p.width * n * p.height == n * count) by (nonlinear_arith)
            requires
                count == p.width * p.height,
        ;
        assert(count >= 0) by (nonlinear_arith)
            requires
                count == p.width * p.height,
        ;
        let mut pixels: Vec<u8> = Vec::new();
        let mut at: usize = 0;
        let ghost mut done: int = 0;
        while at < p.data.len()
            invariant
                n == samples(colour),
                colour == p.colour,
                is_supported(colour),
                p.data@.len() == n * count,
                at == n * done,
                0 <= done <= count,
                pixels@.len() == 4 * done,
                forall|i: int|
                    0 <= i < done ==> #[trigger] pixels@.subrange(4 * i, 4 * i + 4) == rgba_at(
                        colour,
                        p.data@,
                        i * n,
                    ),
            decreases p.data@.len() - at,
        {
            assert(done < count && at + n <= p.data@.len()) by (nonlinear_arith)
                requires
                    at == n * done,
                    p.data@.len() == n * count,
                    at < p.data@.len(),
                    n >= 1,
                    done <= count,
            ;
            let ghost before = pixels@;
            let a: u8 = p.data[at];
            if colour == RGBA {
                pixels.push(a);
                pixels.push(p.data[at + 1]);
                pixels.push(p.data[at + 2]);
                pixels.push(p.data[at + 3]);
            } else if colour == RGB {
                pixels.push(a);
                pixels.push(p.data[at + 1]);
                pixels.push(p.data[at + 2]);
                pixels.push(0xff);
            } else if colour == GREY_ALPHA {
                pixels.push(a);
                pixels.push(a);
                pixels.push(a);
                pixels.push(p.data[at + 1]);
            } else {
                pixels.push(a);
                pixels.push(a);
                pixels.push(a);
                pixels.push(0xff);
            }
            proof {
                assert(n * done == done * n) by (nonlinear_arith);
                assert(pixels@.subrange(4 * done, 4 * done + 4) == rgba_at(
                    colour,
                    p.data@,
                    done * n,
                ));
                assert forall|i: int| 0 <= i < done + 1 implies #[trigger] pixels@.subrange(
                    4 * i,
                    4 * i + 4,
                ) == rgba_at(colour, p.data@, i * n) by {
                    if i < done {
                        assert(before.subrange(4 * i, 4 * i + 4) == pixels@.subrange(
                            4 * i,
                            4 * i + 4,
                        ));
                    }
                }
                assert(n * (done + 1) == n * done + n) by (nonlinear_arith);
                done = done + 1;
            }
            at = at + n;
        }
        assert(done == count) by (nonlinear_arith)
            requires
                at == n * done,
                at >= n * count,
                done <= count,
                n >= 1,
        ;
        Ok(Sheet { width: p.width, height: p.height, pixels })
    }

    /// Decodes a sprite sheet.
    pub fn load(bytes: &[u8]) -> (r: Result<Sheet, SheetError>)
        ensures
            match png_reading(bytes@) {
                PngReading::BadHeader => r matches Err(SheetError::Header(_)),
                PngReading::BadData => r matches Err(SheetError::Data(_)),
                PngReading::Done(p) => match fault_of(p) {
                    None => r matches Ok(s) && s.shows(p),
                    Some(SheetFault::Depth(d)) => r matches Err(SheetError::Depth(e)) && d == e,
                    Some(SheetFault::Colour(c)) => r matches Err(SheetError::Colour(e)) && c == e,
                },
            },
    {
        match png_decode(bytes) {
            Err(e) => Err(SheetError::Header(e)),
            Ok(Err(e)) => Err(SheetError::Data(e)),
            Ok(Ok(p)) => match Sheet::from_picture(&p) {
                Ok(s) => Ok(s),
                Err(SheetFault::Depth(d)) => Err(SheetError::Depth(d)),
                Err(SheetFault::Colour(c)) => Err(SheetError::Colour(c)),
            },
        }
    }

    /// One row of the sheet, as straight-alpha RGBA.
    ///
    /// The blit walks a row at a time, so it pays for the bounds check once
    /// per row rather than once per pixel. A row off the end of the sheet
    /// comes back empty, which reads as transparent.
    pub fn row(&self, y: u32) -> (r: &[u8])
        requires
            self.wf(),
        ensures
            y >= self.height ==> r@.len() == 0,
            y < self.height ==> r@ == self.pixels@.subrange(
                4 * (y * self.width),
                4 * (y * self.width) + 4 * self.width,
            ),
            y < self.height ==> r@.len() == 4 * self.width,
    {
        if y >= self.height {
            return slice_subrange(self.pixels.as_slice(), 0, 0);
        }
        let n: usize = self.pixels.len();
        assert(4 * (y * self.width) + 4 * self.width <= 4 * (self.width * self.height) && 0 <= y
            * self.width) by (nonlinear_arith)
            requires
                y < self.height,
        ;
        assert(self.pixels@.len() <= n);
        let row: u64 = y as u64 * self.width as u64;
        let from: usize = (4 * row) as usize;
        let len: usize = (4 * self.width as u64) as usize;
        slice_subrange(self.pixels.as_slice(), from, from + len)
    }

    /// The pixel in column `x` of row `y`; off the sheet everything is
    /// transparent.
    pub open spec fn spec_pixel(self, x: int, y: int) -> Seq<u8> {
        if 0 <= x < self.width && 0 <= y < self.height {
            self.pixels@.subrange(4 * (y * self.width + x), 4 * (y * self.width + x) + 4)
        } else {
            seq![0, 0, 0, 0]
        }
    }
}

} // verus!
