//! Pictures as plain pixels, and what the `image`, `webp` and `base64` crates make of them.

use crate::text::concat2;
use vstd::prelude::*;

verus! {

/// The largest width and height of the small pictures that are made here.
pub const LARGEST_EDGE: u32 = 1024;

/// A picture of pixels with a red, a green, a blue and an alpha channel.
#[derive(Debug)]
pub struct RgbaImage {
    pub width: u32,
    pub height: u32,
    /// The channels of each pixel, row by row.
    pub pixels: Vec<u8>,
}

impl RgbaImage {
    /// Whether there are as many channels as the width and the height ask for.
    pub open spec fn well_formed(&self) -> bool {
        self.pixels@.len() == 4 * (self.width * self.height)
    }
}

/// A picture of pixels with a red, a green and a blue channel.
#[derive(Debug)]
pub struct RgbImage {
    pub width: u32,
    pub height: u32,
    /// The channels of each pixel, row by row.
    pub pixels: Vec<u8>,
}

impl RgbImage {
    /// Whether there are as many channels as the width and the height ask for.
    pub open spec fn well_formed(&self) -> bool {
        self.pixels@.len() == 3 * (self.width * self.height)
    }
}

/// The MIME type of the format that `image::guess_format` recognises, or what it says of bytes
/// that it does not.
pub uninterp spec fn guessed_mime(bytes: Seq<u8>) -> Result<Seq<char>, Seq<char>>;

/// The width and the height that `image::ImageReader` reads in the guessed format, or why it
/// cannot.
pub uninterp spec fn read_dimensions(bytes: Seq<u8>) -> Result<(u32, u32), Seq<char>>;

/// What `image::ImageReader::into_decoder` finds at the start of a picture, in the guessed format:
/// its width, its height, the bytes of a pixel and the channels of a pixel; or why it finds nothing.
pub uninterp spec fn picture_shape(bytes: Seq<u8>) -> Result<(u32, u32, u8, u8), Seq<char>>;

/// The width and the height of what `image::ImageReader::decode` decodes in the guessed format, or
/// why it cannot.
pub uninterp spec fn decoded_size(bytes: Seq<u8>) -> Result<(u32, u32), Seq<char>>;

/// Whether `DynamicImage::thumbnail` can give these channels to the picture that is decoded, when it
/// is to fit into a width and a height.
pub uninterp spec fn is_thumbnail(bytes: Seq<u8>, width: u32, height: u32, small: Seq<u8>) -> bool;

/// Whether `DynamicImage::thumbnail` can give these channels to the picture that is decoded, when
/// `DynamicImage::to_rgba8` has given its channels one byte each, and it is to fit into a width and a
/// height.
pub uninterp spec fn is_plain_thumbnail(
    bytes: Seq<u8>,
    width: u32,
    height: u32,
    small: Seq<u8>,
) -> bool;

/// The width and the height that `DynamicImage::resize` and `DynamicImage::thumbnail` give to a
/// picture of a width and a height that is to fit into others: those in the same proportion that
/// touch the bounds.
pub uninterp spec fn fitted_size(width: u32, height: u32, new_width: u32, new_height: u32) -> (
    u32,
    u32,
);

/// How the pixels of a scaled picture are computed.
#[derive(Clone, Copy, Debug, PartialEq, Eq, Structural)]
pub enum ScaleFilter {
    Nearest,
    Triangle,
    CatmullRom,
    Gaussian,
    Lanczos3,
}

/// Whether `DynamicImage::resize` can give these channels to a picture of a width and a height, when
/// it is to fit into others.
pub uninterp spec fn is_scaled(
    pixels: Seq<u8>,
    width: u32,
    height: u32,
    new_width: u32,
    new_height: u32,
    filter: ScaleFilter,
    small: Seq<u8>,
) -> bool;

/// Whether `webp::Encoder::encode` can make these bytes of a picture.
pub uninterp spec fn is_webp_of(
    pixels: Seq<u8>,
    width: u32,
    height: u32,
    quality: u8,
    bytes: Seq<u8>,
) -> bool;

/// What `JpegEncoder::encode` makes of a picture, or why it cannot.
pub uninterp spec fn jpeg_encoding(
    pixels: Seq<u8>,
    width: u32,
    height: u32,
    quality: u8,
) -> Result<Seq<u8>, Seq<char>>;

/// Guesses the format of a picture with `image::guess_format`, and names it by its MIME type.
#[verifier::external_body]
pub(crate) fn guess_mime(bytes: &[u8]) -> (mime: Result<String, String>)
    ensures
        match mime {
            Ok(mime) => guessed_mime(bytes@) == Ok::<Seq<char>, Seq<char>>(mime@),
            Err(text) => guessed_mime(bytes@) == Err::<Seq<char>, Seq<char>>(text@),
        },
{
    match image::guess_format(bytes) {
        Ok(format) => Ok(format.to_mime_type().to_owned()),
        Err(error) => Err(format!("{:#}", anyhow::Error::new(error))),
    }
}

/// Reads the width and the height of a picture with `image::ImageReader::into_dimensions`, in the
/// format that `image::guess_format` finds.
#[verifier::external_body]
pub(crate) fn dimensions(bytes: &[u8]) -> (size: Result<(u32, u32), String>)
    ensures
        match size {
            Ok(size) => read_dimensions(bytes@) == Ok::<(u32, u32), Seq<char>>(size),
            Err(text) => read_dimensions(bytes@) == Err::<(u32, u32), Seq<char>>(text@),
        },
{
    match image::guess_format(bytes) {
        Ok(format) => {
            let cursor = std::io::Cursor::new(bytes);
            match image::ImageReader::with_format(cursor, format).into_dimensions() {
                Ok(size) => Ok(size),
                Err(error) => Err(format!("{:#}", anyhow::Error::new(error))),
            }
        },
        Err(error) => Err(format!("{:#}", anyhow::Error::new(error))),
    }
}

/// Looks at the start of a picture with `image::ImageReader::into_decoder`, in the format that
/// `image::guess_format` finds, and asks for the size and for the bytes and channels of a pixel.
#[verifier::external_body]
pub(crate) fn read_shape(bytes: &[u8]) -> (shape: Result<(u32, u32, u8, u8), String>)
    ensures
        match shape {
            Ok(shape) => picture_shape(bytes@) == Ok::<(u32, u32, u8, u8), Seq<char>>(shape),
            Err(text) => picture_shape(bytes@) == Err::<(u32, u32, u8, u8), Seq<char>>(text@),
        },
{
    let format = match image::guess_format(bytes) {
        Ok(format) => format,
        Err(error) => return Err(format!("{:#}", anyhow::Error::new(error))),
    };
    match image::ImageReader::with_format(std::io::Cursor::new(bytes), format).into_decoder() {
        Ok(decoder) => {
            let (width, height) = image::ImageDecoder::dimensions(&decoder);
            let color = image::ImageDecoder::color_type(&decoder);
            Ok((width, height, color.bytes_per_pixel(), color.channel_count()))
        },
        Err(error) => Err(format!("{:#}", anyhow::Error::new(error))),
    }
}

/// How many bytes `image::ImageReader::decode` lets a picture take by default.
pub const DECODE_LIMIT: u32 = 0x2000_0000;

/// How many bytes a picture takes once it is decoded, by its shape.
pub open spec fn decoded_bytes(shape: (u32, u32, u8, u8)) -> int {
    shape.0 * shape.1 * shape.2
}

/// The largest sample of a channel, where samples are added up as whole numbers: a channel has one
/// byte or two, and one of four is no whole number.
pub open spec fn largest_sample(pixel_bytes: int, channels: int) -> int {
    if pixel_bytes <= channels {
        0xff
    } else if pixel_bytes <= 2 * channels {
        0xffff
    } else {
        1
    }
}

/// How many pixels an edge keeps at least when the other one is scaled to a length: as many as are
/// in proportion, rounded to the nearest number, down in the middle between two; but one at least.
pub open spec fn least_fitted(edge: int, other: int, new_other: int) -> int {
    let rounded = (2 * edge * new_other + other - 1) / (2 * other);
    if rounded < 1 {
        1
    } else {
        rounded
    }
}

/// The width and the height that a picture has at least when it is scaled to fit into a box.
pub open spec fn least_fitted_size(width: int, height: int, box_width: int, box_height: int) -> (
    int,
    int,
) {
    if width * box_height >= height * box_width {
        (box_width, least_fitted(height, width, box_width))
    } else {
        (least_fitted(width, height, box_height), box_height)
    }
}

/// How many pixels of an edge are made into one, at most, when the edge is divided into parts: as
/// many as there are for each part, rounded up, where 32-bit floating-point numbers are precise
/// enough for that; else two more than rounded down, and one more for each 4194304 pixels.
pub open spec fn block_edge(edge: int, parts: int) -> int {
    let most = edge / parts + edge / 0x40_0000 + 2;
    if (edge % parts == 0 && edge <= 0x100_0000) || edge * parts <= 0x80_0000 {
        (edge + parts - 1) / parts
    } else if edge < most {
        edge
    } else {
        most
    }
}

/// Whether the samples that are made into one, when a picture is scaled to fit into a box, have a
/// sum of at most 32 bits, with half their number added to it.
pub open spec fn sums_fit(shape: (u32, u32, u8, u8), box_width: u32, box_height: u32) -> bool {
    let (width, height, pixel_bytes, channels) = shape;
    let (columns, rows) = least_fitted_size(
        width as int,
        height as int,
        box_width as int,
        box_height as int,
    );
    let count = block_edge(width as int, columns) * block_edge(height as int, rows);
    width == 0 || height == 0 || count * largest_sample(pixel_bytes as int, channels as int) + count
        / 2 <= 0xffff_ffff
}

/// Whether a picture is too large to be scaled to fit into a box, but not too large to be decoded.
pub open spec fn is_oversized(shape: (u32, u32, u8, u8), box_width: u32, box_height: u32) -> bool {
    decoded_bytes(shape) <= DECODE_LIMIT && !sums_fit(shape, box_width, box_height)
}

fn fit_least(edge: u32, other: u32, new_other: u32) -> (r: u128)
    requires
        other > 0,
        new_other <= LARGEST_EDGE,
    ensures
        r == least_fitted(edge as int, other as int, new_other as int),
        1 <= r <= 0x1000_0000_0000,
{
    assert(0 <= edge * new_other <= 0xffff_ffff * 1024) by (nonlinear_arith)
        requires
            0 <= edge <= 0xffff_ffff,
            0 <= new_other <= 1024,
    ;
    assert(2 * edge * new_other == 2 * (edge * new_other)) by (nonlinear_arith);
    let whole: u128 = 2 * (edge as u128 * new_other as u128) + other as u128 - 1;
    let rounded: u128 = whole / (2 * other as u128);
    assert(rounded <= whole) by (nonlinear_arith)
        requires
            rounded == whole / ((2 * other) as u128),
            other > 0,
    ;
    if rounded < 1 {
        1
    } else {
        rounded
    }
}

proof fn lemma_rounded_up(edge: int, parts: int)
    requires
        edge >= 1,
        parts >= 1,
    ensures
        1 <= (edge + parts - 1) / parts <= edge,
        (edge + parts - 1) / parts <= edge / parts + 1,
        0 <= edge / parts <= edge,
{
    let up = (edge + parts - 1) / parts;
    let down = edge / parts;
    assert(1 <= up <= edge) by (nonlinear_arith)
        requires
            edge >= 1,
            parts >= 1,
            up == (edge + parts - 1) / parts,
    ;
    assert(0 <= down <= edge) by (nonlinear_arith)
        requires
            edge >= 1,
            parts >= 1,
            down == edge / parts,
    ;
    assert(up <= down + 1) by (nonlinear_arith)
        requires
            parts >= 1,
            up == (edge + parts - 1) / parts,
            down == edge / parts,
    ;
}

fn widest_block(edge: u32, parts: u128) -> (r: u128)
    requires
        edge >= 1,
        1 <= parts <= 0x1000_0000_0000,
    ensures
        r == block_edge(edge as int, parts as int),
        0 <= r <= edge,
{
    let edge = edge as u128;
    proof {
        lemma_rounded_up(edge as int, parts as int);
    }
    assert(0 <= edge * parts <= 0xffff_ffff * 0x1000_0000_0000) by (nonlinear_arith)
        requires
            0 <= edge <= 0xffff_ffff,
            0 <= parts <= 0x1000_0000_0000,
    ;
    let most: u128 = edge / parts + edge / 0x40_0000 + 2;
    if (edge % parts == 0 && edge <= 0x100_0000) || edge * parts <= 0x80_0000 {
        (edge + parts - 1) / parts
    } else if edge < most {
        edge
    } else {
        most
    }
}

/// Decides whether a picture is too large to be scaled to fit into a box, but not too large to be
/// decoded.
pub fn oversized(shape: (u32, u32, u8, u8), box_width: u32, box_height: u32) -> (r: bool)
    requires
        1 <= box_width <= LARGEST_EDGE,
        1 <= box_height <= LARGEST_EDGE,
    ensures
        r == is_oversized(shape, box_width, box_height),
{
    let (width, height, pixel_bytes, channels) = shape;
    if width == 0 || height == 0 {
        return false;
    }
    assert(0 <= width * height <= 0x1_0000_0000 * 0x1_0000_0000) by (nonlinear_arith)
        requires
            0 <= width <= 0x1_0000_0000,
            0 <= height <= 0x1_0000_0000,
    ;
    assert(0 <= width * height * pixel_bytes <= 0x1_0000_0000 * 0x1_0000_0000 * 0x100) by (
        nonlinear_arith)
        requires
            0 <= width * height <= 0x1_0000_0000 * 0x1_0000_0000,
            0 <= pixel_bytes <= 0x100,
    ;
    if width as u128 * height as u128 * pixel_bytes as u128 > DECODE_LIMIT as u128 {
        return false;
    }
    assert(0 <= width * box_height <= 0xffff_ffff * 1024) by (nonlinear_arith)
        requires
            0 <= width <= 0xffff_ffff,
            0 <= box_height <= 1024,
    ;
    assert(0 <= height * box_width <= 0xffff_ffff * 1024) by (nonlinear_arith)
        requires
            0 <= height <= 0xffff_ffff,
            0 <= box_width <= 1024,
    ;
    let (columns, rows): (u128, u128) = if width as u64 * box_height as u64 >= height as u64
        * box_width as u64 {
        (box_width as u128, fit_least(height, width, box_width))
    } else {
        (fit_least(width, height, box_height), box_height as u128)
    };
    let across: u128 = widest_block(width, columns);
    let down: u128 = widest_block(height, rows);
    assert(0 <= across * down <= 0x1_0000_0000 * 0x1_0000_0000) by (nonlinear_arith)
        requires
            0 <= across <= 0x1_0000_0000,
            0 <= down <= 0x1_0000_0000,
    ;
    let count: u128 = across * down;
    let largest: u128 = if pixel_bytes <= channels {
        0xff
    } else if pixel_bytes as u16 <= 2 * channels as u16 {
        0xffff
    } else {
        1
    };
    assert(0 <= count * largest <= 0x1_0000_0000 * 0x1_0000_0000 * 0xffff) by (nonlinear_arith)
        requires
            0 <= count <= 0x1_0000_0000 * 0x1_0000_0000,
            0 <= largest <= 0xffff,
    ;
    count * largest + count / 2 > 0xffff_ffff
}

/// A block of a picture that decodes, in a box that binds the first edge, has fewer than 2^24 pixels.
#[verifier::rlimit(60)]
proof fn lemma_blocks_are_small(edge: int, other: int, box_edge: int, box_other: int, parts: int)
    requires
        edge >= 1,
        other >= 1,
        edge * other <= DECODE_LIMIT,
        64 <= box_edge <= LARGEST_EDGE,
        1 <= box_other <= LARGEST_EDGE,
        edge * box_other >= other * box_edge,
        parts >= 1,
    ensures
        0 <= block_edge(edge, box_edge) * block_edge(other, parts) <= 0xff_ffff,
{
    let block = block_edge(edge, box_edge);
    let size = block_edge(other, parts);
    lemma_rounded_up(edge, box_edge);
    lemma_rounded_up(other, parts);
    let down = edge / box_edge;
    let slack = edge / 0x40_0000;
    assert(0 <= block <= down + slack + 2);
    assert(0 <= size <= other);
    assert(block * size <= (down + slack + 2) * other) by (nonlinear_arith)
        requires
            0 <= block <= down + slack + 2,
            0 <= size <= other,
    ;
    assert(block * size >= 0) by (nonlinear_arith)
        requires
            0 <= block,
            0 <= size,
    ;
    assert((down + slack + 2) * other == down * other + slack * other + 2 * other)
        by (nonlinear_arith);
    assert(64 * (down * other) <= edge * other) by (nonlinear_arith)
        requires
            down == edge / box_edge,
            64 <= box_edge,
            edge >= 1,
            other >= 1,
    {
        assert(down * box_edge <= edge);
        assert(down >= 0);
        assert(64 * down <= down * box_edge);
        assert(64 * down * other <= edge * other);
    }
    assert(0x40_0000 * (slack * other) <= edge * other) by (nonlinear_arith)
        requires
            slack == edge / 0x40_0000,
            edge >= 1,
            other >= 1,
    {
        assert(0x40_0000 * slack <= edge);
    }
    assert(other <= 16 * edge) by (nonlinear_arith)
        requires
            edge * box_other >= other * box_edge,
            64 <= box_edge,
            1 <= box_other <= 1024,
            edge >= 1,
            other >= 1,
    {
        assert(edge * box_other <= 1024 * edge);
        assert(other * box_edge >= 64 * other);
    }
    assert(other < 0x2_0000) by (nonlinear_arith)
        requires
            other <= 16 * edge,
            edge * other <= 0x2000_0000,
            edge >= 1,
            other >= 1,
    {
        if other >= 0x2_0000 {
            assert(edge >= 0x2000);
            assert(edge * other >= 0x2000 * 0x2_0000);
            assert(16 * (edge * other) >= other * other);
            assert(other * other >= 0x2_0000 * 0x2_0000);
        }
    }
}

/// A picture with one byte for each channel is never too large to be scaled: what is small enough to
/// be decoded has sums that fit.
pub proof fn law_plain_pictures_scale(shape: (u32, u32, u8, u8), box_width: u32, box_height: u32)
    requires
        1 <= shape.2 <= shape.3,
        64 <= box_width <= LARGEST_EDGE,
        64 <= box_height <= LARGEST_EDGE,
    ensures
        !is_oversized(shape, box_width, box_height),
{
    let (width, height) = (shape.0 as int, shape.1 as int);
    let (columns, rows) = least_fitted_size(width, height, box_width as int, box_height as int);
    if width > 0 && height > 0 && decoded_bytes(shape) <= DECODE_LIMIT {
        assert(width * height <= DECODE_LIMIT) by (nonlinear_arith)
            requires
                width * height * shape.2 <= DECODE_LIMIT,
                shape.2 >= 1,
                width > 0,
                height > 0,
        ;
        assert(height * width == width * height) by (nonlinear_arith);
        if width * box_height >= height * box_width {
            lemma_blocks_are_small(width, height, box_width as int, box_height as int, rows);
        } else {
            lemma_blocks_are_small(height, width, box_height as int, box_width as int, columns);
            let (a, b) = (block_edge(width, columns), block_edge(height, rows));
            assert(a * b == b * a) by (nonlinear_arith);
        }
    }
}

/// Decodes a picture with `image::ImageReader::decode`, in the format that `image::guess_format`
/// finds, and scales it to fit into the given width and height with `DynamicImage::thumbnail`; gives
/// the size of the picture and the small picture.
///
/// The small picture has the size that fits, and is at least one pixel wide and high, also where the
/// picture is empty. A picture that decodes has the size that its start says.
///
/// The scaling adds samples up in 32 bits, so pictures whose sums do not fit are left out; a picture
/// that takes more memory than decoding allows is refused before it is scaled.
#[verifier::external_body]
pub(crate) fn decode_thumbnail(bytes: &[u8], width: u32, height: u32) -> (decoded: Result<
    (u32, u32, RgbaImage),
    String,
>)
    requires
        1 <= width <= LARGEST_EDGE,
        1 <= height <= LARGEST_EDGE,
        picture_shape(bytes@) matches Ok(shape) ==> !is_oversized(shape, width, height),
    ensures
        match decoded {
            Ok((full_width, full_height, small)) => {
                &&& decoded_size(bytes@) == Ok::<(u32, u32), Seq<char>>((full_width, full_height))
                &&& picture_shape(bytes@) matches Ok(shape) && shape.0 == full_width && shape.1
                    == full_height
                &&& (small.width, small.height) == fitted_size(
                    full_width,
                    full_height,
                    width,
                    height,
                )
                &&& is_thumbnail(bytes@, width, height, small.pixels@)
                &&& small.well_formed()
                &&& 1 <= small.width <= width
                &&& 1 <= small.height <= height
            },
            Err(text) => decoded_size(bytes@) == Err::<(u32, u32), Seq<char>>(text@),
        },
{
    let format = match image::guess_format(bytes) {
        Ok(format) => format,
        Err(error) => return Err(format!("{:#}", anyhow::Error::new(error))),
    };
    match image::ImageReader::with_format(std::io::Cursor::new(bytes), format).decode() {
        Ok(full) => {
            let small = full.thumbnail(width, height).to_rgba8();
            let (width, height) = small.dimensions();
            Ok((full.width(), full.height(), RgbaImage { width, height, pixels: small.into_raw() }))
        },
        Err(error) => Err(format!("{:#}", anyhow::Error::new(error))),
    }
}

/// Decodes a picture as `decode_thumbnail` does, gives its channels one byte each with
/// `DynamicImage::to_rgba8`, and then scales it with `DynamicImage::thumbnail`.
///
/// What is promised is the same, for every picture with blocks of pixels whose sums fit when each
/// channel has one byte.
#[verifier::external_body]
pub(crate) fn decode_plain_thumbnail(bytes: &[u8], width: u32, height: u32) -> (decoded: Result<
    (u32, u32, RgbaImage),
    String,
>)
    requires
        1 <= width <= LARGEST_EDGE,
        1 <= height <= LARGEST_EDGE,
        picture_shape(bytes@) matches Ok(shape) ==> !is_oversized(
            (shape.0, shape.1, 1, 1),
            width,
            height,
        ),
    ensures
        match decoded {
            Ok((full_width, full_height, small)) => {
                &&& decoded_size(bytes@) == Ok::<(u32, u32), Seq<char>>((full_width, full_height))
                &&& picture_shape(bytes@) matches Ok(shape) && shape.0 == full_width && shape.1
                    == full_height
                &&& (small.width, small.height) == fitted_size(
                    full_width,
                    full_height,
                    width,
                    height,
                )
                &&& is_plain_thumbnail(bytes@, width, height, small.pixels@)
                &&& small.well_formed()
                &&& 1 <= small.width <= width
                &&& 1 <= small.height <= height
            },
            Err(text) => decoded_size(bytes@) == Err::<(u32, u32), Seq<char>>(text@),
        },
{
    let format = match image::guess_format(bytes) {
        Ok(format) => format,
        Err(error) => return Err(format!("{:#}", anyhow::Error::new(error))),
    };
    match image::ImageReader::with_format(std::io::Cursor::new(bytes), format).decode() {
        Ok(full) => {
            let plain = image::DynamicImage::ImageRgba8(full.to_rgba8());
            let small = plain.thumbnail(width, height).to_rgba8();
            let (width, height) = small.dimensions();
            Ok((full.width(), full.height(), RgbaImage { width, height, pixels: small.into_raw() }))
        },
        Err(error) => Err(format!("{:#}", anyhow::Error::new(error))),
    }
}

/// Whether channels can be those of a picture that is decoded from a file and scaled to fit into a
/// box: with one byte each before they are scaled, where they have more and their sums do not fit.
pub open spec fn is_small_picture(
    source: Seq<u8>,
    box_width: u32,
    box_height: u32,
    small: Seq<u8>,
) -> bool {
    if picture_shape(source) matches Ok(shape) && is_oversized(shape, box_width, box_height) {
        is_plain_thumbnail(source, box_width, box_height, small)
    } else {
        is_thumbnail(source, box_width, box_height, small)
    }
}

/// Decodes a picture and scales it to fit into a box; gives the size of the picture and the small
/// picture. A picture that decodes is never refused.
pub fn load_small_picture(bytes: &[u8], box_width: u32, box_height: u32) -> (decoded: Result<
    (u32, u32, RgbaImage),
    String,
>)
    requires
        64 <= box_width <= LARGEST_EDGE,
        64 <= box_height <= LARGEST_EDGE,
    ensures
        match decoded {
            Ok((full_width, full_height, small)) => {
                &&& decoded_size(bytes@) == Ok::<(u32, u32), Seq<char>>((full_width, full_height))
                &&& (small.width, small.height) == fitted_size(
                    full_width,
                    full_height,
                    box_width,
                    box_height,
                )
                &&& is_small_picture(bytes@, box_width, box_height, small.pixels@)
                &&& small.well_formed()
                &&& 1 <= small.width <= box_width
                &&& 1 <= small.height <= box_height
            },
            Err(text) => decoded_size(bytes@) == Err::<(u32, u32), Seq<char>>(text@),
        },
{
    if let Ok(shape) = read_shape(bytes) {
        if oversized(shape, box_width, box_height) {
            proof {
                law_plain_pictures_scale((shape.0, shape.1, 1, 1), box_width, box_height);
            }
            return decode_plain_thumbnail(bytes, box_width, box_height);
        }
    }
    decode_thumbnail(bytes, box_width, box_height)
}

/// Whether bytes are a WebP of a picture that is decoded from a file, has the given size, and is
/// scaled to fit into a box.
pub open spec fn is_small_webp(
    source: Seq<u8>,
    size: (u32, u32),
    box_width: u32,
    box_height: u32,
    quality: u8,
    webp: Seq<u8>,
) -> bool {
    let (width, height) = fitted_size(size.0, size.1, box_width, box_height);
    &&& 1 <= width <= box_width
    &&& 1 <= height <= box_height
    &&& exists|small: Seq<u8>| #[trigger]
        is_small_picture(source, box_width, box_height, small) && small.len() == 4 * (width * height)
            && is_webp_of(small, width, height, quality, webp)
}

/// Scales a picture to fit into the given width and height with `DynamicImage::resize`.
///
/// The new picture has the size that fits, and is at least one pixel wide and high; one that has the
/// given size stays as it is. The pixels of any other are tied to the picture by a relation alone:
/// the filters compute with sines, whose precision the standard library leaves to the machine.
#[verifier::external_body]
pub(crate) fn resize(picture: RgbaImage, width: u32, height: u32, filter: ScaleFilter) -> (resized:
    RgbaImage)
    requires
        picture.well_formed(),
        1 <= width <= LARGEST_EDGE,
        1 <= height <= LARGEST_EDGE,
    ensures
        (resized.width, resized.height) == fitted_size(
            picture.width,
            picture.height,
            width,
            height,
        ),
        is_scaled(
            picture.pixels@,
            picture.width,
            picture.height,
            width,
            height,
            filter,
            resized.pixels@,
        ),
        resized.well_formed(),
        1 <= resized.width <= width,
        1 <= resized.height <= height,
        picture.width == width && picture.height == height ==> resized.pixels@ == picture.pixels@
            && resized.width == width && resized.height == height,
{
    let full = image::RgbaImage::from_raw(picture.width, picture.height, picture.pixels).unwrap();
    let filter = match filter {
        ScaleFilter::Nearest => image::imageops::FilterType::Nearest,
        ScaleFilter::Triangle => image::imageops::FilterType::Triangle,
        ScaleFilter::CatmullRom => image::imageops::FilterType::CatmullRom,
        ScaleFilter::Gaussian => image::imageops::FilterType::Gaussian,
        ScaleFilter::Lanczos3 => image::imageops::FilterType::Lanczos3,
    };
    let new = image::DynamicImage::ImageRgba8(full).resize(width, height, filter).to_rgba8();
    let (width, height) = new.dimensions();
    RgbaImage { width, height, pixels: new.into_raw() }
}

/// Encodes a small picture with `webp::Encoder::encode`.
///
/// The bytes are tied to the picture and the quality by a relation alone: the encoder computes with
/// powers, whose precision is left to the machine.
#[verifier::external_body]
pub(crate) fn encode_webp(picture: &RgbaImage, quality: u8) -> (bytes: Vec<u8>)
    requires
        picture.well_formed(),
        1 <= picture.width <= LARGEST_EDGE,
        1 <= picture.height <= LARGEST_EDGE,
        quality <= 100,
    ensures
        is_webp_of(picture.pixels@, picture.width, picture.height, quality, bytes@),
{
    webp::Encoder::from_rgba(&picture.pixels, picture.width, picture.height)
        .encode(quality.into())
        .to_vec()
}

/// Whether JPEG has room for a width and a height.
pub open spec fn is_jpeg_size(width: u32, height: u32) -> bool {
    1 <= width <= 65535 && 1 <= height <= 65535
}

/// Encodes a picture with `JpegEncoder::encode`, at the given quality.
///
/// The format takes widths and heights from 1 to 65535 pixels; no other picture is refused. What was
/// written is recognised as JPEG, and read back with its width and height.
#[verifier::external_body]
pub(crate) fn encode_rgb_jpeg(picture: &RgbImage, quality: u8) -> (encoded: Result<Vec<u8>, String>)
    requires
        picture.well_formed(),
        1 <= quality <= 100,
    ensures
        match encoded {
            Ok(bytes) => {
                &&& jpeg_encoding(picture.pixels@, picture.width, picture.height, quality) == Ok::<
                    Seq<u8>,
                    Seq<char>,
                >(bytes@)
                &&& guessed_mime(bytes@) == Ok::<Seq<char>, Seq<char>>("image/jpeg"@)
                &&& read_dimensions(bytes@) == Ok::<(u32, u32), Seq<char>>(
                    (picture.width, picture.height),
                )
            },
            Err(text) => jpeg_encoding(picture.pixels@, picture.width, picture.height, quality)
                == Err::<Seq<u8>, Seq<char>>(text@),
        },
        encoded is Ok == is_jpeg_size(picture.width, picture.height),
{
    let mut bytes = Vec::new();
    let mut encoder = image::codecs::jpeg::JpegEncoder::new_with_quality(&mut bytes, quality);
    let color = image::ExtendedColorType::Rgb8;
    match encoder.encode(&picture.pixels, picture.width, picture.height, color) {
        Ok(()) => Ok(bytes),
        Err(error) => Err(format!("{:#}", anyhow::Error::new(error))),
    }
}

/// The character that stands for six bits in base64.
pub open spec fn base64_digit(bits: int) -> char {
    if bits < 26 {
        (0x41 + bits) as char
    } else if bits < 52 {
        (0x61 + bits - 26) as char
    } else if bits < 62 {
        (0x30 + bits - 52) as char
    } else if bits == 62 {
        '+'
    } else {
        '/'
    }
}

/// Bytes in base64: four characters for three bytes, and `=` in place of what is missing.
pub open spec fn base64_text(bytes: Seq<u8>) -> Seq<char>
    decreases bytes.len(),
{
    if bytes.len() == 0 {
        Seq::empty()
    } else {
        let a = bytes[0] as int;
        let b = if bytes.len() > 1 { bytes[1] as int } else { 0 };
        let c = if bytes.len() > 2 { bytes[2] as int } else { 0 };
        seq![
            base64_digit(a / 4),
            base64_digit(a % 4 * 16 + b / 16),
            if bytes.len() > 1 { base64_digit(b % 16 * 4 + c / 64) } else { '=' },
            if bytes.len() > 2 { base64_digit(c % 64) } else { '=' },
        ] + base64_text(bytes.skip(if bytes.len() > 3 { 3 } else { bytes.len() as int }))
    }
}

/// Writes bytes in base64 with `base64::engine::general_purpose::STANDARD`: the alphabet of
/// RFC 4648, with padding.
#[verifier::external_body]
pub(crate) fn encode_base64(bytes: &[u8]) -> (text: String)
    ensures
        text@ == base64_text(bytes@),
{
    base64::Engine::encode(&base64::engine::general_purpose::STANDARD, bytes)
}

/// A WebP picture as a URL that holds it.
pub open spec fn webp_url(bytes: Seq<u8>) -> Seq<char> {
    "data:image/webp;base64,"@ + base64_text(bytes)
}

/// Writes a WebP picture as a URL that holds it.
pub fn webp_data_url(bytes: &Vec<u8>) -> (url: String)
    ensures
        url@ == webp_url(bytes@),
{
    concat2("data:image/webp;base64,", encode_base64(bytes.as_slice()).as_str())
}

/// A channel over white: the mean of the channel and white, weighted by alpha, rounded to the
/// nearest whole number.
pub open spec fn over_white(channel: u8, alpha: u8) -> u8 {
    ((channel * alpha + 255 * (255 - alpha) + 127) / 255) as u8
}

/// The channel at a position of a picture after it is put on white.
pub open spec fn channel_over_white(pixels: Seq<u8>, at: int) -> u8 {
    over_white(pixels[4 * (at / 3) + at % 3], pixels[4 * (at / 3) + 3])
}

/// The channels of a picture after it is put on white.
pub open spec fn pixels_over_white(pixels: Seq<u8>) -> Seq<u8> {
    Seq::new(3 * (pixels.len() / 4), |at: int| channel_over_white(pixels, at))
}

fn mix_with_white(channel: u8, alpha: u8) -> (mixed: u8)
    ensures
        mixed == over_white(channel, alpha),
{
    let weight: u16 = alpha as u16;
    let rest: u16 = 255 - weight;
    let value: u16 = channel as u16;
    proof {
        lemma_weights(channel, alpha);
    }
    ((value * weight + 255 * rest + 127) / 255) as u8
}

proof fn lemma_weights(channel: u8, alpha: u8)
    ensures
        0 <= channel * alpha <= 255 * alpha,
        channel * 255 <= channel * alpha + 255 * (255 - alpha) <= 65025,
{
    assert(0 <= channel * alpha <= 255 * alpha) by (nonlinear_arith)
        requires
            0 <= channel <= 255,
            0 <= alpha <= 255,
    ;
    assert(channel * (255 - alpha) <= 255 * (255 - alpha)) by (nonlinear_arith)
        requires
            0 <= channel <= 255,
            0 <= alpha <= 255,
    ;
    assert(channel * 255 == channel * alpha + channel * (255 - alpha)) by (nonlinear_arith);
}

/// On white an opaque pixel keeps its colour and a transparent one becomes white; any other lies
/// between its colour and white, and is off the exact mean by less than half a step.
pub proof fn law_over_white(channel: u8, alpha: u8)
    ensures
        alpha == 255 ==> over_white(channel, alpha) == channel,
        alpha == 0 ==> over_white(channel, alpha) == 255,
        channel <= over_white(channel, alpha),
        -127 <= 255 * over_white(channel, alpha) - (channel * alpha + 255 * (255 - alpha)) <= 127,
{
    lemma_weights(channel, alpha);
    let sum = channel * alpha + 255 * (255 - alpha);
    assert(alpha == 255 ==> sum == channel * 255) by (nonlinear_arith)
        requires
            sum == channel * alpha + 255 * (255 - alpha),
    ;
    assert(alpha == 0 ==> sum == 65025) by (nonlinear_arith)
        requires
            sum == channel * alpha + 255 * (255 - alpha),
    ;
    assert(0 <= (sum + 127) / 255 <= 255);
}

/// Puts a picture on white.
pub fn composite_on_white(picture: RgbaImage) -> (flat: RgbImage)
    requires
        picture.well_formed(),
    ensures
        flat.well_formed(),
        flat.width == picture.width,
        flat.height == picture.height,
        flat.pixels@ == pixels_over_white(picture.pixels@),
        flat.pixels@.len() == 3 * (picture.width * picture.height),
        forall|pixel: int, channel: int|
            0 <= pixel < picture.width * picture.height && 0 <= channel < 3 ==> flat.pixels@[
            #[trigger] (3 * pixel + channel)] == over_white(
                picture.pixels@[4 * pixel + channel],
                picture.pixels@[4 * pixel + 3],
            ),
{
    let count: usize = picture.pixels.len() / 4;
    let mut pixels: Vec<u8> = Vec::new();
    let mut i: usize = 0;
    while i < count
        invariant
            i <= count,
            4 * count <= picture.pixels@.len(),
            4 * count <= usize::MAX,
            pixels@.len() == 3 * i,
            forall|at: int|
                0 <= at < 3 * i ==> #[trigger] pixels@[at] == channel_over_white(
                    picture.pixels@,
                    at,
                ),
        decreases count - i,
    {
        let alpha = picture.pixels[4 * i + 3];
        pixels.push(mix_with_white(picture.pixels[4 * i], alpha));
        pixels.push(mix_with_white(picture.pixels[4 * i + 1], alpha));
        pixels.push(mix_with_white(picture.pixels[4 * i + 2], alpha));
        i = i + 1;
    }
    assert(pixels@ =~= pixels_over_white(picture.pixels@));
    assert forall|pixel: int, channel: int|
        0 <= pixel < picture.width * picture.height && 0 <= channel < 3 implies pixels@[
    #[trigger] (3 * pixel + channel)] == over_white(
        picture.pixels@[4 * pixel + channel],
        picture.pixels@[4 * pixel + 3],
    ) by {
        let at = 3 * pixel + channel;
        assert(at / 3 == pixel && at % 3 == channel);
        assert(pixels@[at] == channel_over_white(picture.pixels@, at));
    }
    RgbImage { width: picture.width, height: picture.height, pixels }
}

/// On white each pixel keeps its place, and each of its channels becomes the mean of itself and
/// white, weighted by the alpha of that pixel and rounded to the nearest whole number.
pub proof fn law_pixels_over_white(pixels: Seq<u8>, pixel: int, channel: int)
    requires
        0 <= pixel,
        4 * pixel + 3 < pixels.len(),
        0 <= channel < 3,
    ensures
        pixels_over_white(pixels).len() == 3 * (pixels.len() / 4),
        ({
            let mixed = pixels_over_white(pixels)[3 * pixel + channel] as int;
            let own = pixels[4 * pixel + channel] as int;
            let alpha = pixels[4 * pixel + 3] as int;
            &&& -127 <= 255 * mixed - (own * alpha + 255 * (255 - alpha)) <= 127
            &&& alpha == 255 ==> mixed == own
            &&& alpha == 0 ==> mixed == 255
        }),
{
    let at = 3 * pixel + channel;
    assert(at / 3 == pixel && at % 3 == channel);
    law_over_white(pixels[4 * pixel + channel], pixels[4 * pixel + 3]);
}

/// A WebP picture is written as a URL that starts with its type and goes on with its bytes in base64:
/// four characters for each three bytes, begun or complete.
pub proof fn law_webp_url(bytes: Seq<u8>)
    ensures
        webp_url(bytes) == "data:image/webp;base64,"@ + base64_text(bytes),
        base64_text(bytes).len() == 4 * ((bytes.len() + 2) / 3),
    decreases bytes.len(),
{
    if bytes.len() > 3 {
        law_webp_url(bytes.skip(3));
    } else if bytes.len() > 0 {
        law_webp_url(bytes.skip(bytes.len() as int));
    }
}

/// A small picture is what scaling can give to the picture that is decoded; one with one byte for each
/// channel is scaled as it is.
pub proof fn law_small_pictures(
    source: Seq<u8>,
    size: (u32, u32),
    box_width: u32,
    box_height: u32,
    quality: u8,
    small: Seq<u8>,
    webp: Seq<u8>,
)
    requires
        64 <= box_width <= LARGEST_EDGE,
        64 <= box_height <= LARGEST_EDGE,
    ensures
        is_small_picture(source, box_width, box_height, small) ==> is_thumbnail(
            source,
            box_width,
            box_height,
            small,
        ) || is_plain_thumbnail(source, box_width, box_height, small),
        (picture_shape(source) matches Ok(shape) && 1 <= shape.2 <= shape.3) ==> (is_small_picture(
            source,
            box_width,
            box_height,
            small,
        ) <==> is_thumbnail(source, box_width, box_height, small)),
        is_small_webp(source, size, box_width, box_height, quality, webp) ==> {
            let (width, height) = fitted_size(size.0, size.1, box_width, box_height);
            &&& 1 <= width <= box_width && 1 <= height <= box_height
            &&& exists|channels: Seq<u8>| #[trigger]
                is_small_picture(source, box_width, box_height, channels) && channels.len() == 4 * (
                width * height) && is_webp_of(channels, width, height, quality, webp)
        },
{
    if let Ok(shape) = picture_shape(source) {
        if 1 <= shape.2 <= shape.3 {
            law_plain_pictures_scale(shape, box_width, box_height);
        }
    }
}

/// A picture of at most 65535 pixels is never too large to be scaled, whatever its channels.
pub proof fn law_tiny_pictures_scale(shape: (u32, u32, u8, u8), box_width: u32, box_height: u32)
    requires
        shape.0 * shape.1 <= 65535,
        1 <= box_width <= LARGEST_EDGE,
        1 <= box_height <= LARGEST_EDGE,
    ensures
        !is_oversized(shape, box_width, box_height),
{
    let (width, height) = (shape.0 as int, shape.1 as int);
    if width > 0 && height > 0 {
        let (columns, rows) = least_fitted_size(width, height, box_width as int, box_height as int);
        lemma_rounded_up(width, columns);
        lemma_rounded_up(height, rows);
        let (a, b) = (block_edge(width, columns), block_edge(height, rows));
        assert(0 <= a <= width && 0 <= b <= height);
        assert(0 <= a * b <= width * height) by (nonlinear_arith)
            requires
                0 <= a <= width,
                0 <= b <= height,
        ;
        let largest = largest_sample(shape.2 as int, shape.3 as int);
        assert((a * b) * largest <= 65535 * 65535) by (nonlinear_arith)
            requires
                0 <= a * b <= 65535,
                0 <= largest <= 65535,
        ;
    }
}

/// JPEG has room for pictures from 1 to 65535 pixels wide and high.
pub proof fn law_jpeg_size(width: u32, height: u32)
    ensures
        is_jpeg_size(width, height) <==> 1 <= width <= 65535 && 1 <= height <= 65535,
{
}

} // verus!
