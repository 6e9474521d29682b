//! Small pictures of pages.

use crate::error::{caused, Error};
use crate::images::{
    decoded_size, encode_webp, fitted_size, is_scaled, is_small_picture, is_small_webp, is_webp_of,
    load_small_picture, resize, RgbaImage, ScaleFilter, LARGEST_EDGE,
};
use crate::text::concat3;
use crate::views::{data_result, optional_bytes};
use vstd::prelude::*;

verus! {

/// The width and the height that the thumbnail of a page fits into.
pub const THUMBNAIL_EDGE: u32 = 128;

/// The WebP quality of the thumbnail of a page.
pub const THUMBNAIL_QUALITY: u8 = 80;

/// The width and the height that the preview of a page fits into.
pub const PREVIEW_EDGE: u32 = 1024;

/// The WebP quality of the preview of a page.
pub const PREVIEW_QUALITY: u8 = 85;

/// Makes the thumbnail of a page out of the picture that was decoded and scaled down.
pub fn encode_thumbnail(decoded: Result<(u32, u32, RgbaImage), String>) -> (bytes: Result<
    Vec<u8>,
    Error,
>)
    requires
        decoded matches Ok((_, _, small)) ==> small.well_formed() && 1 <= small.width
            <= LARGEST_EDGE && 1 <= small.height <= LARGEST_EDGE,
    ensures
        match decoded {
            Err(cause) => bytes matches Err(error) && error@ == caused(
                "failed to decode source image"@,
                cause@,
            ),
            Ok((full_width, full_height, small)) => if full_width == 0 || full_height == 0 {
                bytes matches Err(error) && error@ == "source image is empty"@
            } else {
                bytes matches Ok(webp) && is_webp_of(
                    small.pixels@,
                    small.width,
                    small.height,
                    THUMBNAIL_QUALITY,
                    webp@,
                )
            },
        },
        bytes matches Ok(webp) ==> (decoded matches Ok((_, _, small)) && is_webp_of(
            small.pixels@,
            small.width,
            small.height,
            80,
            webp@,
        )),
{
    match decoded {
        Err(cause) => Err(Error::because("failed to decode source image", cause.as_str())),
        Ok((full_width, full_height, small)) => if full_width == 0 || full_height == 0 {
            Err(Error::new("source image is empty"))
        } else {
            Ok(encode_webp(&small, THUMBNAIL_QUALITY))
        },
    }
}

/// What can become of the thumbnail of a page with this source image: a WebP that fits into the box,
/// unless the image cannot be decoded or is empty.
pub open spec fn is_thumbnail_outcome(
    source: Seq<u8>,
    outcome: Result<Seq<u8>, Seq<char>>,
) -> bool {
    match decoded_size(source) {
        Err(cause) => outcome == Err::<Seq<u8>, Seq<char>>(
            caused("failed to decode source image"@, cause),
        ),
        Ok(size) => if size.0 == 0 || size.1 == 0 {
            outcome == Err::<Seq<u8>, Seq<char>>("source image is empty"@)
        } else {
            outcome matches Ok(webp) && is_small_webp(
                source,
                size,
                THUMBNAIL_EDGE,
                THUMBNAIL_EDGE,
                THUMBNAIL_QUALITY,
                webp,
            )
        },
    }
}

/// Makes the thumbnail of a page out of its source image.
pub fn get_thumbnail(source: &Vec<u8>) -> (bytes: Result<Vec<u8>, Error>)
    ensures
        is_thumbnail_outcome(source@, data_result(bytes)),
{
    let decoded = load_small_picture(source.as_slice(), THUMBNAIL_EDGE, THUMBNAIL_EDGE);
    let ghost small = decoded->Ok_0.2;
    let bytes = encode_thumbnail(decoded);
    assert(decoded is Ok ==> is_small_picture(
        source@,
        THUMBNAIL_EDGE,
        THUMBNAIL_EDGE,
        small.pixels@,
    ));
    bytes
}

/// The source image of a page, or why there is none.
pub open spec fn source_image(
    open: bool,
    page: Seq<char>,
    source: Result<Option<Seq<u8>>, Seq<char>>,
) -> Result<Seq<u8>, Seq<char>> {
    if !open {
        Err("no project is open"@)
    } else {
        match source {
            Err(cause) => Err(cause),
            Ok(None) => Err("page "@ + page + " has no source image"@),
            Ok(Some(bytes)) => Ok(bytes),
        }
    }
}

/// What a project said of the source image of a page, in terms of sequences.
pub open spec fn source_view(source: Result<Option<Vec<u8>>, String>) -> Result<
    Option<Seq<u8>>,
    Seq<char>,
> {
    match source {
        Ok(bytes) => Ok(optional_bytes(bytes)),
        Err(cause) => Err(cause@),
    }
}

/// Takes the source image of a page: `open` tells whether a project is open, and `source` what that
/// project said of the page.
pub fn take_source_image(open: bool, page: &str, source: Result<Option<Vec<u8>>, String>) -> (bytes:
    Result<Vec<u8>, Error>)
    ensures
        data_result(bytes) == source_image(open, page@, source_view(source)),
{
    if !open {
        return Err(Error::new("no project is open"));
    }
    match source {
        Err(cause) => Err(Error { message: cause }),
        Ok(None) => Err(Error { message: concat3("page ", page, " has no source image") }),
        Ok(Some(bytes)) => Ok(bytes),
    }
}

/// Whether a picture can be what another one is scaled to for a preview: it has the size that fits
/// and the pixels that the scaling can give, and is the same where that is the size of the other.
pub open spec fn is_preview_of(small: RgbaImage, picture: RgbaImage) -> bool {
    &&& small.well_formed()
    &&& (small.width, small.height) == fitted_size(
        picture.width,
        picture.height,
        PREVIEW_EDGE,
        PREVIEW_EDGE,
    )
    &&& is_scaled(
        picture.pixels@,
        picture.width,
        picture.height,
        PREVIEW_EDGE,
        PREVIEW_EDGE,
        ScaleFilter::Lanczos3,
        small.pixels@,
    )
    &&& small.width <= PREVIEW_EDGE && small.height <= PREVIEW_EDGE
    &&& picture.width == PREVIEW_EDGE && picture.height == PREVIEW_EDGE ==> small.pixels@
        == picture.pixels@ && small.width == PREVIEW_EDGE && small.height == PREVIEW_EDGE
}

/// Whether bytes can be the preview of a page, by the picture that was scaled to fit.
pub open spec fn is_preview_webp(small: RgbaImage, bytes: Seq<u8>) -> bool {
    is_webp_of(small.pixels@, small.width, small.height, PREVIEW_QUALITY, bytes)
}

/// Encodes the preview of a page.
pub fn encode_preview(small: &RgbaImage) -> (bytes: Vec<u8>)
    requires
        small.well_formed(),
        1 <= small.width <= LARGEST_EDGE,
        1 <= small.height <= LARGEST_EDGE,
    ensures
        is_preview_webp(*small, bytes@),
        is_webp_of(small.pixels@, small.width, small.height, 85, bytes@),
{
    encode_webp(small, PREVIEW_QUALITY)
}

/// Makes the preview of a page out of its rendered picture.
pub fn rendered_preview(picture: RgbaImage) -> (bytes: Vec<u8>)
    requires
        picture.well_formed(),
    ensures
        exists|small: RgbaImage|
            is_preview_of(small, picture) && #[trigger] is_preview_webp(small, bytes@),
        exists|small: RgbaImage|
            {
                &&& (small.width, small.height) == fitted_size(
                    picture.width,
                    picture.height,
                    1024,
                    1024,
                )
                &&& is_scaled(
                    picture.pixels@,
                    picture.width,
                    picture.height,
                    1024,
                    1024,
                    ScaleFilter::Lanczos3,
                    small.pixels@,
                )
                &&& #[trigger] is_webp_of(
                    small.pixels@,
                    small.width,
                    small.height,
                    85,
                    bytes@,
                )
            },
{
    let small = resize(picture, PREVIEW_EDGE, PREVIEW_EDGE, ScaleFilter::Lanczos3);
    assert(is_preview_of(small, picture));
    encode_preview(&small)
}

/// The thumbnail of a page fits into 128 by 128 pixels and is a WebP of quality 80 of its source image;
/// there is one if and only if that image decodes and is not empty.
pub proof fn law_thumbnail(source: Seq<u8>, outcome: Result<Seq<u8>, Seq<char>>)
    requires
        is_thumbnail_outcome(source, outcome),
    ensures
        outcome is Ok <==> (decoded_size(source) matches Ok(size) && size.0 > 0 && size.1 > 0),
        outcome matches Ok(webp) ==> is_small_webp(
            source,
            decoded_size(source)->Ok_0,
            128,
            128,
            80,
            webp,
        ),
        decoded_size(source) matches Err(cause) ==> outcome == Err::<Seq<u8>, Seq<char>>(
            "failed to decode source image"@ + ": "@ + cause,
        ),
{
}

/// The source image of a page is what the project says of it; without a project there is none, and a
/// page without one is told of by its number.
pub proof fn law_source_image(page: Seq<char>, source: Result<Option<Seq<u8>>, Seq<char>>)
    ensures
        source_image(false, page, source) == Err::<Seq<u8>, Seq<char>>("no project is open"@),
        match source {
            Ok(Some(bytes)) => source_image(true, page, source) == Ok::<Seq<u8>, Seq<char>>(bytes),
            Ok(None) => source_image(true, page, source) == Err::<Seq<u8>, Seq<char>>(
                "page "@ + page + " has no source image"@,
            ),
            Err(cause) => source_image(true, page, source) == Err::<Seq<u8>, Seq<char>>(cause),
        },
{
}

/// What a project said of a source image is taken as it is.
pub proof fn law_source_view(source: Result<Option<Vec<u8>>, String>)
    ensures
        match source {
            Ok(Some(bytes)) => source_view(source) == Ok::<Option<Seq<u8>>, Seq<char>>(
                Some(bytes@),
            ),
            Ok(None) => source_view(source) == Ok::<Option<Seq<u8>>, Seq<char>>(None),
            Err(cause) => source_view(source) == Err::<Option<Seq<u8>>, Seq<char>>(cause@),
        },
{
}

/// A preview is the picture scaled by Lanczos3 to fit into 1024 by 1024 pixels, as WebP of quality 85;
/// a picture of that size is not scaled.
pub proof fn law_preview(small: RgbaImage, picture: RgbaImage, bytes: Seq<u8>)
    requires
        is_preview_of(small, picture),
        is_preview_webp(small, bytes),
    ensures
        (small.width, small.height) == fitted_size(picture.width, picture.height, 1024, 1024),
        small.width <= 1024,
        small.height <= 1024,
        is_scaled(
            picture.pixels@,
            picture.width,
            picture.height,
            1024,
            1024,
            ScaleFilter::Lanczos3,
            small.pixels@,
        ),
        picture.width == 1024 && picture.height == 1024 ==> small.pixels@ == picture.pixels@,
        is_webp_of(small.pixels@, small.width, small.height, 85, bytes),
{
}

} // verus!
