//! Pictures of the interface.
use vstd::prelude::*;

verus! {

/// What `image::load_from_memory_with_format`, for the format PNG, and
/// `DynamicImage::to_rgba8` make of bytes: the red, green, blue and alpha value of every
/// pixel, the width and the height; nothing where the bytes are no such picture.
pub uninterp spec fn image_pixels(bytes: Seq<u8>) -> Option<(Seq<u8>, u32, u32)>;

/// `image::load_from_memory_with_format` for the format PNG, which all pictures of the
/// interface have, then `DynamicImage::to_rgba8`, with the `dimensions` and the raw values
/// of the result. The contract claims that the bytes alone decide what comes out (with the
/// format given, no decoder that the process may have registered is asked), and that there
/// are four values for every pixel. Which pictures can be read, and which values their
/// pixels have, is not described further.
#[verifier::external_body]
fn decode_image(bytes: &[u8]) -> (r: Option<(Vec<u8>, u32, u32)>)
    ensures
        match r {
            Some(p) => image_pixels(bytes@) == Some((p.0@, p.1, p.2)),
            None => image_pixels(bytes@) is None,
        },
        r matches Some(p) ==> p.0@.len() == 4 * (p.1 * p.2),
{
    let picture = image::load_from_memory_with_format(bytes, image::ImageFormat::Png).ok()?.to_rgba8();
    let (width, height) = picture.dimensions();
    Some((picture.into_raw(), width, height))
}

/// A picture: four values for every pixel, row by row.
#[derive(Debug)]
pub struct Picture {
    pub rgba: Vec<u8>,
    pub width: u32,
    pub height: u32,
}

/// The picture that was read, or one transparent pixel where none was.
pub open spec fn picture(decoded: Option<(Seq<u8>, u32, u32)>) -> (Seq<u8>, u32, u32) {
    match decoded {
        Some(p) => p,
        None => (seq![0u8, 0u8, 0u8, 0u8], 1, 1),
    }
}

/// The picture that was read, or one transparent pixel where none was.
pub fn picture_or_blank(decoded: Option<(Vec<u8>, u32, u32)>) -> (r: Picture)
    ensures
        (r.rgba@, r.width, r.height) == picture(
            match decoded {
                Some(p) => Some((p.0@, p.1, p.2)),
                None => None,
            },
        ),
{
    match decoded {
        Some(p) => Picture { rgba: p.0, width: p.1, height: p.2 },
        None => {
            let rgba: Vec<u8> = vec![0, 0, 0, 0];
            assert(rgba@ =~= seq![0u8, 0u8, 0u8, 0u8]);
            Picture { rgba, width: 1, height: 1 }
        },
    }
}

/// The picture that the bytes of a PNG file hold, or one transparent pixel where they hold
/// none. Either way it has four values for every pixel.
pub fn load_icon(bytes: &[u8]) -> (r: Picture)
    ensures
        (r.rgba@, r.width, r.height) == picture(image_pixels(bytes@)),
        r.rgba@.len() == 4 * (r.width * r.height),
{
    let decoded = decode_image(bytes);
    assert(1 * 1 == 1) by (nonlinear_arith);
    picture_or_blank(decoded)
}

} // verus!
