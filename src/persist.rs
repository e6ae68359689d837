//! Conditions under which a normal map can be written out as an 8-bit RGBA
//! PNG, and the errors that saving surfaces to its caller.
use vstd::prelude::*;

verus! {

/// Texel layout of an in-memory image, as far as saving is concerned.
#[derive(Clone, Copy, Debug, PartialEq, Eq, Structural)]
pub enum TexelFormat {
    /// 8-bit RGBA, linear.
    Rgba8Unorm,
    /// 8-bit RGBA, gamma-encoded.
    Rgba8UnormSrgb,
    /// Any other layout.
    Other,
}

/// Why an image could not be saved.
#[derive(Clone, Copy, Debug, PartialEq, Eq, Structural)]
pub enum PersistError {
    /// The image is not 8-bit RGBA.
    UnsupportedFormat,
    /// The image has no pixel data.
    MissingData,
    /// The pixel data is too short for the image's width and height.
    BufferTooSmall,
    /// Writing the file failed.
    WriteFailed,
}

/// Whether images of this layout can be saved as 8-bit RGBA.
pub open spec fn is_rgba8(format: TexelFormat) -> bool {
    format == TexelFormat::Rgba8Unorm || format == TexelFormat::Rgba8UnormSrgb
}

/// Checks made before an image is handed to the encoder: the layout must be
/// 8-bit RGBA (plain or gamma-encoded), and pixel data must be present.
pub fn check_saveable(format: TexelFormat, has_data: bool) -> (r: Result<(), PersistError>)
    ensures
        !is_rgba8(format) ==> r == Err::<(), PersistError>(PersistError::UnsupportedFormat),
        is_rgba8(format) && !has_data ==> r == Err::<(), PersistError>(PersistError::MissingData),
        is_rgba8(format) && has_data ==> r == Ok::<(), PersistError>(()),
{
    match format {
        TexelFormat::Other => Err(PersistError::UnsupportedFormat),
        _ => {
            if has_data {
                Ok(())
            } else {
                Err(PersistError::MissingData)
            }
        },
    }
}

} // verus!
