//! The bridge to a hardware texture: what is handed to the surface that
//! uploads, and what is made of its answer.

use crate::buffer::PixelBuffer;
use vstd::prelude::*;

verus! {

/// Why no texture was made.
#[derive(Clone, Copy, Debug, PartialEq, Eq, Structural)]
pub enum UploadError {
    /// The surface refused a texture of these dimensions or of this format.
    Rejected(u32, u32),
}

/// A texture on a rendering surface: the identifier that the surface gave it,
/// and the dimensions of the buffer that it was made from.
///
/// The handle is a snapshot. Later drawing into the buffer does not reach the
/// texture, and once a buffer of other dimensions takes the source's place the
/// handle is stale: `describes` tells.
#[derive(Clone, Copy, Debug, PartialEq, Eq, Structural)]
pub struct TextureHandle {
    pub id: u64,
    pub width: u32,
    pub height: u32,
}

impl TextureHandle {
    /// Turns the answer of the surface to the upload of `source` into a handle:
    /// `Some` identifier means that the texture was made, `None` that the
    /// surface refused it.
    pub fn from_upload(source: &PixelBuffer, answer: Option<u64>) -> (result: Result<
        TextureHandle,
        UploadError,
    >)
        ensures
            answer matches Some(id) ==> result == Ok::<TextureHandle, UploadError>(
                TextureHandle { id, width: source.width(), height: source.height() },
            ),
            answer is None ==> result == Err::<TextureHandle, UploadError>(
                UploadError::Rejected(source.width(), source.height()),
            ),
    {
        match answer {
            Some(id) => Ok(TextureHandle { id, width: source.width(), height: source.height() }),
            None => Err(UploadError::Rejected(source.width(), source.height())),
        }
    }

    /// Tells whether the handle has the dimensions of `buffer`. A handle that
    /// does not is stale.
    pub fn describes(&self, buffer: &PixelBuffer) -> (current: bool)
        ensures
            current == (self.width == buffer.width() && self.height == buffer.height()),
    {
        self.width == buffer.width() && self.height == buffer.height()
    }
}

} // verus!
