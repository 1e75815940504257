use vstd::prelude::*;

verus! {

/// Fatal conditions the library reports. Configuration errors
/// (`ThumbsizeTooLarge`, `NotEnoughThumbnails`) are detected before any
/// matching work begins; format errors (`CorruptCache`, `DecodeFailed`)
/// mean an input byte stream could not be understood.
#[derive(Clone, Copy, PartialEq, Eq, Structural, Debug)]
pub enum MosaicError {
    /// The chunk size exceeds the target image's width or height.
    ThumbsizeTooLarge,
    /// Fewer than two usable thumbnail records are available.
    NotEnoughThumbnails,
    /// The persisted signature cache could not be deserialized.
    CorruptCache,
    /// An image byte stream could not be decoded.
    DecodeFailed,
}

impl MosaicError {
    /// True for errors of the configuration class, which map to their own
    /// process exit status.
    pub fn is_config(&self) -> (r: bool)
        ensures
            r == (*self == MosaicError::ThumbsizeTooLarge
                || *self == MosaicError::NotEnoughThumbnails),
    {
        match self {
            MosaicError::ThumbsizeTooLarge => true,
            MosaicError::NotEnoughThumbnails => true,
            _ => false,
        }
    }

    /// A short diagnostic text for this error.
    pub fn message(&self) -> (r: &'static str)
        ensures
            self matches MosaicError::ThumbsizeTooLarge ==> r@ == "thumbnail size is larger than the target image"@,
            self matches MosaicError::NotEnoughThumbnails ==> r@ == "not enough thumbnails found"@,
            self matches MosaicError::CorruptCache ==> r@ == "the thumbnail cache is corrupt"@,
            self matches MosaicError::DecodeFailed ==> r@ == "an image could not be decoded"@,
    {
        match self {
            MosaicError::ThumbsizeTooLarge => "thumbnail size is larger than the target image",
            MosaicError::NotEnoughThumbnails => "not enough thumbnails found",
            MosaicError::CorruptCache => "the thumbnail cache is corrupt",
            MosaicError::DecodeFailed => "an image could not be decoded",
        }
    }
}

} // verus!
