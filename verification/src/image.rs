//! The image processing interface: splitting, compression and encoding
//! are an external collaborator's work; these are the shapes it
//! exchanges with the handlers.
use vstd::prelude::*;

verus! {

/// The image processing service handle.
pub struct ImageService;

impl ImageService {
    /// Builds the handle.
    pub fn new() -> Self {
        ImageService
    }
}

/// A processing request: the raw image bytes.
#[derive(Debug, Clone)]
pub struct ImageProcessRequest {
    pub image: Vec<u8>,
}

/// The processing answer: the pieces, base64-encoded.
#[derive(Debug, Clone)]
pub struct ImageProcessResponse {
    pub base64_data: Vec<String>,
}

} // verus!
