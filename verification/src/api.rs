//! The plain request and response shapes that the services around the
//! library exchange with their callers. The serving layer converts these
//! to and from its wire representations.

use vstd::prelude::*;

verus! {

/// A dictionary lookup request: the surface text and an optional cursor
/// index into it.
pub struct LookupParams {
    pub text: String,
    pub index: Option<usize>,
}

/// One surface form of a dictionary entry.
pub struct ApiForm {
    pub headword: String,
    pub reading: String,
}

/// A request to recognize the text in one image.
pub struct OcrRequest {
    pub url: String,
    pub user: Option<String>,
    pub pass: Option<String>,
    pub context: String,
}

/// A request to process a whole chapter of pages.
pub struct JobRequest {
    pub base_url: String,
    pub user: Option<String>,
    pub pass: Option<String>,
    pub context: String,
    pub pages: Option<Vec<String>>,
}

} // verus!
