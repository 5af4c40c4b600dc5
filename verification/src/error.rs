//! The errors of the library.
use vstd::prelude::*;

verus! {

/// Why a crawl operation failed.
#[derive(Debug)]
pub enum CrawlError {
    /// The `url` crate refused a URL.
    InvalidUrl(url::ParseError),
    /// The HTTP client could not be built.
    Client(reqwest::Error),
}

} // verus!
