//! Contents shown under a header.

use vstd::prelude::*;

verus! {

/// Contents shown under a header line.
#[derive(Clone, Debug)]
pub struct HeaderContents<T> {
    pub header: String,
    pub contents: T,
}

impl<T> HeaderContents<T> {
    /// `contents` under `header`.
    pub fn new(header: String, contents: T) -> (r: Self)
        ensures
            r.header == header,
            r.contents == contents,
    {
        HeaderContents { header, contents }
    }
}

} // verus!
