//! Document metadata records.

use vstd::prelude::*;

verus! {

/// What the library knows about a document before downloading it.
#[derive(Debug, Clone)]
pub struct DocumentMetadata {
    pub url: String,
    pub title: String,
    pub page_count: usize,
    pub page_filenames: Vec<String>,
    pub author: Option<String>,
    /// Publication or creation date as given by Anyflip (`date`,
    /// `createDate`, `bookCreateDate` or `publishDate`).
    pub date: Option<String>,
    /// Cover image URL: `{base_url}/files/large/1.jpg`.
    pub thumbnail: Option<String>,
    /// Whether a password was needed to fetch the metadata.
    pub password_protected: bool,
}

/// A document summary.
#[derive(Debug, Clone)]
pub struct DocumentResult {
    pub url: String,
    pub title: String,
    pub thumbnail: Option<String>,
    pub page_count: Option<usize>,
    pub author: Option<String>,
}

pub open spec fn string_views(v: Seq<String>) -> Seq<Seq<char>> {
    v.map_values(|s: String| s@)
}

} // verus!
