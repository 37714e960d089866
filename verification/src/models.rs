//! The data handed back to callers of the paper-index client.

use vstd::prelude::*;

verus! {

/// One paper as listed or fetched from the index.
#[derive(Debug, Clone)]
pub struct Paper {
    pub id: String,
    pub title: String,
    pub authors: Vec<String>,
    pub summary: String,
    pub published_date: String,
    pub url: String,
    pub pdf_url: String,
    pub description_paragraphs: Option<Vec<Paragraph>>,
}

/// One paragraph of a paper's full text.
#[derive(Debug, Clone)]
pub struct Paragraph {
    pub number: String,
    pub id: String,
    pub text: String,
}

} // verus!
