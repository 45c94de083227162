//! Builds a word list from the browse index of a dictionary site: every
//! two-letter prefix page is fetched, the entries of each page are gathered
//! into one collection, and the collection becomes a sorted dictionary file.
pub mod collection;
pub mod crawl;
pub mod extract;
pub mod finalize;
