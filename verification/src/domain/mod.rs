//! Plain domain types: markdown documents and directory listings.
pub mod filetree;
pub mod markdown;
