//! The decisions behind the web routes.
pub mod auth;
pub mod file_tree;
pub mod wiki;
