//! A catalog of original photographs and of the JPEG derivatives built from them.

pub mod config;
pub mod digest;
pub mod error;
pub mod gallery;
pub mod image_table;
pub mod laws;
pub mod orientation;
pub mod paths;
pub mod picture;
pub mod text;
pub mod thumbnail;
