//! Finding the newest snapshot of a satellite product in a store that is laid
//! out as year / day / hour folders, and turning three of its bands into the
//! bytes of a truecolor picture.
//!
//! The store and the files are reached by the program around this library.
//! What it reads it hands over as text and numbers; what is decided from them
//! is decided here, and every function states what it returns.

pub mod error;
pub mod text;
pub mod decimal;
pub mod listing;
pub mod locator;
pub mod raster;
pub mod picture;
