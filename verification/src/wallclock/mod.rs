//! The wall clock's logic: dials, the block font, frames, themes and chrome.
pub mod dial;
pub mod face;
pub mod digits;
pub mod chrome;
pub mod frame;
pub mod theme;
pub mod paint;
