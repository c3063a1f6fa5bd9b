//! What an image viewer computes between reading files and showing a window:
//! which files it takes, the pixels it shows and the text beside them.

pub mod args;
pub mod display;
pub mod font;
pub mod image_data;
pub mod metadata;
pub mod screen;
