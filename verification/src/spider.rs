//! A depth-bounded crawler that collects the images of one site.
//!
//! The library decides; its caller performs the network and file work that
//! each decision asks for and reports back what happened.

pub mod crawl;
pub mod download;
pub mod extract;
pub mod reach;
pub mod registry;
pub mod settings;
pub mod web;
