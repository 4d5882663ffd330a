//! Finds build outputs and package folders left behind by forgotten projects,
//! groups them by language, and drives the screen that selects which of them
//! to delete.

pub mod text;
pub mod language;
pub mod catalog;
pub mod sizes;
pub mod browser;
pub mod rows;
