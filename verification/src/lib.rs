//! A running-pace calculator: parses human-friendly duration and distance
//! tokens, converts between kilometres and miles, projects finish times for
//! the standard race distances, and renders second counts back into
//! `HhMMmSSs` strings. All quantities are exact scaled integers
//! (a value is `num / 10^scale`), so every conversion and projection is
//! verified down to the digit.

pub mod digits;
pub mod distance;
pub mod errors;
pub mod modes;
pub mod projector;
pub mod render;
pub mod scaled;
pub mod time;
