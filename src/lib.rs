//! Spectral analysis core: binned histograms, fit markers, linear background
//! estimation and subtraction, fit preparation, and polygon cuts over rows.
//!
//! Axis positions are integers in the histogram's own axis unit; bin centres,
//! which fall on half units, are carried doubled so that every quantity stays
//! exact.

pub mod background;
pub mod cut;
pub mod fit;
pub mod histogram;
pub mod markers;
pub mod shift_map;
