//! Histograms of integer-coded categorical samples, verified with Verus.
//!
//! The histogram builders count how often each tuple of category codes occurs
//! across one, two or three aligned sample sequences, and report a length
//! mismatch or an out-of-range code as an error.
pub mod arrays;
pub mod hist;
pub mod total;

pub use arrays::{Histogram1, Histogram2, Histogram3};
pub use hist::{hist1d, hist2d, hist3d, HistError};
