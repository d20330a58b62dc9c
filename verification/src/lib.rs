//! Analytics and view engine of a battery power dashboard.
//!
//! A collector appends battery samples to a per-day log; this library turns
//! the resulting raw, irregularly sampled time series into a display-ready
//! chart: it detects sleep gaps in the sampling, adaptively widens the visible
//! window until it holds enough data, and compresses the time axis so sleep
//! gaps do not dominate the curve.

pub mod record;
pub mod view;
pub mod date;
pub mod text;
pub mod app;
pub mod sleep;
pub mod axis;
pub mod chart;
pub mod files;
