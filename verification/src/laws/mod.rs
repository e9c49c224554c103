//! What holds of the kernels together.
pub mod attention;
pub mod costs;
pub mod dataset;
pub mod dispatch;
pub mod figure;
pub mod grammar;
pub mod heads;
pub mod json;
pub mod masks;
pub mod matrices;
pub mod maxima;
pub mod means;
pub mod measures;
pub mod model;
pub mod orders;
pub mod paths;
pub mod picture;
pub mod probes;
pub mod reading;
pub mod softmax;
pub mod stopwatch;
pub mod sums;
pub mod tables;
pub mod terms;
pub mod vectors;
