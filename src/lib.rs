//! Dense optical flow between two images by a coarse-to-fine variational method.
//!
//! Intensities are fixed-point integers in `[0, MAX_INTENSITY]`, displacements are
//! fixed-point integers in units of `1 / SUBPIXEL` pixel, and the real-valued tuning
//! parameters are fractions.

pub mod arith;
pub mod flow;
mod grid;
pub mod interp;
pub mod params;
pub mod pyramid;
pub mod raster;
pub mod solver;

pub use solver::coarse2fine_flow;
pub use flow::Flow;
pub use params::{ColorMode, FlowError, Fraction, SolverParams};
pub use raster::ImageBuf;
