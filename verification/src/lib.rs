//! Visual odometry and SLAM building blocks, verified.
//!
//! The library holds the bookkeeping and the decisions of a feature-based
//! SLAM pipeline. What has to be computed in floating point comes in from the
//! caller, as a value or as a function that answers one question.

pub mod apriltag_anchor;
pub mod descriptor;
pub mod double;
pub mod estimation;
pub mod frame;
pub mod geometry;
pub mod gray_image;
pub mod levenberg_marquardt;
pub mod mapping;
pub mod median;
pub mod odometry;
pub mod selection;
pub mod single;
pub mod stereo;
pub mod system;
pub mod vi_ba_schur;

pub use frame::Frame;
