//! Real-time 2D global illumination over a dense grid world using radiance
//! cascades: a hierarchical probe/ray structure that approximates scattered
//! light transport through a participating medium at interactive rates.
//!
//! All quantities are carried in Q16 fixed point (16 fractional bits), so the
//! whole pipeline is exact integer arithmetic with verified contracts.

pub mod cascade;
pub mod color;
pub mod data;
pub mod fixed;
pub mod mask;
pub mod radiance;
pub mod trace;
pub mod utils;
pub mod world;

pub use fixed::SCALE;
