//! Core of a particle animation: particles spawn from an origin on a fixed
//! cadence, travel in straight lines, occasionally burst into a radial fan of
//! new particles, and are pruned once they leave the viewport.
//!
//! All geometry is carried in fixed-point coordinates (`geom::UNIT` raw steps
//! per spatial unit), so the whole simulation step is plain integer
//! arithmetic with verified contracts. The host supplies the direction table
//! (one unit vector per whole degree) and drives one `sim::tick` per frame;
//! drawing and windowing stay outside this crate.

pub mod config;
pub mod geom;
pub mod particle;
pub mod sim;
pub mod system;
