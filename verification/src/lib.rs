//! Verified core of a grid-based smoke simulation and its interactive shell:
//! keyboard and mouse-subscription bookkeeping, the staggered velocity grid
//! and its boundary layout, the queued edits that the mouse brush produces,
//! navigation through saved fractal constants, and texture generation.

pub mod input;
pub mod layout;
pub mod grid;
pub mod interactor;
pub mod julia;
pub mod runner;
pub mod texture;
pub mod worlds;
