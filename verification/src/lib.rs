//! A toroidal nonogram (picross) engine.
//!
//! `game` holds the full engine: circular run-length hints with randomized
//! rotation, a working grid of player marks, and a cursor controller that
//! wraps around the board edges. `problem` holds a simpler engine variant
//! whose hints are plain linear run decompositions. `runs` holds the
//! mathematical theory of run-length decomposition shared by both.
pub mod game;
pub mod problem;
pub mod runs;
