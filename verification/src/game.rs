//! The toroidal engine: circular hints with randomized rotation, and the
//! cursor controller that drives play.
pub mod problem;
pub mod tui_controller;
