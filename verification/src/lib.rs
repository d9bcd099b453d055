//! Turn-by-turn navigation along a route.
pub mod arithmetic;
pub mod arithmetic_laws;
pub mod binary64;
pub mod controller;
pub mod envelope_tree;
pub mod lists;
pub mod models;
pub mod number_laws;
pub mod rounding;
pub mod rounding_bounds;
pub mod session;
pub mod step_advance;
pub mod step_progress;
pub mod time;
pub mod trip;
pub mod uzmatch;
