use vstd::prelude::*;

pub mod checkpoint;
pub mod evolution;
pub mod grid;
mod random;
pub mod snake_env;
