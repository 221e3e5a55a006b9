pub mod camera;
pub mod gen;
pub mod grid;
pub mod rng;
pub mod sim;
