pub mod fractal_complex;
pub mod fractal_engine;
pub mod log2;
pub mod pool;
pub mod supervisor;
pub mod tiles;
pub mod utils;
pub mod worker;
