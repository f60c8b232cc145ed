pub mod engine;
pub mod linalg;
