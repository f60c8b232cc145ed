pub mod game;
pub mod image;
pub mod physics;
pub mod scene;
