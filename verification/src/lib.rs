pub mod fixed;
pub mod geometry;
pub mod mesh;
pub mod pipeline;
