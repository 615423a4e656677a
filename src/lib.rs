pub mod geometry;
pub mod text;
pub mod material;
pub mod obj_loader;
pub mod transform_pool;
pub mod pipeline;
pub mod frame;
