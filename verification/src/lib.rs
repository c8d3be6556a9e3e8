pub mod vector2;
pub mod grid;
pub mod vector;
pub mod text;
pub mod numpy;
pub mod header;
pub mod error;
pub mod load;
pub mod archive;
pub mod debug_buffer;
pub mod aabb;
pub mod controls;
pub mod stack;
pub mod roundtrip;
pub mod markdown;
