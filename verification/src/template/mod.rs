pub mod render;
