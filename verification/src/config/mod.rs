pub mod copy;
pub mod diff;
pub mod loader;
pub mod model;
pub mod validate;
