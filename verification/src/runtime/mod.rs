pub mod cache;
pub mod pipeline;
pub mod registry;
pub mod reload;
