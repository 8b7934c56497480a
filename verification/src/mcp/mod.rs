pub mod schema;
pub mod server;
