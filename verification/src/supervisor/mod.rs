pub mod child;
pub mod health;
pub mod manager;
pub mod service;
