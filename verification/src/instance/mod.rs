//! Game instances: what is known of them, and what a request to change one amounts to.
pub mod config;
pub mod creation;
pub mod list;
pub mod loader;
pub mod models;
pub mod resources;
pub mod store;
pub mod wanda;
