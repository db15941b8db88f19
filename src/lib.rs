//! Payment dispatch between interchangeable backend processors: a bounded
//! cache, a rate-limited health probe service and a processor selector.
pub mod table;
pub mod cache;
pub mod selector;
pub mod health;
pub mod models;
pub mod processor;
