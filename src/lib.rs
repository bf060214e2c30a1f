pub mod entity;
pub mod table;
pub mod records;
pub mod store;
pub mod hierarchy;
pub mod tags;
pub mod codec;
pub mod schema;
pub mod activity;
pub mod history;
pub mod laws;
