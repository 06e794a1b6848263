pub mod config;
pub mod datasource;
pub mod resource;
pub mod service;
pub mod store;
pub mod util;
