pub mod config;
pub mod factory;
pub mod group;
pub mod guard;
pub mod header;
pub mod laws;
pub mod middleware;
pub mod parts_laws;
pub mod resource;
pub mod route;
pub mod service;
