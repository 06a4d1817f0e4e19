pub mod auth;
pub mod base64;
pub mod model;
pub mod repository;
pub mod router;
pub mod service;
