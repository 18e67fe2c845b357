//! Model catalogue, account filtering and API-key checks for the Kiro gateway.

pub mod auth;
pub mod metadata;
pub mod model;
pub mod model_service;
pub mod models_api;
pub mod refresh;
pub mod text;
