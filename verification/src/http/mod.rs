//! What the HTTP surface decides.

pub mod auth_layer;
pub mod cookies;
pub mod csrf;
pub mod error;
pub mod membership_cache;
pub mod routes;
