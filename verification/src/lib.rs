//! Planner backend core: accounts, session tokens, plans and photos,
//! with the rules of each request stated and proved.

pub mod text;
pub mod claims;
pub mod error;
pub mod models;
pub mod clock;
pub mod auth;
pub mod password;
pub mod store;
pub mod ids;
pub mod routes;
pub mod laws;
pub mod openapi;
