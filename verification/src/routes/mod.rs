//! What each request does: accounts, plans and photos.

pub mod user;
pub mod plan;
pub mod photo;
