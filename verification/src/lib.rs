pub mod json;
pub mod text;

pub mod socket;
pub mod router;
pub mod server;
pub mod utils;
pub mod auth;
