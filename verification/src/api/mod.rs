pub mod auth;
pub mod drive;
pub mod http;
