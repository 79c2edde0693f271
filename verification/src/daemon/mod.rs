pub mod daemon;
pub mod handler;
pub mod route;
