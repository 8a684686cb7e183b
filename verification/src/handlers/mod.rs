pub mod admin;
pub mod auth;
pub mod broadcast;
pub mod chat;
pub mod chunked;
pub mod files;
pub mod groups;
pub mod org;
pub mod pending;
pub mod sync;
pub mod users;
