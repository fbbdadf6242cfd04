pub mod defines;
pub mod error;
pub mod entity;
pub mod text;
pub mod grid;
pub mod chunk_map;
pub mod chunk;
pub mod config;
pub mod database;
pub mod login;
pub mod perms;
pub mod mission;
pub mod trade;
pub mod ai;
pub mod nano;
pub mod enter;
