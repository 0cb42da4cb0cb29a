pub mod amount;
pub mod auth;
pub mod book;
pub mod client;
pub mod commands;
pub mod config;
pub mod failure;
pub mod groups;
pub mod json;
pub mod micros;
pub mod report;
pub mod sort;
pub mod tally;
pub mod text;
