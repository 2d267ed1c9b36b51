pub mod clock;
pub mod backend;
pub mod text;
pub mod messages;
pub mod generation;
pub mod prompt;
pub mod models;
pub mod catalog;
pub mod browse;
pub mod sessions;
pub mod registry;
pub mod download;
pub mod engine;
pub mod control;
