pub mod text;
pub mod offsets;
pub mod sorting;
pub mod domain;
pub mod config;
pub mod search;
pub mod infra;
pub mod services;
pub mod cli;
pub mod ui;
