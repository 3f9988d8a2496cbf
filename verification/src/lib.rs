pub mod text;
pub mod level;
pub mod app;
pub mod folder;
pub mod config;
pub mod commands;
pub mod editor;
pub mod ui;
pub mod keys;
