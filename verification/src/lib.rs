pub mod browser;
pub mod lite;
pub mod pattern;
pub mod service;
pub mod text;
pub mod ui;
