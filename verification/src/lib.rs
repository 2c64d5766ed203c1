pub mod text;
pub mod paths;
pub mod names;
pub mod config;
pub mod inbox;
pub mod ui;
pub mod dest;
pub mod quicklook;
pub mod app;
pub mod screen;
pub mod properties;
