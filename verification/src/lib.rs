//! Jetson board monitoring: the data model, the parsers of the kernel's text
//! interfaces, and the state of the terminal front end.

pub mod ui;
pub mod text;
pub mod hardware;
pub mod remote;
pub mod app;
pub mod args;
pub mod auth;
