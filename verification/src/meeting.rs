//! Meeting rooms: the client behind the terminal and the one behind the browser.

pub mod tui_client;
pub mod web;
