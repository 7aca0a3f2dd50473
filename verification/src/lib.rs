//! The rules of a disk-usage viewer, apart from any toolkit or terminal.

pub mod backend;
pub mod bottom_line;
pub mod bytes;
pub mod canvas;
pub mod cli;
pub mod clipboard;
pub mod color;
pub mod config;
pub mod controls;
pub mod count;
pub mod entries;
pub mod error;
pub mod fit;
pub mod fonts;
pub mod front;
pub mod grid;
pub mod keybind;
pub mod keys;
pub mod mac_view;
pub mod menu;
pub mod menubar;
pub mod message_box;
pub mod names;
pub mod painting;
pub mod palette;
pub mod paths;
pub mod picture;
pub mod preview;
pub mod removal;
pub mod rescan;
pub mod script;
pub mod search;
pub mod session;
pub mod shell;
pub mod sixel;
pub mod state;
pub mod terminal;
pub mod text;
pub mod trash;
pub mod tui;
pub mod wayland;
pub mod window;
pub mod x11;
pub mod xkb;
