pub mod keymap;
pub mod strutil;
pub mod url_utils;
