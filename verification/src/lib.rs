//! Builds a shell command key by key from a tree of named options.
//!
//! The tree is checked once when it is loaded ([`config`]); a session walks
//! it one event at a time ([`tui`]), composes the command of the path taken
//! ([`path`]), and can jump to any node through a search index ([`search`]).
//! What is shown on the terminal is gathered as a list of instructions
//! ([`terminal`], [`menu`]) for the program around the library to carry out.

pub mod command_node;
pub mod commands;
pub mod config;
pub mod config_node;
pub mod constants;
pub mod error;
pub mod fuzzy_select;
pub mod input;
pub mod key;
pub mod menu;
pub mod node;
pub mod options;
pub mod path;
pub mod search;
pub mod style;
pub mod terminal;
pub mod text;
pub mod tui;
