//! The decisions behind don's terminal interface and its file watcher.
//!
//! Everything here is plain state and plain functions on it: what the log pane
//! shows, where a scroll lands, what a key does, which rebuild a changed file
//! asks for. Reading the terminal, drawing on it and touching the file system
//! belong to the program around the library.

pub mod app;
pub mod attach;
pub mod attach_view;
pub mod bar;
pub mod client;
pub mod colors;
pub mod commands;
pub mod config;
pub mod counts;
pub mod coverage;
pub mod dispatch;
pub mod effects;
pub mod failures;
pub mod filter;
pub mod form;
pub mod form_input;
pub mod form_view;
pub mod fuzzy;
pub mod globs;
pub mod input;
pub mod keys;
pub mod labels;
pub mod log_store;
pub mod logs;
pub mod marks;
pub mod names;
pub mod normal_input;
pub mod output;
pub mod panels;
pub mod panes;
pub mod paths;
pub mod pointer;
pub mod rows;
pub mod screen;
pub mod search;
pub mod selection;
pub mod session;
pub mod status_table;
pub mod style;
pub mod tables;
pub mod text;
pub mod view_index;
pub mod walk;
pub mod watch;
pub mod watch_setup;
pub mod writer;
