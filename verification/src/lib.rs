pub mod ansi;
pub mod cli;
pub mod config;
pub mod conversation;
pub mod db;
pub mod dialog;
pub mod feedback_scanner;
pub mod git;
pub mod grouping;
pub mod json;
pub mod keys;
pub mod main_loop;
pub mod numfmt;
pub mod pointer;
pub mod path_complete;
pub mod rank_sort;
pub mod repo_config;
pub mod scanner;
pub mod selection;
pub mod session_tree;
pub(crate) mod strutil;
pub mod text_utils;
pub mod textscan;
pub mod time_utils;
pub mod tmux;
pub mod types;
pub mod update_checker;
pub mod widgets;
