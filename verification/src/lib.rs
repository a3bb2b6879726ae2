//! Stacked merge requests for Jujutsu repositories.
pub mod action;
pub mod bookmark;
pub mod bytes;
pub mod change_map;
pub mod config;
pub mod error;
pub mod forge;
pub mod init;
pub mod jj;
pub mod jujutsu;
pub mod link_log;
pub mod merge_request;
pub mod ordered_map;
pub mod process;
pub mod push;
pub mod push_create;
pub mod remote;
pub mod stack_link;
pub mod style;
pub mod submit;
pub mod text;
pub mod text_set;
pub mod toml_text;
pub mod wrap;
