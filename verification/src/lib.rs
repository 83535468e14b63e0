//! Routing of media files to player invocations, and playlist construction.

pub mod command;
pub mod config;
pub mod console;
pub mod demuxers;
pub mod editor;
pub mod order;
pub mod paths;
pub mod playlist;
pub mod predicate;
pub mod text;
