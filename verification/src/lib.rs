//! Verified core of the Resona music player: the decisions, text formats and
//! state machines of its library, search, audio and shell integration, with
//! the database, file system and operating system left to the caller.

pub mod artwork;
pub mod audio;
pub mod gpu;
pub mod library;
pub mod paths;
pub mod search;
pub mod text;
pub mod windows;
