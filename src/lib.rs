//! A self-hosted commenting engine: thread resolution, comment storage with a
//! nesting policy, anonymous commenter identities, edit authorization, voting
//! and reassembly of the flat comment rows into nested trees.

pub mod comments;
pub mod config;
pub mod data;
pub mod db;
pub mod errors;
pub mod identity;
pub mod notify;
pub mod preferences;
pub mod threads;
pub mod tree;
