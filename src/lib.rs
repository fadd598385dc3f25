//! Reversible file deletion: files are moved into a trash root that mirrors
//! the file system, every batch of moves is recorded in an append-only log,
//! and trashed files can later be restored, listed or purged.
//!
//! The modules hold the decisions; reading the file system, moving files and
//! asking the user are left to the caller, who hands each answer back.

pub mod args;
pub mod collision;
pub mod config;
pub mod engine;
pub mod lines;
pub mod log;
pub mod path;
pub mod record;
