//! A library for keeping a PARA notes system (Projects, Areas, Resources,
//! Archive, plus an Inbox) in order: where items are filed, how their
//! paths are laid out, how they are listed, moved, archived and reviewed.
//!
//! Everything here is pure: the caller reads the filesystem, the clock and
//! the terminal, hands the library plain values, and acts on what it gets
//! back.

pub mod category;
pub mod text;
pub mod config;
pub mod workspace;
pub mod order;
pub mod items;
pub mod cli;
pub mod review;
pub mod frontmatter;
pub mod editor;
