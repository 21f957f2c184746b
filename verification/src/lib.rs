//! Git state translation and worktree lifecycle engine.
//!
//! The library turns git's line-oriented porcelain output into typed records
//! (status partitions, commit summaries, per-commit file changes, worktree
//! inventories) and owns the worktree naming scheme: slugs, collision-avoiding
//! suffixes, branch and directory names. Every function here is pure text
//! logic; spawning the git tool and touching the filesystem belong to the
//! surrounding application.

pub mod commit_files;
pub mod history;
pub mod inventory;
pub mod iterm;
pub mod listing;
pub mod repo;
pub mod status;
pub mod text;
pub mod worktree;

