//! Catalog and synchronisation engine for large model files kept in a host
//! directory and mirrored into a stash directory.
//!
//! The crate holds the rules of the engine as verified functions over plain
//! values: how a file name is classified, which files a scan accepts, when a
//! transfer is admitted, how catalog rows are merged, listed and migrated.
//! Reading directories, copying files and persisting the catalog are left to
//! the caller, which hands in what it observed and carries out what the
//! engine decides.

pub mod text;
pub mod error;
pub mod kind;
pub mod order;
pub mod registry;
pub mod file_ops;
pub mod models;
pub mod catalog;
pub mod dt_json;
pub mod classifier;
pub mod commands;
pub mod transfer;
pub mod schema;
pub mod first_run;
pub mod logger;
pub mod env_config;
pub mod file_info;
