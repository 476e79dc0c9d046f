//! A host for test reports: clients upload a bundle of results for a
//! project, a branch and a report line; the host stores it as a new
//! numbered version of that line, renders it where asked, and serves what
//! it has stored.
//!
//! This crate holds the rules of the host, each with its contract:
//!
//! - [`segment`]: which names may become directories;
//! - [`version`] and [`race`]: how versions are numbered and reserved, and
//!   what holds when uploads race for them;
//! - [`archive`]: where the entries of an uploaded archive are written;
//! - [`results_dir`]: where the result files of an upload are found;
//! - [`history`] and [`render`]: what surrounds a run of the renderer;
//! - [`upload`] and [`pipeline`]: the fields of an upload and its steps;
//! - [`catalog`]: the catalogue of everything stored;
//! - [`access`]: who may read the served tree.
//!
//! The crate touches neither files nor the network. Where a rule needs to
//! know what is on disk, the caller hands it a listing; where a rule wants
//! something done, it names the action and the caller performs it.

pub mod access;
pub mod archive;
pub mod catalog;
pub mod history;
pub mod listing;
pub mod models;
pub mod ordered;
pub mod pipeline;
pub mod race;
pub mod render;
pub mod results_dir;
pub mod segment;
pub mod text;
pub mod upload;
pub mod version;
