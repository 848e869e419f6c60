//! A store of immutable package objects.
//!
//! An object lives in a directory of its own below `/pkgs/store`. It is built somewhere else and
//! put in place in one step, or it is imported: from its store path, where it is checked against
//! the hash of its canonical archive, or from a content-addressed store. An object that comes out
//! of a content-addressed store is sealed: nothing in it is writable, and every entry has the same
//! modification time. An object that was built keeps the metadata that its producer gave it, and
//! is refused where the producer left something writable.
//!
//! The library decides, and its caller does the reading and writing. Trees on disk come in as
//! plain values ([`disk`]); work on the file system goes out as requests, one at a time, and goes
//! on with the reply ([`work`], [`materialize`]).
//!
//! - [`text`], [`paths`], [`abs_path`], [`order`]: strings, paths, and the order of names.
//! - [`digest`], [`entry`], [`disk`], [`json`]: the data.
//! - [`archive`], [`manifest`], [`sealed`]: the checks of an object.
//! - [`action`], [`store_import`], [`cas_store_import`], [`error`]: import actions.
//! - [`store_path`], [`registry`], [`context`]: store paths and the outputs that rules declare.
//! - [`task`], [`work`], [`store_output`], [`materialize`]: putting objects in place, and removal.
//! - [`text_laws`], [`path_laws`], [`entry_laws`], [`view_laws`]: what holds of the data, and that
//!   contracts see all of it.
//! - [`format_laws`], [`archive_laws`], [`manifest_laws`], [`sealed_laws`]: what holds of the checks.
//! - [`outcome_laws`], [`import_laws`]: what holds of imports and declarations.
//! - [`step_laws`], [`work_laws`], [`seal_laws`], [`metadata_laws`], [`job_laws`],
//!   [`removal_laws`], [`realization_laws`]: what holds of placement and removal.
//! - [`call_laws`]: what the operations give for their arguments.

pub mod abs_path;
pub mod action;
pub mod archive;
pub mod archive_laws;
pub mod call_laws;
pub mod cas_store_import;
pub mod context;
pub mod digest;
pub mod disk;
pub mod entry;
pub mod entry_laws;
pub mod error;
pub mod format_laws;
pub mod import_laws;
pub mod job_laws;
pub mod json;
pub mod manifest;
pub mod manifest_laws;
pub mod materialize;
pub mod metadata_laws;
pub mod order;
pub mod outcome_laws;
pub mod path_laws;
pub mod paths;
pub mod realization_laws;
pub mod registry;
pub mod removal_laws;
pub mod seal_laws;
pub mod sealed;
pub mod sealed_laws;
pub mod step_laws;
pub mod store_import;
pub mod store_output;
pub mod store_path;
pub mod task;
pub mod text;
pub mod text_laws;
pub mod view_laws;
pub mod work;
pub mod work_laws;
