//! A small library for managing named profiles of a single credentials file.
//!
//! Profiles are copies of the credentials file stored in a registry
//! directory under `<name>.tfrc.json`; the active profile is selected by a
//! symbolic link at a fixed location pointing into the registry.  This
//! library holds the verified decision logic: deriving profile names from
//! file names, building the registry mapping, resolving the active link,
//! and deciding what each command (switch, import, status, list) does.
//! All filesystem access is performed by the surrounding application,
//! which hands the observed state in as plain values.

pub mod commands;
pub mod errors;
pub mod link;
pub mod names;
pub mod registry;
