//! A schema-evolution-aware binary serialization engine for snapshotting the
//! state of a virtual-machine monitor's devices across software versions.
//!
//! A data type whose shape changed over the program's history (fields added or
//! removed, enum variants added or retired) is described once by a [`Shape`]
//! carrying per-field version metadata.  Encoding produces one canonical
//! little-endian byte form for a target [`Version`]; decoding reconstructs any
//! historical encoding into the current in-memory shape, synthesizing missing
//! fields and running corrective hooks.
//!
//! The byte format, the version gate, the struct and enum engines, the hook
//! protocol and the header-plus-trailing-array container are all specified by
//! spec functions and the executable code is verified against them.
//!
//! [`Shape`]: value::Shape
//! [`Version`]: version::Version

pub mod api;
pub mod dec;
pub mod enc;
pub mod errors;
pub mod fam;
pub mod hooks;
pub mod wire;
pub mod laws;
pub mod script;
pub mod value;
pub mod version;
pub mod vsock;
pub mod version_map;

pub use api::{deserialize, serialize, Sink};
pub use errors::VersionizeError;
pub use fam::FamStructWrapper;
pub use hooks::{NoHooks, SchemaHooks};
pub use script::{FallbackArm, FallbackScript, HookCond, HookRule, HookStep, ScriptedHooks};
pub use value::{FieldDecl, Shape, Value, VariantDecl};
pub use version::Version;
pub use version_map::VersionMap;
