//! Export pipeline for structural type descriptions.
//!
//! A set of data types (structs and enums, with field shapes and enum
//! tagging conventions) is described by an intermediate representation,
//! organized into a tree of named modules, completed by a fixed-point
//! dependency resolver, partitioned into output files by a decomposition
//! policy, and rendered as TypeScript declarations with relative imports
//! between the generated files.

pub mod attrs;
pub mod burrmod;
pub mod case;
pub mod error;
pub mod exporter;
pub mod ir;
pub mod order;
pub mod path;
pub mod registry;
pub mod render;
pub mod tsfile;
pub mod typescript;
