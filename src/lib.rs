//! Semantic model and generation policy of a C++ to Rust binding generator.
//!
//! The library works on a plain model of a parsed header (see [`entity`]) and decides which
//! declarations are exported, how each class is represented, which template instantiations
//! must be requested from the parser, and what each class emits on the Rust and C++ sides.

pub mod text;
pub mod name_pool;
pub mod config;
pub mod entity;
pub mod walker;
pub mod paths;
pub mod hierarchy;
pub mod export_db;
pub mod annotations;
pub mod prepass;
pub mod ephemeral;
pub mod class_kind;
pub mod model;
pub mod class;
pub mod emit;
pub mod pipeline;
pub mod generator;
