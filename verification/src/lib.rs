//! Verified core of `schemaui`: the logic that turns JSON Schema documents
//! into navigable forms, and the rules the interactive session follows.

pub mod text;
pub mod pointer;
pub mod label;
pub mod lifecycle;
pub mod frontend;
pub mod keys;
pub mod popup;
pub mod format;
pub mod output;
pub mod json;
pub mod schema;
pub mod refs;
pub mod numbers;
pub mod coerce;
pub mod choice;
pub mod keyvalue;
pub mod field;
pub mod form;
pub mod components;
pub mod composite;
pub mod rich;
pub mod svg;
pub mod model;
pub mod keymap_spec;
pub mod draft;
pub mod toml_prep;
pub mod infer;
pub mod entries;
pub mod session;
pub mod display;
pub mod render;
pub mod schema_ui;
