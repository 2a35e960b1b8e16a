//! Finds the dependencies declared in a `pyproject.toml` that no Python
//! import of the project uses.

pub mod text;
pub mod names;
pub mod toml_doc;
pub mod pyproject;
pub mod name_map;
pub mod imports;
pub mod matching;
pub mod infra;
pub mod ignorefile;
pub mod venv;
pub mod app;
