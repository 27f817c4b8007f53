//! A terminal code browser's core: the file tree, the code viewer, the diff
//! reader and the key handling, with their contracts.

pub mod app;
pub mod diff;
pub mod engine;
pub mod highlight;
pub mod layout;
pub mod order;
pub mod path;
pub mod style;
pub mod text;
pub mod tree;
pub mod viewer;
