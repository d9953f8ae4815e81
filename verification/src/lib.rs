//! Compiles a directory-based routing convention into one server entry
//! module.
//!
//! In a source tree that follows the convention, the nesting of directories
//! below the routing root is the nesting of URLs, and files with well-known
//! names hold route handlers, middleware for a subtree, the settings of the
//! application and its tail middleware. From such a tree the library
//! generates the text of one module that wires every handler into an
//! application of the routing framework.
//!
//! The library neither reads nor writes files. A caller walks the source
//! tree and hands over what it found:
//!
//! 1. [`walk::get_app_struct`] builds the application structure, with the
//!    route tree, from the entries of the walk;
//! 2. [`assemble::route_file_paths`] tells which route modules have to be
//!    read;
//! 3. [`assemble::compile`] sorts the tree, scans every route module for the
//!    handlers it exports, compiles the tree and fills the template.
//!
//! Every function states what it computes over plain values: texts are
//! sequences of characters, and each data type has a view. The module
//! [`laws`] holds what is proved of the compiler as a whole.

pub mod assemble;
pub mod compile;
pub mod convention;
pub mod emit;
pub mod error;
pub mod laws;
pub mod naming;
pub mod scan;
pub mod text;
pub mod tree;
pub mod walk;
