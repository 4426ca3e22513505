//! Metadata resolution and indexing for a font-family corpus.
//!
//! The library parses family, language and tag descriptors into plain
//! records, selects a representative variant per family, resolves the
//! language to use for sample rendering, and indexes variant filenames
//! back to their owning families.  All file reading stays with the
//! caller: the library works on path strings and file contents.
use vstd::prelude::*;

pub mod descriptor;
pub mod exemplar;
pub mod family;
pub mod filter;
pub mod handle;
pub mod index;
pub mod language;
pub mod num;
pub mod paths;
pub mod resolve;
pub mod store;
pub mod tag;
pub mod text;
