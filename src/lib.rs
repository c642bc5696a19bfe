//! Extraction of derive-style annotations from parsed sources, their grouping by
//! attribute, and the assembly of the generated header and source files.
use vstd::prelude::*;

pub mod attributes;
pub mod builder;
pub mod grouping;
pub mod laws;
pub mod model;
pub mod output;
pub mod query;
pub mod text;
