//! A compact binary layout for the types of a schema, with the checks that
//! read it from bytes that nobody vouches for and the builders that write
//! it.
//!
//! A schema is made of seven categories of types over the one primitive, the
//! byte: arrays and structs, whose size the schema fixes; fixed vectors,
//! dynamic vectors and tables, which start with a header; options and
//! unions. `schema` describes them, `number` is the integer of every
//! header, and each category has a module with its validation, its reader
//! and its builder. `verify` validates and `reader` reads a value of any
//! type, and `laws` states what holds of all of them.

pub mod array;
pub mod defaults;
pub mod dynvec;
pub mod error;
pub mod fixvec;
pub mod laws;
pub mod naming;
pub mod number;
pub mod offsets;
pub mod option;
pub mod pieces;
pub mod reader;
pub mod schema;
pub mod structure;
pub mod table;
pub mod union;
pub mod verify;
