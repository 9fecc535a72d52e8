//! A content schema engine and template-rendering pipeline: recursive
//! typed schemas parsed from generic key/value tables, typed content
//! objects, and rendering contexts assembled for a Liquid-family
//! template engine.
pub mod context;
pub mod fields;
pub mod object;
pub mod object_definition;
pub mod page;
pub mod reserved_fields;
pub mod text;
