//! The builtin types of the type table, one module each.

pub mod bool_builtin;
pub mod float;
pub mod int_type;
pub mod none_type;
pub mod range;
pub mod str;
pub mod str_builtin;
