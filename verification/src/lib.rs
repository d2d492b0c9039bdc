//! Grammar-driven inspection of binary structures.
//!
//! A grammar lists the fields of a structure: name, size in bytes, data type,
//! display format and description. The library multiplies repeated fields,
//! resolves the sizes of variable-size fields, cuts a byte source into the raw
//! bytes of each field and renders those bytes for display.

pub mod errors;
pub mod text;
pub mod name_map;
pub mod source;
pub mod hex_text;
pub mod gram_parse;
pub mod sizes;
pub mod multiply;
pub mod variable;
pub mod extract;
pub mod tables;
pub mod table_display;
pub mod hex_display;
pub mod arg_parse;
pub mod file_parse;
pub mod struct_convert;
pub mod format;
