//! Name-indexed catalog of operating-system symbols and type layouts, with the
//! lookups, field resolution and address arithmetic that an introspection tool
//! needs, and the byte-level encoding of everything that crosses to a caller
//! outside the process's safety boundary.

pub mod boundary;
pub mod catalog;
pub mod laws;
pub mod members;
pub mod records;
pub mod table;
pub mod text;

pub use boundary::{
    addr_of_symbol, base_type_from_name, enum_from_name, find, free_osi2_str, get_field_by_index,
    is_base_type_signed, name_of_base_type, name_of_enum, name_of_struct, name_of_symbol,
    offset_of_field, owned_name_of, resolve, resolve_field, size_of_base_type, size_of_struct,
    symbol_addr_from_name, symbol_from_name, symbol_value_from_name, type_from_name,
    type_of_field, value_of_symbol, LookupFailure,
};
pub use catalog::Catalog;
pub use members::Members;
pub use records::{BaseType, EnumType, Field, StructType, Symbol};
pub use table::{Record, Table};
pub use text::{bytes_eq, decode_name, order_of, text_eq, NameOrder, OwnedText};
