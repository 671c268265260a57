//! The operations offered to a caller outside the process's safety boundary.
//!
//! Names come in as raw bytes and are decoded before any lookup. Records are
//! lent out by reference and live as long as the catalog. Computed names go
//! out as [`OwnedText`], which the caller gives back exactly once. An
//! operation that may legitimately find nothing reports absence as `None`; an
//! operation that has no way to report absence demands that the name resolves.

use vstd::prelude::*;
use crate::catalog::Catalog;
use crate::members::names_ascending;
use crate::records::{
    field_offset, field_type, BaseType, EnumType, Field, FieldView, StructType, Symbol,
};
use crate::table::{lookup, name_of, nth_name, Record, Table};
use crate::text::{decode_name, terminated_bytes_of, text_of, OwnedText};

verus! {

/// Why a name could not be resolved.
#[derive(Clone, Copy, Debug, PartialEq, Eq, Structural)]
pub enum LookupFailure {
    /// The bytes supplied are not well-formed text.
    MalformedName,
    /// The text is well-formed, but nothing is registered under it.
    UnknownName,
}

/// The record registered under the text that `name` stands for. Malformed
/// text finds nothing.
pub open spec fn lookup_bytes<V>(entries: Seq<(Seq<char>, V)>, name: Seq<u8>) -> Option<V> {
    match text_of(name) {
        Some(text) => lookup(entries, text),
        None => None,
    }
}

/// The record registered under the text that `name` stands for, or the
/// reason why there is none.
pub open spec fn resolution<V>(entries: Seq<(Seq<char>, V)>, name: Seq<u8>) -> Result<
    V,
    LookupFailure,
> {
    match text_of(name) {
        Some(text) => match lookup(entries, text) {
            Some(record) => Ok(record),
            None => Err(LookupFailure::UnknownName),
        },
        None => Err(LookupFailure::MalformedName),
    }
}

/// The owned, terminated bytes of `text`, where there is text and it can be
/// carried.
pub open spec fn owned_bytes(text: Option<Seq<char>>) -> Option<Seq<u8>> {
    match text {
        Some(t) => terminated_bytes_of(t),
        None => None,
    }
}

/// The static address of a symbol moved by the slide of the running system.
/// Addresses are as wide as the machine's registers, and the sum wraps round
/// as the machine's does.
pub open spec fn runtime_address(symbol: Symbol, slide: u64) -> int {
    (symbol.address + slide) % 0x1_0000_0000_0000_0000
}

/// Looks a name up in one namespace. Absence and malformed text both give
/// `None`.
pub fn find<'a, T: Record>(table: &'a Table<T>, name: &[u8]) -> (found: Option<&'a T>)
    ensures
        match found {
            Some(record) => lookup_bytes(table@, name@) == Some(record@),
            None => lookup_bytes(table@, name@) is None,
        },
{
    match decode_name(name) {
        Some(text) => table.get(text),
        None => None,
    }
}

/// Looks a name up in one namespace and says why, if nothing is found.
pub fn resolve<'a, T: Record>(table: &'a Table<T>, name: &[u8]) -> (found: Result<
    &'a T,
    LookupFailure,
>)
    ensures
        match found {
            Ok(record) => resolution(table@, name@) == Ok::<T::V, LookupFailure>(record@),
            Err(failure) => resolution(table@, name@) == Err::<T::V, LookupFailure>(failure),
        },
{
    match decode_name(name) {
        Some(text) => match table.get(text) {
            Some(record) => Ok(record),
            None => Err(LookupFailure::UnknownName),
        },
        None => Err(LookupFailure::MalformedName),
    }
}

/// The name under which a record equal to `record` is first registered, as
/// text owned by the caller.
pub fn owned_name_of<T: Record>(table: &Table<T>, record: &T) -> (name: Option<OwnedText>)
    ensures
        match name {
            Some(text) => owned_bytes(name_of(table@, record@)) == Some(text@),
            None => owned_bytes(name_of(table@, record@)) is None,
        },
{
    match table.name_of(record) {
        Some(text) => OwnedText::encode(text),
        None => None,
    }
}

/// The enumeration registered under `name`.
pub fn enum_from_name<'a>(catalog: &'a Catalog, name: &[u8]) -> (found: Option<&'a EnumType>)
    ensures
        match found {
            Some(record) => lookup_bytes(catalog.enums@, name@) == Some(record@),
            None => lookup_bytes(catalog.enums@, name@) is None,
        },
{
    find(&catalog.enums, name)
}

/// The primitive type registered under `name`.
pub fn base_type_from_name<'a>(catalog: &'a Catalog, name: &[u8]) -> (found: Option<&'a BaseType>)
    ensures
        match found {
            Some(record) => lookup_bytes(catalog.base_types@, name@) == Some(*record),
            None => lookup_bytes(catalog.base_types@, name@) is None,
        },
{
    find(&catalog.base_types, name)
}

/// The symbol registered under `name`.
pub fn symbol_from_name<'a>(catalog: &'a Catalog, name: &[u8]) -> (found: Option<&'a Symbol>)
    ensures
        match found {
            Some(record) => lookup_bytes(catalog.symbols@, name@) == Some(*record),
            None => lookup_bytes(catalog.symbols@, name@) is None,
        },
{
    find(&catalog.symbols, name)
}

/// The structured type registered under `name`.
pub fn type_from_name<'a>(catalog: &'a Catalog, name: &[u8]) -> (found: Option<&'a StructType>)
    ensures
        match found {
            Some(record) => lookup_bytes(catalog.user_types@, name@) == Some(record@),
            None => lookup_bytes(catalog.user_types@, name@) is None,
        },
{
    find(&catalog.user_types, name)
}

/// The address of a symbol in the running system: its static address plus
/// the slide, wrapped to the width of an address. It is defined for every
/// symbol and every slide.
pub fn addr_of_symbol(symbol: &Symbol, slide: u64) -> (address: u64)
    ensures
        address == runtime_address(*symbol, slide),
        value_of_symbol(symbol) + slide <= u64::MAX ==> address == value_of_symbol(symbol) + slide,
{
    symbol.address.wrapping_add(slide)
}

/// The static address of a symbol, with no slide applied.
#[verifier::when_used_as_spec(static_address)]
pub fn value_of_symbol(symbol: &Symbol) -> (address: u64)
    ensures
        address == symbol.address,
{
    symbol.address
}

/// The static address of a symbol.
pub open spec fn static_address(symbol: &Symbol) -> u64 {
    symbol.address
}

/// The name under which `symbol` is registered.
pub fn name_of_symbol(catalog: &Catalog, symbol: &Symbol) -> (name: Option<OwnedText>)
    ensures
        match name {
            Some(text) => owned_bytes(name_of(catalog.symbols@, *symbol)) == Some(text@),
            None => owned_bytes(name_of(catalog.symbols@, *symbol)) is None,
        },
{
    owned_name_of(&catalog.symbols, symbol)
}

/// The name under which the structured type `ty` is registered.
pub fn name_of_struct(catalog: &Catalog, ty: &StructType) -> (name: Option<OwnedText>)
    ensures
        match name {
            Some(text) => owned_bytes(name_of(catalog.user_types@, ty@)) == Some(text@),
            None => owned_bytes(name_of(catalog.user_types@, ty@)) is None,
        },
{
    owned_name_of(&catalog.user_types, ty)
}

/// The name of the field at position `index` of `ty`, counted in the order
/// of the field names: ascending, byte by byte. Positions past the end give
/// `None`.
pub fn get_field_by_index(ty: &StructType, index: usize) -> (name: Option<OwnedText>)
    ensures
        names_ascending(ty@.fields),
        match name {
            Some(text) => owned_bytes(nth_name(ty@.fields, index as int)) == Some(text@),
            None => owned_bytes(nth_name(ty@.fields, index as int)) is None,
        },
{
    match ty.fields.nth(index) {
        Some(entry) => OwnedText::encode(entry.0),
        None => None,
    }
}

/// The name under which the enumeration `ty` is registered.
pub fn name_of_enum(catalog: &Catalog, ty: &EnumType) -> (name: Option<OwnedText>)
    ensures
        match name {
            Some(text) => owned_bytes(name_of(catalog.enums@, ty@)) == Some(text@),
            None => owned_bytes(name_of(catalog.enums@, ty@)) is None,
        },
{
    owned_name_of(&catalog.enums, ty)
}

/// The name under which the primitive type `ty` is registered.
pub fn name_of_base_type(catalog: &Catalog, ty: &BaseType) -> (name: Option<OwnedText>)
    ensures
        match name {
            Some(text) => owned_bytes(name_of(catalog.base_types@, *ty)) == Some(text@),
            None => owned_bytes(name_of(catalog.base_types@, *ty)) is None,
        },
{
    owned_name_of(&catalog.base_types, ty)
}

/// The size of a primitive type in bytes.
pub fn size_of_base_type(ty: &BaseType) -> (size: u64)
    ensures
        size == ty.size,
{
    ty.size
}

/// Whether a primitive type is signed.
pub fn is_base_type_signed(ty: &BaseType) -> (signed: bool)
    ensures
        signed == ty.signed,
{
    ty.signed
}

/// The static address of the symbol called `name`. The name must resolve:
/// there is no address to fall back on.
pub fn symbol_value_from_name(catalog: &Catalog, name: &[u8]) -> (address: u64)
    requires
        resolution(catalog.symbols@, name@) is Ok,
    ensures
        resolution(catalog.symbols@, name@) == Ok::<Symbol, LookupFailure>(Symbol { address }),
{
    let found = resolve(&catalog.symbols, name);
    found.unwrap().address
}

/// The address in the running system of the symbol called `name`: its static
/// address plus the slide, wrapped to the width of an address. The name must
/// resolve.
pub fn symbol_addr_from_name(catalog: &Catalog, name: &[u8], slide: u64) -> (address: u64)
    requires
        resolution(catalog.symbols@, name@) is Ok,
    ensures
        resolution(catalog.symbols@, name@) matches Ok(symbol) && address == runtime_address(
            symbol,
            slide,
        ),
{
    symbol_value_from_name(catalog, name).wrapping_add(slide)
}

/// Looks a field up by name and says why, if nothing is found.
pub fn resolve_field<'a>(vol_struct: &'a StructType, name: &[u8]) -> (found: Result<
    &'a Field,
    LookupFailure,
>)
    ensures
        match found {
            Ok(field) => resolution(vol_struct@.fields, name@) == Ok::<FieldView, LookupFailure>(
                field@,
            ),
            Err(failure) => resolution(vol_struct@.fields, name@) == Err::<
                FieldView,
                LookupFailure,
            >(failure),
        },
{
    match decode_name(name) {
        Some(text) => match vol_struct.fields.get(text) {
            Some(field) => Ok(field),
            None => Err(LookupFailure::UnknownName),
        },
        None => Err(LookupFailure::MalformedName),
    }
}

/// The byte offset of the field called `name`. The structure must have such
/// a field.
pub fn offset_of_field(vol_struct: &StructType, name: &[u8]) -> (offset: i64)
    requires
        resolution(vol_struct@.fields, name@) is Ok,
    ensures
        text_of(name@) matches Some(field) && field_offset(vol_struct@.fields, field) == Some(
            offset,
        ),
{
    let found = resolve_field(vol_struct, name);
    found.unwrap().offset
}

/// The name of the declared type of the field called `name`, or `None` where
/// the field's type is not registered. The structure must have such a field.
pub fn type_of_field(vol_struct: &StructType, name: &[u8]) -> (declared: Option<OwnedText>)
    requires
        resolution(vol_struct@.fields, name@) is Ok,
    ensures
        text_of(name@) matches Some(field) && field_type(vol_struct@.fields, field) matches Some(
            declared_type,
        ) && match declared {
            Some(text) => owned_bytes(declared_type) == Some(text@),
            None => owned_bytes(declared_type) is None,
        },
{
    let found = resolve_field(vol_struct, name);
    match &found.unwrap().declared_type {
        Some(text) => OwnedText::encode(text.as_str()),
        None => None,
    }
}

/// The size of a structured type in bytes.
pub fn size_of_struct(vol_struct: &StructType) -> (size: u64)
    ensures
        size == vol_struct.size,
{
    vol_struct.size
}

/// Takes back text that was handed to the caller. Giving back `None` does
/// nothing.
pub fn free_osi2_str(string: Option<OwnedText>) {
    let _ = string;
}

} // verus!
