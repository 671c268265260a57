//! The records of the catalog: primitive types, enumerations, structured
//! types with their fields, and symbols.

use vstd::prelude::*;
use crate::members::Members;
use crate::table::{lookup, Record};
use crate::text::text_eq;

verus! {

/// A primitive type: its size in bytes and whether it is signed.
#[derive(Clone, Copy, Debug, PartialEq, Eq, Structural)]
pub struct BaseType {
    pub size: u64,
    pub signed: bool,
}

impl View for BaseType {
    type V = BaseType;

    open spec fn view(&self) -> BaseType {
        *self
    }
}

impl Record for BaseType {
    fn same(&self, other: &Self) -> (equal: bool) {
        self.size == other.size && self.signed == other.signed
    }
}

/// A symbol: its static address, before any slide is applied.
#[derive(Clone, Copy, Debug, PartialEq, Eq, Structural)]
pub struct Symbol {
    pub address: u64,
}

impl View for Symbol {
    type V = Symbol;

    open spec fn view(&self) -> Symbol {
        *self
    }
}

impl Record for Symbol {
    fn same(&self, other: &Self) -> (equal: bool) {
        self.address == other.address
    }
}

impl Record for i64 {
    fn same(&self, other: &Self) -> (equal: bool) {
        *self == *other
    }
}

/// What an optional name stands for.
pub open spec fn optional_text(name: Option<String>) -> Option<Seq<char>> {
    match name {
        Some(text) => Some(text@),
        None => None,
    }
}

/// A field of a structured type: its byte offset from the base of the
/// structure, which may be negative, and the name of its declared type where
/// that type is itself registered.
#[derive(Debug)]
pub struct Field {
    pub offset: i64,
    pub declared_type: Option<String>,
}

/// The value of a [`Field`].
pub struct FieldView {
    pub offset: i64,
    pub declared_type: Option<Seq<char>>,
}

impl View for Field {
    type V = FieldView;

    open spec fn view(&self) -> FieldView {
        FieldView { offset: self.offset, declared_type: optional_text(self.declared_type) }
    }
}

impl Record for Field {
    fn same(&self, other: &Self) -> (equal: bool) {
        if self.offset != other.offset {
            return false;
        }
        match (&self.declared_type, &other.declared_type) {
            (Some(a), Some(b)) => text_eq(a.as_str(), b.as_str()),
            (None, None) => true,
            _ => false,
        }
    }
}

/// A structured type: its size in bytes and its fields, a mapping from field
/// name to field that is kept ascending by name.
#[derive(Debug)]
pub struct StructType {
    pub size: u64,
    pub fields: Members<Field>,
}

/// The value of a [`StructType`].
pub struct StructView {
    pub size: u64,
    pub fields: Seq<(Seq<char>, FieldView)>,
}

impl View for StructType {
    type V = StructView;

    open spec fn view(&self) -> StructView {
        StructView { size: self.size, fields: self.fields@ }
    }
}

impl Record for StructType {
    fn same(&self, other: &Self) -> (equal: bool) {
        self.size == other.size && self.fields.same(&other.fields)
    }
}

/// The byte offset of the field called `field`, if the structure has one.
pub open spec fn field_offset(fields: Seq<(Seq<char>, FieldView)>, field: Seq<char>) -> Option<i64> {
    match lookup(fields, field) {
        Some(f) => Some(f.offset),
        None => None,
    }
}

/// The declared type of the field called `field`: nothing if the structure
/// has no such field, and no type name if the field's type is not registered.
pub open spec fn field_type(fields: Seq<(Seq<char>, FieldView)>, field: Seq<char>) -> Option<
    Option<Seq<char>>,
> {
    match lookup(fields, field) {
        Some(f) => Some(f.declared_type),
        None => None,
    }
}

impl StructType {
    /// A structured type of `size` bytes that has no fields yet.
    pub fn new(size: u64) -> (ty: StructType)
        ensures
            ty@.size == size,
            ty@.fields == Seq::<(Seq<char>, FieldView)>::empty(),
    {
        StructType { size, fields: Members::new() }
    }

    /// The byte offset of the field called `field`.
    pub fn offset_of(&self, field: &str) -> (offset: Option<i64>)
        ensures
            offset == field_offset(self@.fields, field@),
    {
        match self.fields.get(field) {
            Some(f) => Some(f.offset),
            None => None,
        }
    }

    /// The name of the declared type of the field called `field`.
    pub fn type_of(&self, field: &str) -> (declared_type: Option<Option<&str>>)
        ensures
            match declared_type {
                Some(Some(name)) => field_type(self@.fields, field@) == Some(Some(name@)),
                Some(None) => field_type(self@.fields, field@) == Some(None::<Seq<char>>),
                None => field_type(self@.fields, field@) is None,
            },
    {
        match self.fields.get(field) {
            Some(f) => match &f.declared_type {
                Some(name) => Some(Some(name.as_str())),
                None => Some(None),
            },
            None => None,
        }
    }
}

/// An enumeration: the size in bytes of its values, the name of the primitive
/// type that carries them, and its named constants.
#[derive(Debug)]
pub struct EnumType {
    pub size: u64,
    pub base: String,
    pub constants: Members<i64>,
}

/// The value of an [`EnumType`].
pub struct EnumView {
    pub size: u64,
    pub base: Seq<char>,
    pub constants: Seq<(Seq<char>, i64)>,
}

impl View for EnumType {
    type V = EnumView;

    open spec fn view(&self) -> EnumView {
        EnumView { size: self.size, base: self.base@, constants: self.constants@ }
    }
}

impl Record for EnumType {
    fn same(&self, other: &Self) -> (equal: bool) {
        self.size == other.size && text_eq(self.base.as_str(), other.base.as_str())
            && self.constants.same(&other.constants)
    }
}

} // verus!
