//! The catalog: four independent namespaces of records, built once and only
//! read afterwards.

use vstd::prelude::*;
use crate::records::{BaseType, EnumType, EnumView, StructType, StructView, Symbol};
use crate::table::{records_distinct, Table};

verus! {

/// The type and symbol metadata of one inspected system. A name may be
/// registered in more than one namespace; within a namespace it is unique.
pub struct Catalog {
    pub base_types: Table<BaseType>,
    pub enums: Table<EnumType>,
    pub user_types: Table<StructType>,
    pub symbols: Table<Symbol>,
}

impl Catalog {
    /// A catalog with nothing registered.
    pub fn new() -> (catalog: Catalog)
        ensures
            catalog.base_types@ == Seq::<(Seq<char>, BaseType)>::empty(),
            catalog.enums@ == Seq::<(Seq<char>, EnumView)>::empty(),
            catalog.user_types@ == Seq::<(Seq<char>, StructView)>::empty(),
            catalog.symbols@ == Seq::<(Seq<char>, Symbol)>::empty(),
    {
        Catalog {
            base_types: Table::new(),
            enums: Table::new(),
            user_types: Table::new(),
            symbols: Table::new(),
        }
    }

    /// Whether every reverse lookup is unambiguous: in no namespace do two
    /// entries hold equal records. Where this fails the profile is defective,
    /// and reverse lookup answers with the name that was registered first.
    pub fn is_unambiguous(&self) -> (unambiguous: bool)
        ensures
            unambiguous == (records_distinct(self.base_types@) && records_distinct(self.enums@)
                && records_distinct(self.user_types@) && records_distinct(self.symbols@)),
    {
        self.base_types.is_unambiguous() && self.enums.is_unambiguous()
            && self.user_types.is_unambiguous() && self.symbols.is_unambiguous()
    }
}

} // verus!
