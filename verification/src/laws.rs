//! What holds of the catalog and of the boundary as a whole.

use vstd::prelude::*;
use vstd::utf8::*;
use crate::boundary::{
    lookup_bytes, owned_bytes, resolution, runtime_address, static_address, LookupFailure,
};
use crate::members::{lemma_ascending_distinct, names_ascending};
use crate::records::{field_offset, field_type, FieldView, Symbol};
use crate::table::{
    has_name, is_first_holding, is_first_named, lemma_first_holding_exists,
    lemma_first_named_exists, lemma_has_name_iff_position, lemma_name_absent,
    lemma_position_of_name, lemma_position_of_record, lookup, name_of, names_distinct, nth_entry,
    nth_name, position_of_name, records_distinct,
};
use crate::text::{
    is_terminated, lemma_name_order, lemma_text_of_encoded, name_below, terminated_bytes_of,
    text_of,
};

verus! {

/// A registered name resolves to a record; the name that reverse lookup
/// gives for that record resolves again, and to an equal record.
pub proof fn law_lookup_round_trip<V>(entries: Seq<(Seq<char>, V)>, name: Seq<char>)
    requires
        names_distinct(entries),
        has_name(entries, name),
    ensures
        lookup(entries, name) matches Some(record) && name_of(entries, record) matches Some(back)
            && lookup(entries, back) == Some(record),
{
    lemma_has_name_iff_position(entries, name);
    let i = position_of_name(entries, name).unwrap();
    assert(is_first_named(entries, name, i));
    let record = entries[i].1;
    lemma_first_holding_exists(entries, record, i);
    let k = choose|k: int| 0 <= k <= i && is_first_holding(entries, record, k);
    lemma_position_of_record(entries, record, k);
    let back = entries[k].0;
    lemma_first_named_exists(entries, back, k);
    let j = choose|j: int| 0 <= j <= k && is_first_named(entries, back, j);
    if j < k {
        assert(entries[j].0 != entries[k].0);
    }
    lemma_position_of_name(entries, back, j);
}

/// Where no two entries hold equal records, reverse lookup gives back the
/// very name that was looked up.
pub proof fn law_round_trip_is_exact<V>(entries: Seq<(Seq<char>, V)>, name: Seq<char>)
    requires
        names_distinct(entries),
        records_distinct(entries),
        has_name(entries, name),
    ensures
        lookup(entries, name) matches Some(record) && name_of(entries, record) == Some(name),
{
    lemma_has_name_iff_position(entries, name);
    let i = position_of_name(entries, name).unwrap();
    assert(is_first_named(entries, name, i));
    let record = entries[i].1;
    lemma_first_holding_exists(entries, record, i);
    let k = choose|k: int| 0 <= k <= i && is_first_holding(entries, record, k);
    lemma_position_of_record(entries, record, k);
    if k < i {
        assert(entries[k].1 != entries[i].1);
    }
}

/// The round trip as the caller sees it: the bytes handed out for a record
/// that was found by name, without their terminator, find an equal record.
pub proof fn law_boundary_round_trip<V>(entries: Seq<(Seq<char>, V)>, name: Seq<u8>)
    requires
        names_distinct(entries),
        lookup_bytes(entries, name) is Some,
        owned_bytes(name_of(entries, lookup_bytes(entries, name).unwrap())) is Some,
    ensures
        lookup_bytes(
            entries,
            owned_bytes(name_of(entries, lookup_bytes(entries, name).unwrap())).unwrap().drop_last(),
        ) == lookup_bytes(entries, name),
{
    let text = text_of(name).unwrap();
    lemma_has_name_iff_position(entries, text);
    law_lookup_round_trip(entries, text);
    let record = lookup(entries, text).unwrap();
    let back = name_of(entries, record).unwrap();
    law_owned_text_round_trip(back);
}

/// Text that can be carried comes back unchanged: its owned bytes are
/// terminated, and without the terminator they decode to the text.
pub proof fn law_owned_text_round_trip(text: Seq<char>)
    requires
        terminated_bytes_of(text) is Some,
    ensures
        is_terminated(terminated_bytes_of(text).unwrap()),
        text_of(terminated_bytes_of(text).unwrap().drop_last()) == Some(text),
{
    let bytes = encode_utf8(text);
    assert(bytes.push(0u8).drop_last() =~= bytes);
    lemma_text_of_encoded(text);
    assert forall|i: int| 0 <= i < bytes.len() implies bytes.push(0u8)[i] != 0u8 by {
        assert(bytes.contains(bytes[i]));
    }
}

/// A lookup finds a record exactly when the name is well-formed text that is
/// registered. Every other name is absent, and resolving it fails in one of
/// two ways: malformed text as such, well-formed text as unknown.
pub proof fn law_unregistered_is_absent<V>(entries: Seq<(Seq<char>, V)>, name: Seq<u8>)
    ensures
        lookup_bytes(entries, name) is Some <==> (text_of(name) matches Some(text) && has_name(
            entries,
            text,
        )),
        resolution(entries, name) == match lookup_bytes(entries, name) {
            Some(record) => Ok::<V, LookupFailure>(record),
            None => if text_of(name) is None {
                Err(LookupFailure::MalformedName)
            } else {
                Err(LookupFailure::UnknownName)
            },
        },
{
    if let Some(text) = text_of(name) {
        lemma_has_name_iff_position(entries, text);
    }
}

/// The address of a symbol in the running system is its static address plus
/// the slide, wherever that sum is an address at all.
pub proof fn law_runtime_address(symbol: Symbol, slide: u64)
    requires
        static_address(&symbol) + slide <= u64::MAX,
    ensures
        runtime_address(symbol, slide) == static_address(&symbol) + slide,
{
}

/// The address of a symbol in the running system is always an address, and
/// differs from the sum of static address and slide by nothing or by one
/// full turn of the address space.
pub proof fn law_runtime_address_wraps(symbol: Symbol, slide: u64)
    ensures
        0 <= runtime_address(symbol, slide) <= u64::MAX,
        runtime_address(symbol, slide) == static_address(&symbol) + slide || runtime_address(
            symbol,
            slide,
        ) == static_address(&symbol) + slide - 0x1_0000_0000_0000_0000,
{
}

/// The offset and the declared type of a field do not depend on the other
/// fields of the structure: a field of another name, added at any place,
/// changes neither.
pub proof fn law_field_independent_of_other_fields(
    fields: Seq<(Seq<char>, FieldView)>,
    field: Seq<char>,
    other: Seq<char>,
    added: FieldView,
    k: int,
)
    requires
        other != field,
        0 <= k <= fields.len(),
    ensures
        field_offset(fields.insert(k, (other, added)), field) == field_offset(fields, field),
        field_type(fields.insert(k, (other, added)), field) == field_type(fields, field),
{
    let longer = fields.insert(k, (other, added));
    lemma_has_name_iff_position(fields, field);
    if has_name(fields, field) {
        let i = position_of_name(fields, field).unwrap();
        assert(is_first_named(fields, field, i));
        let moved = if i < k {
            i
        } else {
            i + 1
        };
        assert(longer[moved] == fields[i]);
        assert forall|j: int| 0 <= j < moved implies (#[trigger] longer[j]).0 != field by {
            if j < k {
                assert(longer[j] == fields[j]);
            } else if j > k {
                assert(longer[j] == fields[j - 1]);
            }
        }
        lemma_position_of_name(longer, field, moved);
    } else {
        assert forall|j: int| 0 <= j < longer.len() implies (#[trigger] longer[j]).0 != field by {
            if j < k {
                assert(longer[j] == fields[j]);
            } else if j > k {
                assert(longer[j] == fields[j - 1]);
            }
        }
        lemma_name_absent(longer, field);
    }
}

/// Members are a mapping: two lists of members whose names ascend and that
/// give the same member for every name are the same list, whatever the order
/// in which their members were added.
pub proof fn law_members_are_a_mapping<V>(a: Seq<(Seq<char>, V)>, b: Seq<(Seq<char>, V)>)
    requires
        names_ascending(a),
        names_ascending(b),
        forall|name: Seq<char>| #[trigger] lookup(a, name) == lookup(b, name),
    ensures
        a == b,
{
    lemma_same_mapping_from(a, b, 0);
}

proof fn lemma_member_found<V>(a: Seq<(Seq<char>, V)>, i: int)
    requires
        names_ascending(a),
        0 <= i < a.len(),
    ensures
        lookup(a, a[i].0) == Some(a[i].1),
{
    lemma_ascending_distinct(a);
    assert forall|j: int| 0 <= j < i implies (#[trigger] a[j]).0 != a[i].0 by {}
    lemma_position_of_name(a, a[i].0, i);
}

proof fn lemma_member_place<V>(a: Seq<(Seq<char>, V)>, name: Seq<char>) -> (i: int)
    requires
        lookup(a, name) is Some,
    ensures
        0 <= i < a.len(),
        a[i].0 == name,
{
    let i = position_of_name(a, name).unwrap();
    assert(is_first_named(a, name, i));
    i
}

proof fn lemma_same_mapping_from<V>(a: Seq<(Seq<char>, V)>, b: Seq<(Seq<char>, V)>, k: int)
    requires
        names_ascending(a),
        names_ascending(b),
        forall|name: Seq<char>| #[trigger] lookup(a, name) == lookup(b, name),
        0 <= k <= a.len(),
        k <= b.len(),
        forall|i: int| 0 <= i < k ==> a[i] == b[i],
    ensures
        a == b,
    decreases a.len() - k,
{
    lemma_ascending_distinct(a);
    lemma_ascending_distinct(b);
    if k == a.len() {
        if k < b.len() {
            lemma_member_found(b, k);
            assert(lookup(a, b[k].0) == lookup(b, b[k].0));
            let i = lemma_member_place(a, b[k].0);
            assert(a[i] == b[i]);
            assert(b[i].0 != b[k].0);
        }
        assert(a =~= b);
    } else {
        lemma_member_found(a, k);
        assert(lookup(a, a[k].0) == lookup(b, a[k].0));
        let j = lemma_member_place(b, a[k].0);
        if j < k {
            assert(a[j] == b[j]);
            assert(a[j].0 != a[k].0);
        }
        if j > k {
            lemma_member_found(b, k);
            assert(lookup(a, b[k].0) == lookup(b, b[k].0));
            let i = lemma_member_place(a, b[k].0);
            if i < k {
                assert(a[i] == b[i]);
                assert(b[i].0 != b[k].0);
            }
            assert(name_below(b[k].0, b[j].0));
            if i > k {
                assert(name_below(a[k].0, a[i].0));
            }
            lemma_name_order(a[k].0, b[k].0, a[k].0);
        }
        lemma_member_found(b, k);
        assert(a[k] == b[k]);
        lemma_same_mapping_from(a, b, k + 1);
    }
}

/// Positions from zero up to the number of entries each give an entry, every
/// other position gives none, and the positions reach every registered name
/// exactly once.
pub proof fn law_positions_cover_entries<V>(entries: Seq<(Seq<char>, V)>)
    requires
        names_distinct(entries),
    ensures
        forall|i: int| #[trigger] nth_entry(entries, i) is Some <==> 0 <= i < entries.len(),
        forall|name: Seq<char>| #[trigger]
            has_name(entries, name) ==> exists|i: int|
                0 <= i < entries.len() && #[trigger] nth_entry(entries, i) == Some(
                    (name, lookup(entries, name).unwrap()),
                ),
        forall|i: int, j: int|
            0 <= i < entries.len() && 0 <= j < entries.len() && i != j ==> #[trigger] nth_name(
                entries,
                i,
            ) != #[trigger] nth_name(entries, j),
{
    assert forall|name: Seq<char>| #[trigger] has_name(entries, name) implies exists|i: int|
        0 <= i < entries.len() && #[trigger] nth_entry(entries, i) == Some(
            (name, lookup(entries, name).unwrap()),
        ) by {
        lemma_has_name_iff_position(entries, name);
        let i = position_of_name(entries, name).unwrap();
        assert(is_first_named(entries, name, i));
        assert(nth_entry(entries, i) == Some((name, lookup(entries, name).unwrap())));
    }
    assert forall|i: int, j: int|
        0 <= i < entries.len() && 0 <= j < entries.len() && i != j implies #[trigger] nth_name(
        entries,
        i,
    ) != #[trigger] nth_name(entries, j) by {
        if i < j {
            assert(entries[i].0 != entries[j].0);
        } else {
            assert(entries[j].0 != entries[i].0);
        }
    }
}

/// Positions count the members of a record in the order of their names:
/// a lower position holds a lower name, so no name is reached twice.
pub proof fn law_positions_follow_names<V>(entries: Seq<(Seq<char>, V)>)
    requires
        names_ascending(entries),
    ensures
        names_distinct(entries),
        forall|i: int, j: int|
            0 <= i < j < entries.len() ==> name_below(
                (#[trigger] nth_entry(entries, i)).unwrap().0,
                (#[trigger] nth_entry(entries, j)).unwrap().0,
            ),
{
    lemma_ascending_distinct(entries);
}

} // verus!
