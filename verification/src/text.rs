//! Text that crosses the boundary: names arrive as raw bytes and are decoded
//! before any lookup; computed names leave as owned, NUL-terminated bytes.

use vstd::prelude::*;
use vstd::utf8::*;

verus! {

/// The text that a caller-supplied byte string stands for, if it is well-formed.
pub open spec fn text_of(bytes: Seq<u8>) -> Option<Seq<char>> {
    if valid_utf8(bytes) {
        Some(decode_utf8(bytes))
    } else {
        None
    }
}

/// Whether `bytes` is a terminated byte string: it ends in its only zero byte.
pub open spec fn is_terminated(bytes: Seq<u8>) -> bool {
    &&& bytes.len() > 0
    &&& bytes[bytes.len() - 1] == 0u8
    &&& forall|i: int| 0 <= i < bytes.len() - 1 ==> bytes[i] != 0u8
}

/// The terminated byte string that carries `text`, where one exists: text that
/// itself holds a zero byte cannot be carried.
pub open spec fn terminated_bytes_of(text: Seq<char>) -> Option<Seq<u8>> {
    if encode_utf8(text).contains(0u8) {
        None
    } else {
        Some(encode_utf8(text).push(0u8))
    }
}

/// The bytes of a string stand for that string.
pub proof fn lemma_text_of_encoded(text: Seq<char>)
    ensures
        text_of(encode_utf8(text)) == Some(text),
{
    encode_utf8_valid_utf8(text);
    encode_utf8_decode_utf8(text);
}

/// `core::str::from_utf8`: the standard library accepts exactly the well-formed
/// UTF-8 byte strings, and the string slice it returns has the bytes it was given.
#[verifier::external_body]
fn utf8_checked(bytes: &[u8]) -> (text: Option<&str>)
    ensures
        text is Some <==> valid_utf8(bytes@),
        text matches Some(s) ==> encode_utf8(s@) == bytes@,
{
    match core::str::from_utf8(bytes) {
        Ok(s) => Some(s),
        Err(_) => None,
    }
}

/// Decodes a caller-supplied name. Malformed text decodes to nothing.
pub fn decode_name(bytes: &[u8]) -> (text: Option<&str>)
    ensures
        match text {
            Some(s) => text_of(bytes@) == Some(s@),
            None => text_of(bytes@) is None,
        },
{
    let text = utf8_checked(bytes);
    proof {
        if let Some(s) = text {
            encode_utf8_decode_utf8(s@);
        }
    }
    text
}

/// Byte-wise comparison of two slices.
pub fn bytes_eq(x: &[u8], y: &[u8]) -> (same: bool)
    ensures
        same == (x@ == y@),
{
    if x.len() != y.len() {
        return false;
    }
    let mut i: usize = 0;
    while i < x.len()
        invariant
            x.len() == y.len(),
            i <= x.len(),
            forall|j: int| 0 <= j < i ==> x@[j] == y@[j],
        decreases x.len() - i,
    {
        if x[i] != y[i] {
            return false;
        }
        i += 1;
    }
    assert(x@ =~= y@);
    true
}

/// Exact, case-sensitive comparison of two names.
pub fn text_eq(a: &str, b: &str) -> (same: bool)
    ensures
        same == (a@ == b@),
{
    let same = bytes_eq(a.as_bytes(), b.as_bytes());
    proof {
        encode_utf8_decode_utf8(a@);
        encode_utf8_decode_utf8(b@);
    }
    same
}

/// `a` comes before `b` in byte order, and `k` is where that shows: the two
/// agree up to `k`, and there `a` ends or holds the smaller byte.
pub open spec fn below_at(a: Seq<u8>, b: Seq<u8>, k: int) -> bool {
    &&& 0 <= k <= a.len()
    &&& k < b.len()
    &&& forall|i: int| 0 <= i < k ==> a[i] == b[i]
    &&& (k == a.len() || a[k] < b[k])
}

/// `a` comes strictly before `b` in lexicographic byte order.
pub open spec fn bytes_below(a: Seq<u8>, b: Seq<u8>) -> bool {
    exists|k: int| below_at(a, b, k)
}

/// The name `a` comes strictly before the name `b`: their UTF-8 forms are
/// compared byte by byte.
pub open spec fn name_below(a: Seq<char>, b: Seq<char>) -> bool {
    bytes_below(encode_utf8(a), encode_utf8(b))
}

/// Nothing comes before itself.
pub proof fn lemma_below_irreflexive(a: Seq<u8>)
    ensures
        !bytes_below(a, a),
{
}

/// The byte order is transitive.
pub proof fn lemma_below_transitive(a: Seq<u8>, b: Seq<u8>, c: Seq<u8>)
    requires
        bytes_below(a, b),
        bytes_below(b, c),
    ensures
        bytes_below(a, c),
{
    let k1 = choose|k: int| below_at(a, b, k);
    let k2 = choose|k: int| below_at(b, c, k);
    let k = if k1 <= k2 {
        k1
    } else {
        k2
    };
    assert(below_at(a, c, k));
}

/// Two byte strings that agree on their first `k` bytes are equal or one
/// comes before the other.
proof fn lemma_below_total_from(a: Seq<u8>, b: Seq<u8>, k: int)
    requires
        0 <= k <= a.len(),
        k <= b.len(),
        forall|i: int| 0 <= i < k ==> a[i] == b[i],
    ensures
        a == b || bytes_below(a, b) || bytes_below(b, a),
    decreases a.len() - k,
{
    if k == a.len() && k == b.len() {
        assert(a =~= b);
    } else if k == a.len() {
        assert(below_at(a, b, k));
    } else if k == b.len() {
        assert(below_at(b, a, k));
    } else if a[k] < b[k] {
        assert(below_at(a, b, k));
    } else if b[k] < a[k] {
        assert(below_at(b, a, k));
    } else {
        lemma_below_total_from(a, b, k + 1);
    }
}

/// The byte order is total: of two different byte strings one comes first.
pub proof fn lemma_below_total(a: Seq<u8>, b: Seq<u8>)
    ensures
        a == b || bytes_below(a, b) || bytes_below(b, a),
{
    lemma_below_total_from(a, b, 0);
}

/// The order of names is a strict total order.
pub proof fn lemma_name_order(a: Seq<char>, b: Seq<char>, c: Seq<char>)
    ensures
        !name_below(a, a),
        name_below(a, b) && name_below(b, c) ==> name_below(a, c),
        name_below(a, b) ==> !name_below(b, a) && a != b,
        a == b || name_below(a, b) || name_below(b, a),
{
    lemma_below_irreflexive(encode_utf8(a));
    if name_below(a, b) && name_below(b, c) {
        lemma_below_transitive(encode_utf8(a), encode_utf8(b), encode_utf8(c));
    }
    if name_below(a, b) && name_below(b, a) {
        lemma_below_transitive(encode_utf8(a), encode_utf8(b), encode_utf8(a));
    }
    lemma_below_total(encode_utf8(a), encode_utf8(b));
    encode_utf8_decode_utf8(a);
    encode_utf8_decode_utf8(b);
}

/// How one name stands to another in the order of names.
#[derive(Clone, Copy, Debug, PartialEq, Eq, Structural)]
pub enum NameOrder {
    /// The first name comes before the second.
    Below,
    /// The two names are the same.
    Same,
    /// The first name comes after the second.
    Above,
}

/// Compares two names byte by byte.
pub fn order_of(a: &str, b: &str) -> (order: NameOrder)
    ensures
        match order {
            NameOrder::Below => name_below(a@, b@),
            NameOrder::Same => a@ == b@,
            NameOrder::Above => name_below(b@, a@),
        },
{
    let x = a.as_bytes();
    let y = b.as_bytes();
    let mut i: usize = 0;
    while i < x.len() && i < y.len()
        invariant
            x@ == encode_utf8(a@),
            y@ == encode_utf8(b@),
            i <= x.len(),
            i <= y.len(),
            forall|j: int| 0 <= j < i ==> x@[j] == y@[j],
        decreases x.len() - i,
    {
        if x[i] < y[i] {
            assert(below_at(x@, y@, i as int));
            return NameOrder::Below;
        }
        if x[i] > y[i] {
            assert(below_at(y@, x@, i as int));
            return NameOrder::Above;
        }
        i += 1;
    }
    if i < y.len() {
        assert(below_at(x@, y@, i as int));
        NameOrder::Below
    } else if i < x.len() {
        assert(below_at(y@, x@, i as int));
        NameOrder::Above
    } else {
        assert(x@ =~= y@);
        proof {
            encode_utf8_decode_utf8(a@);
            encode_utf8_decode_utf8(b@);
        }
        NameOrder::Same
    }
}

/// Text computed for a caller outside the process's safety boundary: an owned,
/// terminated byte string. The caller releases it exactly once by handing the
/// value back; a value cannot be given back twice.
#[derive(Debug)]
pub struct OwnedText {
    bytes: Vec<u8>,
}

impl View for OwnedText {
    type V = Seq<u8>;

    closed spec fn view(&self) -> Seq<u8> {
        self.bytes@
    }
}

impl OwnedText {
    #[verifier::type_invariant]
    spec fn terminated(self) -> bool {
        is_terminated(self.bytes@)
    }

    /// Encodes `text` for the caller, or nothing where `text` holds a zero byte.
    pub fn encode(text: &str) -> (owned: Option<OwnedText>)
        ensures
            match owned {
                Some(t) => terminated_bytes_of(text@) == Some(t@),
                None => terminated_bytes_of(text@) is None,
            },
    {
        let source = text.as_bytes();
        let mut bytes: Vec<u8> = Vec::new();
        let mut i: usize = 0;
        while i < source.len()
            invariant
                i <= source.len(),
                source@ == encode_utf8(text@),
                bytes@ == source@.subrange(0, i as int),
                forall|j: int| 0 <= j < i ==> source@[j] != 0u8,
            decreases source.len() - i,
        {
            let b = source[i];
            if b == 0 {
                assert(source@[i as int] == 0u8);
                return None;
            }
            bytes.push(b);
            assert(bytes@ =~= source@.subrange(0, i + 1));
            i += 1;
        }
        assert(source@.subrange(0, i as int) =~= source@);
        bytes.push(0);
        Some(OwnedText { bytes })
    }

    /// Takes back bytes that were handed out: they are owned text again if
    /// they end in their only zero byte, and nothing otherwise.
    pub fn from_bytes_with_nul(bytes: Vec<u8>) -> (owned: Option<OwnedText>)
        ensures
            match owned {
                Some(t) => is_terminated(bytes@) && t@ == bytes@,
                None => !is_terminated(bytes@),
            },
    {
        let n = bytes.len();
        if n == 0 {
            return None;
        }
        if bytes[n - 1] != 0 {
            return None;
        }
        let mut i: usize = 0;
        while i < n - 1
            invariant
                n == bytes@.len(),
                n > 0,
                i <= n - 1,
                forall|j: int| 0 <= j < i ==> bytes@[j] != 0u8,
            decreases n - 1 - i,
        {
            if bytes[i] == 0 {
                return None;
            }
            i += 1;
        }
        Some(OwnedText { bytes })
    }

    /// The bytes of the text, terminator included.
    pub fn as_bytes_with_nul(&self) -> (bytes: &[u8])
        ensures
            bytes@ == self@,
            is_terminated(bytes@),
    {
        proof {
            use_type_invariant(self);
        }
        self.bytes.as_slice()
    }

    /// Gives up the text as its bytes, terminator included.
    pub fn into_bytes_with_nul(self) -> (bytes: Vec<u8>)
        ensures
            bytes@ == self@,
            is_terminated(bytes@),
    {
        proof {
            use_type_invariant(&self);
        }
        self.bytes
    }
}

} // verus!
