//! The identifier type and its value semantics.

use core::cmp::Ordering;
use core::marker::PhantomData;
use vstd::prelude::*;
use vstd::std_specs::cmp::{PartialEqSpec, PartialOrdSpec};

use crate::order::{eq_prefix, lemma_lex_transitive, lemma_lex_trichotomy, lex_lt};
use crate::text::{
    bytes_to_canonical, canonical_of, canonical_to_bytes, is_canonical, lemma_canonical_round_trip,
    parsed_bytes,
};

verus! {

/// A 128-bit identifier tagged, at the type level only, with the entity type
/// `T` that owns it.
///
/// The tag occupies no storage and takes no part in equality, ordering,
/// hashing or text conversion: two identifiers are compared purely on their
/// 16 payload bytes. `ID<Foo>` and `ID<Bar>` are nevertheless distinct types,
/// so an identifier of one entity kind cannot stand where another kind is
/// expected. The view of an identifier is its payload byte sequence.
#[derive(Debug, Hash, Ord)]
pub struct ID<T> {
    bytes: [u8; 16],
    _tag: PhantomData<T>,
}

impl<T> View for ID<T> {
    type V = Seq<u8>;

    closed spec fn view(&self) -> Seq<u8> {
        self.bytes@
    }
}

/// Relies on `uuid::Uuid::new_v4`: a fresh random UUID whose bytes follow the
/// version-4 layout — the version nibble of byte 6 reads 4 and the variant
/// bits of byte 8 read binary 10. Nothing more is promised of a random value.
#[verifier::external_body]
fn fresh_v4_bytes() -> (r: [u8; 16])
    ensures
        r@[6] & 0xf0 == 0x40,
        r@[8] & 0xc0 == 0x80,
{
    uuid::Uuid::new_v4().into_bytes()
}

impl<T> ID<T> {
    /// Creates a fresh identifier from the process-wide random source. The
    /// payload follows the version-4 layout; everything else about it is
    /// random, so no two calls may be assumed related.
    pub fn new() -> (r: Self)
        ensures
            r@[6] & 0xf0 == 0x40,
            r@[8] & 0xc0 == 0x80,
    {
        ID { bytes: fresh_v4_bytes(), _tag: PhantomData }
    }

    /// Creates an identifier whose payload is exactly the given bytes,
    /// verbatim: no validation and no bit-fixing.
    pub fn from_bytes(bytes: [u8; 16]) -> (r: Self)
        ensures
            r@ == bytes@,
    {
        ID { bytes, _tag: PhantomData }
    }

    /// The raw 16-byte payload, by copy, with the tag erased: the deliberate
    /// escape hatch for byte-level interoperation.
    pub fn uuid(&self) -> (r: [u8; 16])
        ensures
            r@ == self@,
    {
        self.bytes
    }

    /// Renders the identifier in the canonical text form: 36 characters,
    /// lowercase hexadecimal, hyphenated 8-4-4-4-12.
    pub fn to_string(&self) -> (s: String)
        ensures
            s@ == canonical_of(self@),
    {
        bytes_to_canonical(&self.bytes)
    }

    /// Parses the hyphenated text form, with hexadecimal digits of either
    /// case. On success the payload is read back from the digits and the tag
    /// comes from the calling context alone; otherwise the rejected input
    /// itself is returned, to aid diagnostics.
    pub fn from_str(s: &str) -> (r: Result<Self, String>)
        ensures
            match r {
                Ok(id) => is_canonical(s@) && id@ == parsed_bytes(s@),
                Err(e) => !is_canonical(s@) && e@ == s@,
            },
    {
        match canonical_to_bytes(s) {
            Some(bytes) => Ok(ID { bytes, _tag: PhantomData }),
            None => Err(s.to_owned()),
        }
    }
}

impl<T> Default for ID<T> {
    /// A fresh random identifier, exactly as `ID::new`.
    fn default() -> (r: Self)
        ensures
            r@[6] & 0xf0 == 0x40,
            r@[8] & 0xc0 == 0x80,
    {
        Self::new()
    }
}

impl<T> Clone for ID<T> {
    /// Copies the identifier; the copy is the same value.
    fn clone(&self) -> (r: Self)
        ensures
            r == *self,
    {
        *self
    }
}

impl<T> Copy for ID<T> {

}

impl<T> PartialEq for ID<T> {
    fn eq(&self, other: &Self) -> (r: bool) {
        let mut i: usize = 0;
        while i < 16
            invariant
                0 <= i <= 16,
                forall|k: int| 0 <= k < i ==> self@[k] == other@[k],
            decreases 16 - i,
        {
            if self.bytes[i] != other.bytes[i] {
                return false;
            }
            i += 1;
        }
        proof {
            assert(self@ =~= other@);
        }
        true
    }
}

impl<T> vstd::std_specs::cmp::PartialEqSpecImpl for ID<T> {
    open spec fn obeys_eq_spec() -> bool {
        true
    }

    open spec fn eq_spec(&self, other: &Self) -> bool {
        self@ == other@
    }
}

impl<T> Eq for ID<T> {

}

impl<T> PartialOrd for ID<T> {
    fn partial_cmp(&self, other: &Self) -> (r: Option<Ordering>) {
        let mut i: usize = 0;
        while i < 16
            invariant
                0 <= i <= 16,
                forall|k: int| 0 <= k < i ==> self@[k] == other@[k],
            decreases 16 - i,
        {
            let x = self.bytes[i];
            let y = other.bytes[i];
            if x < y {
                proof {
                    let ghost ii = i as int;
                    assert(eq_prefix(self@, other@, ii) && self@[ii] < other@[ii]);
                    assert(lex_lt(self@, other@));
                    lemma_lex_trichotomy(self@, other@);
                }
                return Some(Ordering::Less);
            } else if y < x {
                proof {
                    let ghost ii = i as int;
                    assert(eq_prefix(other@, self@, ii) && other@[ii] < self@[ii]);
                    assert(lex_lt(other@, self@));
                    lemma_lex_trichotomy(self@, other@);
                }
                return Some(Ordering::Greater);
            }
            i += 1;
        }
        proof {
            assert(self@ =~= other@);
        }
        Some(Ordering::Equal)
    }
}

impl<T> vstd::std_specs::cmp::PartialOrdSpecImpl for ID<T> {
    open spec fn obeys_partial_cmp_spec() -> bool {
        true
    }

    open spec fn partial_cmp_spec(&self, other: &Self) -> Option<Ordering> {
        if self@ == other@ {
            Some(Ordering::Equal)
        } else if lex_lt(self@, other@) {
            Some(Ordering::Less)
        } else {
            Some(Ordering::Greater)
        }
    }
}

/// Every identifier's view is exactly its 16 payload bytes, however the
/// identifier was made.
pub broadcast proof fn lemma_payload_len<T>(x: ID<T>)
    ensures
        (#[trigger] x@).len() == 16,
{
}

/// Equality is payload equality and nothing else: identifiers built from
/// identical byte arrays are equal, and equal identifiers carry identical
/// payloads. The tag contributes nothing.
pub proof fn lemma_eq_is_payload_eq<T>(x: ID<T>, y: ID<T>)
    ensures
        x.eq_spec(&y) <==> x@ == y@,
{
}

/// The order between identifiers is total: comparison always answers, it
/// answers "equal" exactly on equal payloads, and it answers "less" one way
/// exactly when it answers "greater" the other way.
pub proof fn lemma_order_trichotomy<T>(x: ID<T>, y: ID<T>)
    ensures
        x.partial_cmp_spec(&y) is Some,
        x.partial_cmp_spec(&y) == Some(Ordering::Equal) <==> x@ == y@,
        x.partial_cmp_spec(&y) == Some(Ordering::Less) <==> lex_lt(x@, y@),
        x.partial_cmp_spec(&y) == Some(Ordering::Greater) <==> lex_lt(y@, x@),
{
    lemma_lex_trichotomy(x@, y@);
}

/// The order between identifiers is transitive.
pub proof fn lemma_order_transitive<T>(x: ID<T>, y: ID<T>, z: ID<T>)
    requires
        x.partial_cmp_spec(&y) == Some(Ordering::Less),
        y.partial_cmp_spec(&z) == Some(Ordering::Less),
    ensures
        x.partial_cmp_spec(&z) == Some(Ordering::Less),
{
    lemma_lex_trichotomy(x@, y@);
    lemma_lex_trichotomy(y@, z@);
    lemma_lex_transitive(x@, y@, z@);
    lemma_lex_trichotomy(x@, z@);
}

/// Text round-trip: the canonical form of any identifier is accepted by the
/// textual grammar and parses back to the same payload, so `ID::from_str` of
/// `ID::to_string` returns the identifier unchanged.
pub proof fn lemma_text_round_trip<T>(x: ID<T>)
    ensures
        is_canonical(canonical_of(x@)),
        parsed_bytes(canonical_of(x@)) == x@,
{
    lemma_canonical_round_trip(x@);
}

} // verus!
