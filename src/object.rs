//! The reconciled entity: an identifier and a scalar value.
//!
//! Identifiers are 128-bit UUIDs held as `u128`. Values are 64-bit IEEE-754
//! floating-point numbers held as their bit pattern (`f64::to_bits`), so that
//! the library can state exactly when two values compare equal.
use vstd::prelude::*;

verus! {

/// Identifier of an object: the 128 bits of a UUID, most significant first.
pub type ObjectID = u128;

/// An object: `id` is its identity, `value` the bit pattern of its scalar.
#[derive(Clone, Copy, Debug, PartialEq)]
pub struct Object {
    pub id: ObjectID,
    pub value: u64,
}

/// Bits of the exponent field of a binary64 number.
pub const EXPONENT_MASK: u64 = 0x7ff0_0000_0000_0000;

/// Bits of the fraction field of a binary64 number.
pub const FRACTION_MASK: u64 = 0x000f_ffff_ffff_ffff;

/// Every bit of a binary64 number but its sign.
pub const MAGNITUDE_MASK: u64 = 0x7fff_ffff_ffff_ffff;

/// The bit pattern encodes a NaN: all exponent bits set, a nonzero fraction.
pub open spec fn is_nan(bits: u64) -> bool {
    bits & EXPONENT_MASK == EXPONENT_MASK && bits & FRACTION_MASK != 0
}

/// The bit pattern encodes positive or negative zero.
pub open spec fn is_zero(bits: u64) -> bool {
    bits & MAGNITUDE_MASK == 0
}

/// IEEE-754 equality of two binary64 numbers given by their bit patterns:
/// a NaN equals nothing, the two zeros are equal, and otherwise equal
/// numbers have equal bits.
pub open spec fn float_eq(a: u64, b: u64) -> bool {
    (a == b && !is_nan(a)) || (is_zero(a) && is_zero(b))
}

/// Exact floating-point equality of two values, `==` on `f64`.
pub fn values_equal(a: u64, b: u64) -> (r: bool)
    ensures
        r == float_eq(a, b),
{
    let a_nan = a & EXPONENT_MASK == EXPONENT_MASK && a & FRACTION_MASK != 0;
    (a == b && !a_nan) || (a & MAGNITUDE_MASK == 0 && b & MAGNITUDE_MASK == 0)
}

/// Version field of a UUID given as `u128`.
pub open spec fn uuid_version(id: u128) -> u128 {
    (id >> 76u128) & 0xf
}

/// Variant field (its two top bits) of a UUID given as `u128`.
pub open spec fn uuid_variant(id: u128) -> u128 {
    (id >> 62u128) & 0x3
}

/// Relies on `uuid::Uuid::new_v4`: a random identifier of version 4 and of
/// the RFC 4122 variant, read out with `Uuid::as_u128`.
#[verifier::external_body]
fn fresh_id() -> (r: ObjectID)
    ensures
        uuid_version(r) == 4,
        uuid_variant(r) == 2,
{
    uuid::Uuid::new_v4().as_u128()
}

impl Object {
    /// A new object with the given value and a fresh random identifier.
    pub fn new(value: u64) -> (r: Object)
        ensures
            r.value == value,
            uuid_version(r.id) == 4,
            uuid_variant(r.id) == 2,
    {
        Object { id: fresh_id(), value }
    }
}

/// Some object of `s` has identifier `id`.
pub open spec fn has_id(s: Seq<Object>, id: ObjectID) -> bool {
    exists|i: int| 0 <= i < s.len() && #[trigger] s[i].id == id
}

/// No two objects of `s` share an identifier.
pub open spec fn unique_ids(s: Seq<Object>) -> bool {
    forall|i: int, j: int| 0 <= i < s.len() && 0 <= j < s.len() && i != j ==> s[i].id != s[j].id
}

/// The state that a sequence of objects describes: each identifier mapped to
/// the value of the last object that carries it.
pub open spec fn objects_map(s: Seq<Object>) -> Map<ObjectID, u64>
    decreases s.len(),
{
    if s.len() == 0 {
        Map::empty()
    } else {
        objects_map(s.drop_last()).insert(s.last().id, s.last().value)
    }
}

/// `s` lists the state `m`: one object for each entry, none twice.
pub open spec fn is_listing(s: Seq<Object>, m: Map<ObjectID, u64>) -> bool {
    unique_ids(s) && objects_map(s) == m
}

/// The identifiers that `objects_map(s)` holds are those of the objects of `s`.
pub proof fn lemma_objects_map_domain(s: Seq<Object>)
    ensures
        forall|id: ObjectID| #[trigger] objects_map(s).contains_key(id) <==> has_id(s, id),
    decreases s.len(),
{
    if s.len() > 0 {
        let p = s.drop_last();
        lemma_objects_map_domain(p);
        assert(objects_map(s) == objects_map(p).insert(s.last().id, s.last().value));
        assert forall|id: ObjectID| #[trigger] objects_map(s).contains_key(id) <==> has_id(s, id) by {
            if has_id(s, id) {
                let i = choose|i: int| 0 <= i < s.len() && #[trigger] s[i].id == id;
                if i < s.len() - 1 {
                    assert(p[i].id == id);
                }
            }
            if has_id(p, id) {
                let i = choose|i: int| 0 <= i < p.len() && #[trigger] p[i].id == id;
                assert(p[i] == s[i]);
                assert(s[i].id == id);
            }
            if id == s.last().id {
                assert(s[s.len() - 1].id == id);
            }
        }
    }
}

/// In a sequence without repeated identifiers, every object's value is the
/// one that `objects_map` gives its identifier.
pub proof fn lemma_objects_map_value(s: Seq<Object>, i: int)
    requires
        unique_ids(s),
        0 <= i < s.len(),
    ensures
        objects_map(s).contains_key(s[i].id),
        objects_map(s)[s[i].id] == s[i].value,
    decreases s.len(),
{
    if i < s.len() - 1 {
        let p = s.drop_last();
        assert(p[i] == s[i]);
        lemma_objects_map_value(p, i);
    }
}

/// Facts about `objects_map(s)` for every identifier and every index at once.
pub proof fn lemma_objects_map(s: Seq<Object>)
    requires
        unique_ids(s),
    ensures
        forall|id: ObjectID| #[trigger] objects_map(s).contains_key(id) <==> has_id(s, id),
        forall|i: int|
            0 <= i < s.len() ==> #[trigger] objects_map(s)[s[i].id] == s[i].value,
{
    lemma_objects_map_domain(s);
    assert forall|i: int| 0 <= i < s.len() implies #[trigger] objects_map(s)[s[i].id]
        == s[i].value by {
        lemma_objects_map_value(s, i);
    }
}

} // verus!
