use uuid::Uuid;
use vstd::prelude::*;

verus! {

/// The identity of an entity: the 128 bits of a UUID.
pub type EntityKey = u128;

/// Trusted: makes `uuid::Uuid` known as a type whose inside is hidden; the library only
/// hands such values on.
#[verifier::external_type_specification]
#[verifier::external_body]
pub struct ExUuid(Uuid);

/// The 128-bit value of a UUID, its first byte being the most significant.
pub uninterp spec fn uuid_value(id: Uuid) -> u128;

/// The key under which the registry files the entity with the given UUID.
///
/// Trusted: calls `Uuid::as_u128`, which packs the sixteen bytes of the UUID into one
/// integer. The contract only gives that integer its name, [`uuid_value`].
#[verifier::external_body]
pub fn uuid_to_key(id: Uuid) -> (key: EntityKey)
    ensures
        key == uuid_value(id),
{
    id.as_u128()
}

/// A UUID drawn at random.
///
/// Trusted: calls `Uuid::new_v4`. Nothing is claimed of the value, so callers have to
/// cope with one that is already taken.
#[verifier::external_body]
pub(crate) fn random_uuid() -> (id: Uuid) {
    Uuid::new_v4()
}

/// Two to the power of 64.
pub open spec fn half_modulus() -> int {
    0x1_0000_0000_0000_0000
}

/// The key whose low 64 bits are `data_1` and whose high 64 bits are `data_2`.
pub open spec fn spec_key_from_halves(data_1: u64, data_2: u64) -> int {
    data_1 + data_2 * half_modulus()
}

/// Joins the two 64-bit fields that carry an identity on the wire into a key.
pub fn key_from_halves(data_1: u64, data_2: u64) -> (key: EntityKey)
    ensures
        key == spec_key_from_halves(data_1, data_2),
{
    let low: u128 = data_1 as u128;
    let high: u128 = data_2 as u128;
    let key: u128 = low | (high << 64);
    assert(key == low + high * 0x1_0000_0000_0000_0000) by (bit_vector)
        requires
            key == low | (high << 64),
            low <= 0xffff_ffff_ffff_ffff,
            high <= 0xffff_ffff_ffff_ffff,
    ;
    key
}

/// Splits a key into the two 64-bit fields that carry it on the wire: the low half first.
pub fn key_into_halves(key: EntityKey) -> (halves: (u64, u64))
    ensures
        halves.0 == key % 0x1_0000_0000_0000_0000,
        halves.1 == key / 0x1_0000_0000_0000_0000,
        spec_key_from_halves(halves.0, halves.1) == key,
{
    let low: u128 = key & 0xffff_ffff_ffff_ffff;
    let high: u128 = key >> 64;
    assert(low == key % 0x1_0000_0000_0000_0000 && high == key / 0x1_0000_0000_0000_0000
        && low <= 0xffff_ffff_ffff_ffff && high <= 0xffff_ffff_ffff_ffff) by (bit_vector)
        requires
            low == key & 0xffff_ffff_ffff_ffff,
            high == key >> 64,
    ;
    (low as u64, high as u64)
}

/// Joining two halves and splitting the key again gives the halves back.
pub proof fn lemma_halves_round_trip(data_1: u64, data_2: u64)
    ensures
        spec_key_from_halves(data_1, data_2) % half_modulus() == data_1,
        spec_key_from_halves(data_1, data_2) / half_modulus() == data_2,
        0 <= spec_key_from_halves(data_1, data_2) <= u128::MAX,
{
    let low: u128 = data_1 as u128;
    let high: u128 = data_2 as u128;
    assert((low + high * 0x1_0000_0000_0000_0000) % 0x1_0000_0000_0000_0000 == low
        && (low + high * 0x1_0000_0000_0000_0000) / 0x1_0000_0000_0000_0000 == high
        && low + high * 0x1_0000_0000_0000_0000 >= low) by (bit_vector)
        requires
            low <= 0xffff_ffff_ffff_ffff,
            high <= 0xffff_ffff_ffff_ffff,
    ;
    assert(low + high * 0x1_0000_0000_0000_0000 <= u128::MAX) by (nonlinear_arith)
        requires
            low <= 0xffff_ffff_ffff_ffff,
            high <= 0xffff_ffff_ffff_ffff,
    ;
}

} // verus!
