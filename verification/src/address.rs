//! Deterministic address derivation for conversation and profile records.
//!
//! A record's storage key is derived from a namespace tag and the identities
//! involved, in a fixed order. Conversation records use the tag `chat` and
//! the ordered participant pair, so the pairs `(a, b)` and `(b, a)` are
//! derived from different seed lists; profile records use the tag `profile`
//! and the owner alone.

use vstd::prelude::*;

use crate::identity::Identity;

use solana_pubkey::Pubkey;

verus! {

/// The storage key and slot version that program-derived addressing yields
/// for a seed list under a program id; a pure function of its arguments.
pub uninterp spec fn pda_of(seeds: Seq<Seq<u8>>, program_id: Seq<u8>) -> (Seq<u8>, u8);

/// Whether program-derived addressing finds a key for a seed list under a
/// program id; like the key itself, a pure function of its arguments. It is
/// false only for a seed list over the derivation's own limits or, for one
/// within them, in the statistically improbable event that no bump byte
/// yields an address off the curve.
pub uninterp spec fn pda_found(seeds: Seq<Seq<u8>>, program_id: Seq<u8>) -> bool;

/// Little-endian byte `i` of `x`.
pub open spec fn le_byte(x: u128, i: int) -> u8 {
    (((x >> ((8 * i) as u128)) % 256) as u8)
}

/// The 32 bytes of an identity, as address derivation sees them: the
/// little-endian bytes of its low half, then of its high half.
pub open spec fn id_seed(id: Identity) -> Seq<u8> {
    Seq::new(32, |i: int| if i < 16 { le_byte(id.lo, i) } else { le_byte(id.hi, i - 16) })
}

/// The namespace tag of conversation records: the bytes of `chat`.
pub open spec fn chat_tag() -> Seq<u8> {
    seq![99u8, 104u8, 97u8, 116u8]
}

/// The namespace tag of profile records: the bytes of `profile`.
pub open spec fn profile_tag() -> Seq<u8> {
    seq![112u8, 114u8, 111u8, 102u8, 105u8, 108u8, 101u8]
}

/// The seed list addressing the conversation record of the ordered pair
/// `(sender, receiver)`.
pub open spec fn chat_seeds(sender: Identity, receiver: Identity) -> Seq<Seq<u8>> {
    seq![chat_tag(), id_seed(sender), id_seed(receiver)]
}

/// The seed list addressing the profile record of `owner`.
pub open spec fn profile_seeds(owner: Identity) -> Seq<Seq<u8>> {
    seq![profile_tag(), id_seed(owner)]
}

/// Relies on `solana_pubkey::Pubkey::try_find_program_address`: run off
/// the ledger it derives the address by hashing the seed list, a bump byte
/// and the program id, so whether a key is found and which one are both
/// deterministic functions of those arguments alone; it returns `None`,
/// rather than panicking, when the seed list is over the derivation's own
/// limits or no bump byte fits.
#[verifier::external_body]
fn find_pda(seeds: &Vec<Vec<u8>>, program_id: &Vec<u8>) -> (r: Option<(Vec<u8>, u8)>)
    requires
        program_id@.len() == 32,
    ensures
        (r is Some) == pda_found(seeds@.map_values(|s: Vec<u8>| s@), program_id@),
        r matches Some(p) ==> (p.0@, p.1) == pda_of(
            seeds@.map_values(|s: Vec<u8>| s@),
            program_id@,
        ) && p.0@.len() == 32,
{
    let mut pid = [0u8; 32];
    pid.copy_from_slice(program_id.as_slice());
    let refs: Vec<&[u8]> = seeds.iter().map(|s| s.as_slice()).collect();
    match Pubkey::try_find_program_address(&refs, &Pubkey::new_from_array(pid)) {
        Some((addr, bump)) => Some((addr.to_bytes().to_vec(), bump)),
        None => None,
    }
}

/// The bytes of an identity in derivation order.
fn id_seed_bytes(id: &Identity) -> (r: Vec<u8>)
    ensures
        r@ == id_seed(*id),
{
    let mut r: Vec<u8> = Vec::new();
    let mut i: usize = 0;
    while i < 16
        invariant
            i <= 16,
            r@.len() == i,
            forall|j: int| 0 <= j < i ==> r@[j] == le_byte(id.lo, j),
        decreases 16 - i,
    {
        let sh: u128 = 8 * (i as u128);
        let b: u8 = ((id.lo >> sh) % 256) as u8;
        proof {
            assert(b == le_byte(id.lo, i as int));
        }
        r.push(b);
        i += 1;
    }
    let mut k: usize = 0;
    while k < 16
        invariant
            k <= 16,
            r@.len() == 16 + k,
            forall|j: int| 0 <= j < 16 ==> r@[j] == le_byte(id.lo, j),
            forall|j: int| 0 <= j < k ==> r@[16 + j] == le_byte(id.hi, j),
        decreases 16 - k,
    {
        let sh: u128 = 8 * (k as u128);
        let b: u8 = ((id.hi >> sh) % 256) as u8;
        proof {
            assert(b == le_byte(id.hi, k as int));
        }
        r.push(b);
        k += 1;
    }
    proof {
        assert(r@ =~= id_seed(*id));
    }
    r
}

/// Derives the storage key and slot version of the conversation record for
/// the ordered pair `(sender, receiver)` under `program_id`. Whether a key
/// is found, and which one, are pure functions of those inputs, so two
/// derivations from the same ordered pair always agree; `None` comes only
/// in the statistically improbable event that the derivation finds no key.
pub fn derive_chat_address(program_id: &Vec<u8>, sender: &Identity, receiver: &Identity) -> (r: Option<(Vec<u8>, u8)>)
    requires
        program_id@.len() == 32,
    ensures
        (r is Some) == pda_found(chat_seeds(*sender, *receiver), program_id@),
        r matches Some(p) ==> (p.0@, p.1) == pda_of(chat_seeds(*sender, *receiver), program_id@)
            && p.0@.len() == 32,
{
    let mut tag: Vec<u8> = Vec::new();
    tag.push(99u8);
    tag.push(104u8);
    tag.push(97u8);
    tag.push(116u8);
    proof {
        assert(tag@ =~= chat_tag());
    }
    let mut seeds: Vec<Vec<u8>> = Vec::new();
    seeds.push(tag);
    seeds.push(id_seed_bytes(sender));
    seeds.push(id_seed_bytes(receiver));
    proof {
        assert(seeds@.map_values(|s: Vec<u8>| s@) =~= chat_seeds(*sender, *receiver));
    }
    find_pda(&seeds, program_id)
}

/// Derives the storage key and slot version of the profile record of
/// `owner` under `program_id`. Whether a key is found, and which one, are
/// pure functions of those inputs, so two derivations for the same owner
/// always agree; `None` comes only in the statistically improbable event
/// that the derivation finds no key.
pub fn derive_profile_address(program_id: &Vec<u8>, owner: &Identity) -> (r: Option<(Vec<u8>, u8)>)
    requires
        program_id@.len() == 32,
    ensures
        (r is Some) == pda_found(profile_seeds(*owner), program_id@),
        r matches Some(p) ==> (p.0@, p.1) == pda_of(profile_seeds(*owner), program_id@)
            && p.0@.len() == 32,
{
    let mut tag: Vec<u8> = Vec::new();
    tag.push(112u8);
    tag.push(114u8);
    tag.push(111u8);
    tag.push(102u8);
    tag.push(105u8);
    tag.push(108u8);
    tag.push(101u8);
    proof {
        assert(tag@ =~= profile_tag());
    }
    let mut seeds: Vec<Vec<u8>> = Vec::new();
    seeds.push(tag);
    seeds.push(id_seed_bytes(owner));
    proof {
        assert(seeds@.map_values(|s: Vec<u8>| s@) =~= profile_seeds(*owner));
    }
    find_pda(&seeds, program_id)
}

/// Sixteen equal little-endian bytes pin a 128-bit value: two values with
/// the same bytes are the same value.
proof fn lemma_le_bytes_determine(x: u128, y: u128)
    requires
        forall|i: int| 0 <= i < 16 ==> le_byte(x, i) == le_byte(y, i),
    ensures
        x == y,
{
    assert(le_byte(x, 0) == le_byte(y, 0));
    assert(le_byte(x, 1) == le_byte(y, 1));
    assert(le_byte(x, 2) == le_byte(y, 2));
    assert(le_byte(x, 3) == le_byte(y, 3));
    assert(le_byte(x, 4) == le_byte(y, 4));
    assert(le_byte(x, 5) == le_byte(y, 5));
    assert(le_byte(x, 6) == le_byte(y, 6));
    assert(le_byte(x, 7) == le_byte(y, 7));
    assert(le_byte(x, 8) == le_byte(y, 8));
    assert(le_byte(x, 9) == le_byte(y, 9));
    assert(le_byte(x, 10) == le_byte(y, 10));
    assert(le_byte(x, 11) == le_byte(y, 11));
    assert(le_byte(x, 12) == le_byte(y, 12));
    assert(le_byte(x, 13) == le_byte(y, 13));
    assert(le_byte(x, 14) == le_byte(y, 14));
    assert(le_byte(x, 15) == le_byte(y, 15));
    assert(x == y) by (bit_vector)
        requires
            ((x >> 0u128) % 256) as u8 == ((y >> 0u128) % 256) as u8,
            ((x >> 8u128) % 256) as u8 == ((y >> 8u128) % 256) as u8,
            ((x >> 16u128) % 256) as u8 == ((y >> 16u128) % 256) as u8,
            ((x >> 24u128) % 256) as u8 == ((y >> 24u128) % 256) as u8,
            ((x >> 32u128) % 256) as u8 == ((y >> 32u128) % 256) as u8,
            ((x >> 40u128) % 256) as u8 == ((y >> 40u128) % 256) as u8,
            ((x >> 48u128) % 256) as u8 == ((y >> 48u128) % 256) as u8,
            ((x >> 56u128) % 256) as u8 == ((y >> 56u128) % 256) as u8,
            ((x >> 64u128) % 256) as u8 == ((y >> 64u128) % 256) as u8,
            ((x >> 72u128) % 256) as u8 == ((y >> 72u128) % 256) as u8,
            ((x >> 80u128) % 256) as u8 == ((y >> 80u128) % 256) as u8,
            ((x >> 88u128) % 256) as u8 == ((y >> 88u128) % 256) as u8,
            ((x >> 96u128) % 256) as u8 == ((y >> 96u128) % 256) as u8,
            ((x >> 104u128) % 256) as u8 == ((y >> 104u128) % 256) as u8,
            ((x >> 112u128) % 256) as u8 == ((y >> 112u128) % 256) as u8,
            ((x >> 120u128) % 256) as u8 == ((y >> 120u128) % 256) as u8,
    ;
}

/// Two identities with the same derivation bytes are the same identity.
proof fn lemma_id_seed_injective(a: Identity, b: Identity)
    requires
        id_seed(a) == id_seed(b),
    ensures
        a == b,
{
    assert forall|i: int| 0 <= i < 16 implies le_byte(a.lo, i) == le_byte(b.lo, i) by {
        assert(id_seed(a)[i] == le_byte(a.lo, i));
        assert(id_seed(b)[i] == le_byte(b.lo, i));
        assert(id_seed(a)[i] == id_seed(b)[i]);
    }
    assert forall|i: int| 0 <= i < 16 implies le_byte(a.hi, i) == le_byte(b.hi, i) by {
        assert(id_seed(a)[i + 16] == le_byte(a.hi, i));
        assert(id_seed(b)[i + 16] == le_byte(b.hi, i));
        assert(id_seed(a)[i + 16] == id_seed(b)[i + 16]);
    }
    lemma_le_bytes_determine(a.lo, b.lo);
    lemma_le_bytes_determine(a.hi, b.hi);
}

/// Address derivation is a pure function of the seed list and the program
/// id: two derivations from equal inputs agree on whether a key is found
/// and on the key itself. It has no side effects and no error states; a
/// missing key is signalled by the `pda_found` outcome, never by a fault.
pub proof fn lemma_derive_deterministic(
    seeds1: Seq<Seq<u8>>,
    program_id1: Seq<u8>,
    seeds2: Seq<Seq<u8>>,
    program_id2: Seq<u8>,
)
    requires
        seeds1 == seeds2,
        program_id1 == program_id2,
    ensures
        pda_found(seeds1, program_id1) == pda_found(seeds2, program_id2),
        pda_of(seeds1, program_id1) == pda_of(seeds2, program_id2),
{
}

/// Each ordered pair of identities has its own conversation seed list: two
/// pairs that hand the derivation the same seed list are the same pair, in
/// the same order. An operation that derives from `(sender, receiver)`
/// therefore addresses exactly that pair's record. Whether two distinct
/// seed lists can still hash to one key is the derivation's own concern,
/// as with any hash of distinct inputs.
pub proof fn lemma_chat_seeds_injective(a: Identity, b: Identity, c: Identity, d: Identity)
    requires
        chat_seeds(a, b) == chat_seeds(c, d),
    ensures
        a == c,
        b == d,
{
    assert(chat_seeds(a, b)[1] == chat_seeds(c, d)[1]);
    assert(chat_seeds(a, b)[2] == chat_seeds(c, d)[2]);
    assert(id_seed(a) == id_seed(c));
    assert(id_seed(b) == id_seed(d));
    lemma_id_seed_injective(a, c);
    lemma_id_seed_injective(b, d);
}

/// Reversing a pair of distinct identities changes the seed list the
/// conversation key is derived from: `(a, b)` and `(b, a)` hand different
/// inputs to the derivation.
pub proof fn lemma_chat_seeds_order_sensitive(a: Identity, b: Identity)
    requires
        a != b,
    ensures
        chat_seeds(a, b) != chat_seeds(b, a),
{
    if chat_seeds(a, b) == chat_seeds(b, a) {
        lemma_chat_seeds_injective(a, b, b, a);
    }
}

} // verus!
