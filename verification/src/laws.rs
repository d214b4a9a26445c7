//! Laws of the operation layer.
//!
//! Each law relates the contracts of several operations: what a read
//! observes after an upsert, a read-modify-write or a delete, how additive
//! and appending merges accumulate, and how recorded session serial numbers
//! behave across operations. The store contracts speak of the store's
//! contents as a map from encoded keys to encoded values; the laws are
//! stated over that map and the codec and merge specifications.

use crate::codec::spec_string_encoding;
use crate::codec::FasterKey;
use crate::codec::FasterValue;
use crate::rmw::FasterRmw;
use crate::store::max64;
use crate::store::FasterKv;
use vstd::bytes::lemma_auto_spec_u64_to_from_le_bytes;
use vstd::prelude::*;
use vstd::utf8::encode_utf8;
use vstd::utf8::encode_utf8_decode_utf8;

verus! {

/// Round trip: after a value is stored under a key (`FasterKv::upsert`), the
/// store maps the encoded key to the encoded value, and a value encoding to
/// those bytes exists — so a read of the key (`FasterKv::read`) reports `OK`
/// and delivers a value with exactly the stored encoding.
pub proof fn lemma_upsert_then_read_round_trip<K: FasterKey, V: FasterValue>(
    contents: Map<Seq<u8>, Seq<u8>>,
    key: K,
    value: V,
)
    ensures
        contents.insert(key.key_encoding(), value.encoding()).contains_key(key.key_encoding()),
        contents.insert(key.key_encoding(), value.encoding())[key.key_encoding()]
            == value.encoding(),
        exists|w: V|
            w.encoding() == contents.insert(key.key_encoding(), value.encoding())[key.key_encoding()],
{
    assert(value.encoding() == contents.insert(key.key_encoding(), value.encoding())[key.key_encoding()]);
}

/// Two 64-bit values with the same encoding are the same value: the round
/// trip of a `u64` delivers the value itself, not merely an encoding-equal
/// one.
pub proof fn lemma_u64_encoding_injective(a: u64, b: u64)
    requires
        a.encoding() == b.encoding(),
    ensures
        a == b,
{
    lemma_auto_spec_u64_to_from_le_bytes();
}

/// Two strings with the same encoding have the same characters: the round
/// trip of a `String` delivers a string with exactly the stored characters.
pub proof fn lemma_string_encoding_injective(a: Seq<char>, b: Seq<char>)
    requires
        spec_string_encoding(a) == spec_string_encoding(b),
    ensures
        a == b,
{
    lemma_auto_spec_u64_to_from_le_bytes();
    assert(spec_string_encoding(a).skip(8) =~= encode_utf8(a));
    assert(spec_string_encoding(b).skip(8) =~= encode_utf8(b));
    encode_utf8_decode_utf8(a);
    encode_utf8_decode_utf8(b);
}

/// Read-modify-write on an absent key: the modification becomes the stored
/// value verbatim (`FasterKv::rmw`, absent-key case), so a subsequent read
/// observes exactly the modification's encoding.
pub proof fn lemma_rmw_absent_key<K: FasterKey, V: FasterValue>(
    contents: Map<Seq<u8>, Seq<u8>>,
    key: K,
    modification: V,
)
    requires
        !contents.contains_key(key.key_encoding()),
    ensures
        contents.insert(key.key_encoding(), modification.encoding()).contains_key(
            key.key_encoding(),
        ),
        contents.insert(key.key_encoding(), modification.encoding())[key.key_encoding()]
            == modification.encoding(),
        exists|w: V|
            w.encoding() == contents.insert(key.key_encoding(), modification.encoding())[key.key_encoding()],
{
    assert(modification.encoding() == contents.insert(key.key_encoding(), modification.encoding())[key.key_encoding()]);
}

/// Numeric read-modify-write accumulates: merging two additive modifications
/// into an initial value, in either order of arrival, yields their sum
/// whenever it fits the type.
pub proof fn lemma_rmw_accumulation(initial: u64, m1: u64, m2: u64)
    requires
        initial + m1 + m2 <= u64::MAX,
    ensures
        forall|a: u64, b: u64|
            initial.merges_to(m1, a) && #[trigger] a.merges_to(m2, b) ==> b == initial + m1 + m2,
        forall|a: u64, b: u64|
            initial.merges_to(m2, a) && #[trigger] a.merges_to(m1, b) ==> b == initial + m1 + m2,
{
}

/// The value after a chain of additive merges of 64-bit values, each step as
/// `FasterRmw` merges a `u64`.
pub open spec fn apply_rmws(initial: u64, mods: Seq<u64>) -> u64
    decreases mods.len(),
{
    if mods.len() == 0 {
        initial
    } else {
        vstd::wrapping::u64_specs::wrapping_add(apply_rmws(initial, mods.drop_last()), mods.last())
    }
}

/// A chain of additive merges steps exactly as `FasterRmw` merges a `u64`.
pub proof fn lemma_apply_rmws_step(initial: u64, mods: Seq<u64>, merged: u64)
    requires
        mods.len() > 0,
        apply_rmws(initial, mods.drop_last()).merges_to(mods.last(), merged),
    ensures
        merged == apply_rmws(initial, mods),
{
}

/// A number of copies of the same additive modification, one per merge
/// issued.
pub open spec fn repeated(modification: u64, count: nat) -> Seq<u64> {
    Seq::new(count, |i: int| modification)
}

/// Concurrent additive read-modify-writes are interleaving-independent:
/// whatever order a number of merges of the same modification reach the key
/// in, the final value is the initial value plus their count times the
/// modification, whenever that fits the type.
pub proof fn lemma_rmw_concurrent_total(initial: u64, modification: u64, count: nat)
    requires
        initial + count * modification <= u64::MAX,
    ensures
        apply_rmws(initial, repeated(modification, count)) == initial + count * modification,
    decreases count,
{
    let mods = repeated(modification, count);
    if count > 0 {
        assert(mods.drop_last() =~= repeated(modification, (count - 1) as nat));
        assert(((count - 1) as nat) * modification == count * modification - modification)
            by (nonlinear_arith)
            requires
                count > 0,
        ;
        lemma_rmw_concurrent_total(initial, modification, (count - 1) as nat);
        assert(mods.last() == modification);
        assert(apply_rmws(initial, mods.drop_last()) == initial + count * modification
            - modification);
        assert(apply_rmws(initial, mods) == vstd::wrapping::u64_specs::wrapping_add(
            apply_rmws(initial, mods.drop_last()),
            modification,
        ));
    } else {
        assert(mods.len() == 0);
        assert((0 as nat) * modification == 0) by (nonlinear_arith);
    }
}

/// Delete then read: after a delete (`FasterKv::delete`) the store holds
/// nothing under the key, so a read reports `NOT_FOUND` with a closed slot
/// and no value is delivered.
pub proof fn lemma_delete_then_read<K: FasterKey>(contents: Map<Seq<u8>, Seq<u8>>, key: K)
    ensures
        !contents.remove(key.key_encoding()).contains_key(key.key_encoding()),
{
}

/// Recorded session serials never move backwards: whatever serial number an
/// operation carries, the serial recorded for a session afterwards is the
/// old one or the operation's, whichever is larger — so the serial a
/// checkpoint records, and recovery hands back through
/// `FasterKv::continue_session`, is never above the last serial the session
/// truly issued.
pub proof fn lemma_recorded_serials_monotone(store: FasterKv, serial: u64, token: Seq<char>)
    requires
        store.session_serials().contains_key(token),
    ensures
        store.serials_after(serial).contains_key(token),
        store.serials_after(serial)[token] >= store.session_serials()[token],
        store.serials_after(serial)[token] == store.session_serials()[token]
            || store.serials_after(serial)[token] == max64(
            store.session_serials()[token],
            serial,
        ),
{
}

/// The value after a chain of appending merges, each step as `FasterRmw`
/// merges a `String`: the merged string's characters are the current ones
/// followed by the modification's.
pub open spec fn apply_appends(initial: Seq<char>, mods: Seq<Seq<char>>) -> Seq<char>
    decreases mods.len(),
{
    if mods.len() == 0 {
        initial
    } else {
        apply_appends(initial, mods.drop_last()) + mods.last()
    }
}

/// Growing-value read-modify-write: repeatedly appending pieces to a string
/// builds exactly the concatenation of the initial value and every piece in
/// order, however the value grows along the way.
pub proof fn lemma_growing_value_rmw(initial: Seq<char>, mods: Seq<Seq<char>>)
    ensures
        apply_appends(initial, mods) == initial + mods.flatten(),
    decreases mods.len(),
{
    mods.lemma_flatten_and_flatten_alt_are_equivalent();
    if mods.len() == 0 {
        assert(apply_appends(initial, mods) =~= initial + mods.flatten());
    } else {
        lemma_growing_value_rmw(initial, mods.drop_last());
        mods.drop_last().lemma_flatten_and_flatten_alt_are_equivalent();
        assert(apply_appends(initial, mods) =~= initial + mods.flatten());
    }
}

/// One additive merge step, as a fold operator.
pub open spec fn merge_step() -> spec_fn(u64, u64) -> u64 {
    |acc: u64, m: u64| vstd::wrapping::u64_specs::wrapping_add(acc, m)
}

/// A chain of additive merges is the left fold of the merge step over the
/// modifications.
pub proof fn lemma_apply_rmws_is_fold(initial: u64, mods: Seq<u64>)
    ensures
        apply_rmws(initial, mods) == mods.fold_left(initial, merge_step()),
    decreases mods.len(),
{
    if mods.len() > 0 {
        lemma_apply_rmws_is_fold(initial, mods.drop_last());
    }
}

/// Additive read-modify-writes of arbitrary modifications are
/// interleaving-independent: two interleavings that deliver the same
/// modifications, each the same number of times, leave the same final value.
pub proof fn lemma_rmw_order_independent(initial: u64, mods1: Seq<u64>, mods2: Seq<u64>)
    requires
        mods1.to_multiset() == mods2.to_multiset(),
    ensures
        apply_rmws(initial, mods1) == apply_rmws(initial, mods2),
{
    assert(vstd::seq_lib::commutative_foldl(merge_step())) by {
        let f = merge_step();
        assert forall|x: u64, y: u64, v: u64| #[trigger] f(f(v, x), y) == f(f(v, y), x) by {
            assert(vstd::wrapping::u64_specs::wrapping_add(
                vstd::wrapping::u64_specs::wrapping_add(v, x),
                y,
            ) == vstd::wrapping::u64_specs::wrapping_add(
                vstd::wrapping::u64_specs::wrapping_add(v, y),
                x,
            ));
        }
    }
    lemma_apply_rmws_is_fold(initial, mods1);
    lemma_apply_rmws_is_fold(initial, mods2);
    vstd::seq_lib::lemma_fold_left_permutation(mods1, mods2, merge_step(), initial);
}

} // verus!
