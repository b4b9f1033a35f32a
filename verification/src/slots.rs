//! Key handles issued by `slotmap`, seen by the rest of the library as `u64`
//! values (the crate's own `KeyData::as_ffi` encoding).
use slotmap::{DefaultKey, Key, KeyData, SlotMap};
use vstd::prelude::*;

verus! {

/// The handles of an entity table: a `slotmap::SlotMap` without payload,
/// held opaque and reached only through the functions below, whose contracts
/// describe it by `slot_keys`.
#[verifier::external_body]
pub struct KeySet {
    inner: SlotMap<DefaultKey, ()>,
}

/// A `slotmap::SlotMap` whose payload is an optional handle, held opaque like
/// `KeySet` and described by `slot_links`.
#[verifier::external_body]
pub struct LinkTable {
    inner: SlotMap<DefaultKey, Option<u64>>,
}

/// The handle that `KeyData::from_ffi` followed by `as_ffi` gives back: the
/// version half is forced odd, as every version of an occupied slot is.
pub open spec fn canonical_key(k: u64) -> u64 {
    k | 0x1_0000_0000u64
}

/// The slot index half of a handle.
pub open spec fn key_slot(k: u64) -> u64 {
    k & 0xffff_ffffu64
}

/// The handles of the occupied slots of a slot map without payload.
pub uninterp spec fn slot_keys(m: KeySet) -> Set<u64>;

/// The handles and payloads of the occupied slots of a slot map whose payload
/// is an optional handle.
pub uninterp spec fn slot_links(m: LinkTable) -> Map<u64, Option<u64>>;

/// `SlotMap::with_key`: a slot map with no occupied slot.
#[verifier::external_body]
pub(crate) fn key_set_new() -> (m: KeySet)
    ensures
        slot_keys(m) == Set::<u64>::empty(),
{
    KeySet { inner: SlotMap::with_key() }
}

/// `SlotMap::insert`: occupies a vacant slot (or a new one) and returns its
/// handle, which was not occupied before and has an odd version. It panics
/// only when 2^32 - 1 slots exist, which the bound on the length rules out.
#[verifier::external_body]
pub(crate) fn key_set_insert(m: &mut KeySet) -> (k: u64)
    requires
        slot_keys(*old(m)).finite(),
        slot_keys(*old(m)).len() + 2 < 0x1_0000_0000,
    ensures
        !slot_keys(*old(m)).contains(k),
        slot_keys(*final(m)) == slot_keys(*old(m)).insert(k),
        canonical_key(k) == k,
{
    m.inner.insert(()).data().as_ffi()
}

/// `SlotMap::remove`: frees the slot of the handle, if it is occupied by that
/// exact version (the handle is read through `KeyData::from_ffi`).
#[verifier::external_body]
pub(crate) fn key_set_remove(m: &mut KeySet, k: u64)
    ensures
        slot_keys(*final(m)) == slot_keys(*old(m)).remove(canonical_key(k)),
{
    m.inner.remove(DefaultKey::from(KeyData::from_ffi(k)));
}

/// `SlotMap::contains_key`.
#[verifier::external_body]
pub(crate) fn key_set_contains(m: &KeySet, k: u64) -> (b: bool)
    ensures
        b == slot_keys(*m).contains(canonical_key(k)),
{
    m.inner.contains_key(DefaultKey::from(KeyData::from_ffi(k)))
}

/// `SlotMap::len`.
#[verifier::external_body]
pub(crate) fn key_set_len(m: &KeySet) -> (n: usize)
    ensures
        n == slot_keys(*m).len(),
{
    m.inner.len()
}

/// `SlotMap::keys`: every occupied handle once, in increasing slot order.
#[verifier::external_body]
pub(crate) fn key_set_keys(m: &KeySet) -> (ks: Vec<u64>)
    ensures
        ks@.to_set() == slot_keys(*m),
        ks@.no_duplicates(),
        forall|i: int, j: int|
            0 <= i < j < ks@.len() ==> key_slot(#[trigger] ks@[i]) < key_slot(#[trigger] ks@[j]),
{
    m.inner.keys().map(|k| k.data().as_ffi()).collect()
}

/// `SlotMap::with_key` for the table of deferred handles.
#[verifier::external_body]
pub(crate) fn link_map_new() -> (m: LinkTable)
    ensures
        slot_links(m).dom() == Set::<u64>::empty(),
{
    LinkTable { inner: SlotMap::with_key() }
}

/// `SlotMap::insert` for the table of deferred handles.
#[verifier::external_body]
pub(crate) fn link_map_insert(m: &mut LinkTable, v: Option<u64>) -> (k: u64)
    requires
        slot_links(*old(m)).dom().finite(),
        slot_links(*old(m)).dom().len() + 2 < 0x1_0000_0000,
    ensures
        !slot_links(*old(m)).contains_key(k),
        slot_links(*final(m)) == slot_links(*old(m)).insert(k, v),
        canonical_key(k) == k,
{
    m.inner.insert(v).data().as_ffi()
}

/// `SlotMap::len` for the table of deferred handles.
#[verifier::external_body]
pub(crate) fn link_map_len(m: &LinkTable) -> (n: usize)
    ensures
        n == slot_links(*m).dom().len(),
{
    m.inner.len()
}

/// `SlotMap::get` for the table of deferred handles.
#[verifier::external_body]
pub(crate) fn link_map_get(m: &LinkTable, k: u64) -> (r: Option<Option<u64>>)
    ensures
        r == (if slot_links(*m).contains_key(canonical_key(k)) {
            Some(slot_links(*m)[canonical_key(k)])
        } else {
            None
        }),
{
    m.inner.get(DefaultKey::from(KeyData::from_ffi(k))).copied()
}

/// `SlotMap::get_mut` for the table of deferred handles, writing `v` through
/// the reference when the handle is occupied; tells whether it was.
#[verifier::external_body]
pub(crate) fn link_map_set(m: &mut LinkTable, k: u64, v: Option<u64>) -> (found: bool)
    ensures
        found == slot_links(*old(m)).contains_key(canonical_key(k)),
        slot_links(*final(m)) == (if found {
            slot_links(*old(m)).insert(canonical_key(k), v)
        } else {
            slot_links(*old(m))
        }),
{
    match m.inner.get_mut(DefaultKey::from(KeyData::from_ffi(k))) {
        Some(slot) => {
            *slot = v;
            true
        },
        None => false,
    }
}

/// `SlotMap::clear` for the table of deferred handles.
#[verifier::external_body]
pub(crate) fn link_map_clear(m: &mut LinkTable)
    ensures
        slot_links(*final(m)).dom() == Set::<u64>::empty(),
{
    m.inner.clear()
}

/// Canonicalising a handle twice changes nothing.
pub proof fn lemma_canonical_idempotent(k: u64)
    ensures
        canonical_key(canonical_key(k)) == canonical_key(k),
{
    assert((k | 0x1_0000_0000u64) | 0x1_0000_0000u64 == k | 0x1_0000_0000u64) by (bit_vector);
}

} // verus!
