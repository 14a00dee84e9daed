//! The slot maps that hold a world's units and tasks.
//!
//! A `slotmap::SlotMap` hands out keys of type `DefaultKey`; the library
//! speaks of a key by its 64-bit form (`KeyData::as_ffi`): the slot's
//! version in the high 32 bits, its index in the low 32 bits. A live key's
//! version is always odd.
use slotmap::{DefaultKey, Key, KeyData, SlotMap};
use vstd::prelude::*;

use crate::unit::{Task, Unit, UnitID};

verus! {

/// A `slotmap::SlotMap` keyed by `DefaultKey`, held in a private field that
/// only the functions of this module touch.
#[verifier::external_body]
#[verifier::reject_recursive_types(V)]
pub struct Slots<V> {
    map: SlotMap<DefaultKey, V>,
}

/// The 64-bit form of a key that a slot map can hand out: its version (the
/// high half) is odd.
pub open spec fn live_key(k: u64) -> bool {
    (k / 0x1_0000_0000) % 2 == 1
}

/// The key that `KeyData::from_ffi` makes of `k`, in 64-bit form: the
/// version is made odd by setting its lowest bit.
pub open spec fn canonical_key(k: u64) -> u64 {
    if live_key(k) {
        k
    } else {
        (k + 0x1_0000_0000) as u64
    }
}

/// The slot index of a key in 64-bit form.
pub open spec fn slot_index(k: u64) -> u64 {
    k % 0x1_0000_0000
}

/// What a slot map of units holds: each occupied slot's key, in 64-bit form,
/// mapped to its unit.
pub uninterp spec fn unit_slots(m: Slots<Unit>) -> Map<u64, Unit>;

/// How many slots a slot map of units has made so far, vacant ones included
/// (the sentinel slot not counted). A slot map panics when asked to make
/// slot number `u32::MAX`.
pub uninterp spec fn unit_slot_count(m: Slots<Unit>) -> nat;

/// What a slot map of tasks holds, keyed as in `unit_slots`.
pub uninterp spec fn task_slots(m: Slots<Task>) -> Map<u64, Task>;

/// How many slots a slot map of tasks has made so far, as in `unit_slot_count`.
pub uninterp spec fn task_slot_count(m: Slots<Task>) -> nat;

/// `SlotMap::with_key`: a map with no slots but its sentinel.
#[verifier::external_body]
pub(crate) fn units_new() -> (m: Slots<Unit>)
    ensures
        unit_slots(m).dom() == Set::<u64>::empty(),
        unit_slot_count(m) == 0,
{
    Slots { map: SlotMap::with_key() }
}

/// `SlotMap::insert`: stores `value` in the first slot of the free list, or
/// in a new slot when the free list is empty, and returns its key, whose
/// version is odd. The key was not live before. When every slot is
/// occupied, the new slot comes after all of them. Occupied slots are never
/// the sentinel (index 0) and never beyond the slots made. Making a new slot when
/// there are already `u32::MAX - 1` of them panics, which `requires` rules out.
#[verifier::external_body]
pub(crate) fn units_insert(m: &mut Slots<Unit>, value: Unit) -> (k: u64)
    requires
        unit_slot_count(*old(m)) + 1 < 0xFFFF_FFFF,
    ensures
        live_key(k),
        !unit_slots(*old(m)).contains_key(k),
        unit_slots(*final(m)) == unit_slots(*old(m)).insert(k, value),
        unit_slot_count(*final(m)) <= unit_slot_count(*old(m)) + 1,
        unit_slots(*old(m)).len() == unit_slot_count(*old(m)) ==> unit_slot_count(*final(m))
            == unit_slot_count(*old(m)) + 1,
        unit_slots(*old(m)).len() == unit_slot_count(*old(m)) ==> slot_index(k) == unit_slot_count(
            *old(m),
        ) + 1,
        forall|j: u64| #[trigger]
            unit_slots(*final(m)).contains_key(j) ==> 1 <= slot_index(j) <= unit_slot_count(
                *final(m),
            ),
{
    m.map.insert(value).data().as_ffi()
}

/// `SlotMap::get` with the key `KeyData::from_ffi(k)`: the unit in the slot
/// that key names, if the slot holds that version.
#[verifier::external_body]
pub(crate) fn units_get(m: &Slots<Unit>, k: u64) -> (r: Option<&Unit>)
    ensures
        r is Some <==> unit_slots(*m).contains_key(canonical_key(k)),
        r is Some ==> *r.unwrap() == unit_slots(*m)[canonical_key(k)],
{
    m.map.get(KeyData::from_ffi(k).into())
}

/// `SlotMap::get_mut` with the key `KeyData::from_ffi(k)`: a mutable borrow of
/// the unit that key names; what is written through it is what the map
/// holds afterwards under that key.
#[verifier::external_body]
pub(crate) fn units_get_mut<'a>(m: &'a mut Slots<Unit>, k: u64) -> (r: Option<
    &'a mut Unit,
>)
    ensures
        r is Some <==> unit_slots(*old(m)).contains_key(canonical_key(k)),
        r is None ==> *final(m) == *old(m),
        r is Some ==> *r.unwrap() == unit_slots(*old(m))[canonical_key(k)] && unit_slots(*final(m))
            == unit_slots(*old(m)).insert(canonical_key(k), *final(r.unwrap()))
            && unit_slot_count(*final(m)) == unit_slot_count(*old(m)),
{
    m.map.get_mut(KeyData::from_ffi(k).into())
}

/// `SlotMap::len`: the number of occupied slots.
#[verifier::external_body]
pub(crate) fn units_len(m: &Slots<Unit>) -> (n: usize)
    ensures
        n == unit_slots(*m).len(),
{
    m.map.len()
}

/// `SlotMap::keys`: the keys of the occupied slots, by ascending slot index;
/// an occupied slot's version is odd, so each key is live.
#[verifier::external_body]
pub(crate) fn units_keys(m: &Slots<Unit>) -> (ks: Vec<u64>)
    ensures
        forall|i: int| 0 <= i < ks.len() ==> unit_slots(*m).contains_key(#[trigger] ks[i]),
        forall|i: int| 0 <= i < ks.len() ==> live_key(#[trigger] ks[i]),
        forall|k: u64| unit_slots(*m).contains_key(k) ==> ks@.contains(k),
        forall|i: int, j: int|
            0 <= i < j < ks.len() ==> slot_index(#[trigger] ks[i]) < slot_index(#[trigger] ks[j]),
{
    m.map.keys().map(|k| k.data().as_ffi()).collect()
}

/// `SlotMap::with_key`, for tasks.
#[verifier::external_body]
pub(crate) fn tasks_new() -> (m: Slots<Task>)
    ensures
        task_slots(m).dom() == Set::<u64>::empty(),
        task_slot_count(m) == 0,
{
    Slots { map: SlotMap::with_key() }
}

/// `SlotMap::insert`, for tasks; as `units_insert` says.
#[verifier::external_body]
pub(crate) fn tasks_insert(m: &mut Slots<Task>, value: Task) -> (k: u64)
    requires
        task_slot_count(*old(m)) + 1 < 0xFFFF_FFFF,
    ensures
        live_key(k),
        !task_slots(*old(m)).contains_key(k),
        task_slots(*final(m)) == task_slots(*old(m)).insert(k, value),
        task_slot_count(*final(m)) <= task_slot_count(*old(m)) + 1,
        task_slots(*old(m)).len() == task_slot_count(*old(m)) ==> task_slot_count(*final(m))
            == task_slot_count(*old(m)) + 1,
{
    m.map.insert(value).data().as_ffi()
}

/// `SlotMap::len`, for tasks.
#[verifier::external_body]
pub(crate) fn tasks_len(m: &Slots<Task>) -> (n: usize)
    ensures
        n == task_slots(*m).len(),
{
    m.map.len()
}

/// `SlotMap::get`, for tasks; as `units_get` says.
#[verifier::external_body]
pub(crate) fn tasks_get(m: &Slots<Task>, k: u64) -> (r: Option<&Task>)
    ensures
        r is Some <==> task_slots(*m).contains_key(canonical_key(k)),
        r is Some ==> *r.unwrap() == task_slots(*m)[canonical_key(k)],
{
    m.map.get(KeyData::from_ffi(k).into())
}

impl Slots<Unit> {
    /// How many units the map holds.
    pub fn len(&self) -> (n: usize)
        ensures
            n == unit_slots(*self).len(),
    {
        units_len(self)
    }

    /// Whether the map holds the unit that `id` names.
    pub fn contains_key(&self, id: UnitID) -> (b: bool)
        ensures
            b == unit_slots(*self).contains_key(id.key()),
    {
        units_get(self, id.ffi()).is_some()
    }

    /// The unit that `id` names, if the map holds it.
    pub fn get(&self, id: UnitID) -> (r: Option<&Unit>)
        ensures
            r is Some <==> unit_slots(*self).contains_key(id.key()),
            r is Some ==> *r.unwrap() == unit_slots(*self)[id.key()],
    {
        units_get(self, id.ffi())
    }

    /// The ids of all units the map holds, by ascending slot index.
    pub fn keys(&self) -> (ids: Vec<UnitID>)
        ensures
            forall|i: int| 0 <= i < ids.len() ==> unit_slots(*self).contains_key(#[trigger] ids[i].key()),
            forall|k: u64| unit_slots(*self).contains_key(k) ==> exists|i: int|
                0 <= i < ids.len() && #[trigger] ids[i].key() == k,
            forall|i: int, j: int|
                0 <= i < j < ids.len() ==> slot_index(#[trigger] ids[i].key()) < slot_index(
                    #[trigger] ids[j].key(),
                ),
    {
        let keys = units_keys(self);
        let mut ids: Vec<UnitID> = Vec::new();
        let mut i: usize = 0;
        while i < keys.len()
            invariant
                0 <= i <= keys.len(),
                ids.len() == i,
                forall|j: int| 0 <= j < keys.len() ==> live_key(#[trigger] keys[j]),
                forall|j: int| 0 <= j < i ==> #[trigger] ids[j].key() == keys[j],
            decreases keys.len() - i,
        {
            ids.push(UnitID::from_key(keys[i]));
            i = i + 1;
        }
        proof {
            assert forall|k: u64| unit_slots(*self).contains_key(k) implies exists|i: int|
                0 <= i < ids.len() && #[trigger] ids[i].key() == k by {
                assert(keys@.contains(k));
                let j = choose|j: int| 0 <= j < keys@.len() && keys@[j] == k;
                assert(ids[j].key() == keys[j]);
            }
        }
        ids
    }
}

} // verus!
