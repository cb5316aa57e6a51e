//! Trusted bindings to the host's durable storage.
//!
//! The host provides a single linear persistent byte space.  A
//! [`RegionAllocator`] partitions it into independently growable regions
//! named by small integer ids; a [`IdCell`] keeps one durable 64-bit value
//! in a region; a [`ByteMap`] keeps an ordered durable map from 64-bit keys
//! to byte blobs in a region.  Every function here wraps one call into
//! `ic_stable_structures`, and its contract states what that crate's source
//! shows; nothing in this module is verified.
//!
//! A region id names the same storage on every lookup, so the caller must
//! dedicate each region to at most one cell or map; the allocator's contract
//! refuses a second handle to an id it has already handed out, and
//! surrenders the emptiness claim for an id once its handle exists.  What
//! no contract here can rule out is two allocators over one shared backing
//! space, as a host with a single persistent memory permits: their handles
//! alias each other's storage, and nothing verified holds across that
//! aliasing — a process must build one allocator and draw every region
//! from it.

use ic_stable_structures::memory_manager::MemoryId;
use ic_stable_structures::memory_manager::MemoryManager;
use ic_stable_structures::memory_manager::VirtualMemory;
use ic_stable_structures::DefaultMemoryImpl;
use ic_stable_structures::Memory;
use vstd::prelude::*;

verus! {

/// Owns the host's persistent byte space and partitions it into regions.
#[verifier::external_body]
pub struct RegionAllocator {
    manager: MemoryManager<DefaultMemoryImpl>,
}

/// An exclusive handle to one region of the persistent byte space.
#[verifier::external_body]
pub struct Region {
    memory: VirtualMemory<DefaultMemoryImpl>,
}

/// A durable cell holding one 64-bit integer inside one region.
#[verifier::external_body]
pub struct IdCell {
    cell: ic_stable_structures::cell::Cell<u64, VirtualMemory<DefaultMemoryImpl>>,
}

/// An ordered durable map from 64-bit keys to byte blobs inside one region.
#[verifier::external_body]
pub struct ByteMap {
    map: ic_stable_structures::StableBTreeMap<u64, Vec<u8>, VirtualMemory<DefaultMemoryImpl>>,
}

/// The region ids whose storage has never been handed out nor written.
pub uninterp spec fn fresh_region_ids(a: RegionAllocator) -> Set<u8>;

/// The region ids for which this allocator has already produced a handle.
pub uninterp spec fn handed_out_ids(a: RegionAllocator) -> Set<u8>;

/// Whether the region held no data when its handle was produced.
pub uninterp spec fn region_is_empty(r: Region) -> bool;

/// The integer currently held (and persisted) by the cell.
pub uninterp spec fn cell_value(c: IdCell) -> u64;

/// The entries currently held (and persisted) by the map.
pub uninterp spec fn map_entries(m: ByteMap) -> Map<u64, Seq<u8>>;

/// The contents of a map that holds nothing.
pub open spec fn no_entries() -> Map<u64, Seq<u8>> {
    Map::empty()
}

/// Relies on MemoryManager::init over a default backing space that is
/// checked to hold no data, so every region of it is empty.  On a host
/// whose default backing is persistent and already written (a reloaded
/// process image), the check fails and nothing is produced: use
/// [`open_region_allocator`] to take over an existing space.
#[verifier::external_body]
pub fn new_region_allocator() -> (a: Option<RegionAllocator>)
    ensures
        a matches Some(al) ==> (forall|id: u8| fresh_region_ids(al).contains(id))
            && handed_out_ids(al) == Set::<u8>::empty(),
{
    let memory = DefaultMemoryImpl::default();
    if memory.size() == 0 {
        Some(RegionAllocator { manager: MemoryManager::init(memory) })
    } else {
        None
    }
}

/// Relies on MemoryManager::init loading the region layout persisted in
/// the default backing space, or laying out a fresh one if the space is
/// empty.  Nothing is claimed about the regions' contents: a table opened
/// over them must read back and check what they hold.
#[verifier::external_body]
pub fn open_region_allocator() -> (a: RegionAllocator)
    ensures
        handed_out_ids(a) == Set::<u8>::empty(),
{
    RegionAllocator { manager: MemoryManager::init(DefaultMemoryImpl::default()) }
}

/// Relies on MemoryManager::get handing out the sub-space named by the id
/// (the id 255 is reserved by the manager, which refuses it).  The same id
/// names the same storage on every call, so each id may be asked of this
/// allocator only once, and the emptiness claim for it is given up at that
/// point.
#[verifier::external_body]
pub fn region(a: &mut RegionAllocator, id: u8) -> (r: Region)
    requires
        id != 255,
        !handed_out_ids(*old(a)).contains(id),
    ensures
        handed_out_ids(*final(a)) == handed_out_ids(*old(a)).insert(id),
        fresh_region_ids(*final(a)) == fresh_region_ids(*old(a)).remove(id),
        fresh_region_ids(*old(a)).contains(id) ==> region_is_empty(r),
{
    Region { memory: a.manager.get(MemoryId::new(id)) }
}

/// Relies on Cell::init: over an empty region the cell starts at the given
/// default of zero; over a region already written by a cell it decodes the
/// persisted value.  A region whose header is not a cell's is silently
/// re-initialized to the default; only a cell of an unsupported layout
/// version makes the host abort.
#[verifier::external_body]
pub fn id_cell_init(r: Region) -> (c: IdCell)
    ensures
        region_is_empty(r) ==> cell_value(c) == 0,
{
    IdCell { cell: ic_stable_structures::cell::Cell::init(r.memory, 0) }
}

/// Relies on Cell::get returning the value the cell holds.
#[verifier::external_body]
pub fn id_cell_get(c: &IdCell) -> (v: u64)
    ensures
        v == cell_value(*c),
{
    *c.cell.get()
}

/// Relies on Cell::set writing the value through to the region before
/// returning control.
#[verifier::external_body]
pub fn id_cell_set(c: &mut IdCell, v: u64)
    ensures
        cell_value(*final(c)) == v,
{
    let _ = c.cell.set(v);
}

/// Re-initializes the cell from the region it occupies, as a process
/// restart would.  Relies on Cell::set persisting every write and on
/// Cell::init decoding what was last persisted.
#[verifier::external_body]
pub fn id_cell_reopen(c: IdCell) -> (r: IdCell)
    ensures
        cell_value(r) == cell_value(c),
{
    IdCell { cell: ic_stable_structures::cell::Cell::init(c.cell.into_memory(), 0) }
}

/// Relies on BTreeMap::init: over an empty region the map starts empty;
/// over a region already written by a map it loads the persisted entries.
/// A region whose header is not a map's is silently overwritten with a
/// fresh empty map; only a map of an unsupported layout version makes the
/// host abort.
#[verifier::external_body]
pub fn byte_map_init(r: Region) -> (m: ByteMap)
    ensures
        region_is_empty(r) ==> map_entries(m) == no_entries(),
        map_entries(m).dom().finite(),
{
    ByteMap { map: ic_stable_structures::StableBTreeMap::init(r.memory) }
}

/// Relies on BTreeMap::get: the value stored under the key, if any.
#[verifier::external_body]
pub fn byte_map_get(m: &ByteMap, key: u64) -> (r: Option<Vec<u8>>)
    ensures
        match r {
            Some(v) => map_entries(*m).contains_key(key) && v@ == map_entries(*m)[key],
            None => !map_entries(*m).contains_key(key),
        },
{
    m.map.get(&key)
}

/// Relies on BTreeMap::insert: creates the entry if absent, overwrites it
/// if present, and returns the prior value.
#[verifier::external_body]
pub fn byte_map_insert(m: &mut ByteMap, key: u64, value: Vec<u8>) -> (prev: Option<Vec<u8>>)
    ensures
        map_entries(*final(m)) == map_entries(*old(m)).insert(key, value@),
        match prev {
            Some(v) => map_entries(*old(m)).contains_key(key) && v@ == map_entries(*old(m))[key],
            None => !map_entries(*old(m)).contains_key(key),
        },
{
    m.map.insert(key, value)
}

/// Relies on BTreeMap::remove: deletes the entry and returns the prior
/// value.
#[verifier::external_body]
pub fn byte_map_remove(m: &mut ByteMap, key: u64) -> (prev: Option<Vec<u8>>)
    ensures
        map_entries(*final(m)) == map_entries(*old(m)).remove(key),
        match prev {
            Some(v) => map_entries(*old(m)).contains_key(key) && v@ == map_entries(*old(m))[key],
            None => !map_entries(*old(m)).contains_key(key),
        },
{
    m.map.remove(&key)
}

/// Relies on BTreeMap::iter visiting exactly the stored entries in
/// ascending key order.
#[verifier::external_body]
pub fn byte_map_iterate(m: &ByteMap) -> (r: Vec<(u64, Vec<u8>)>)
    ensures
        r@.len() == map_entries(*m).len(),
        forall|i: int|
            0 <= i < r@.len() ==> map_entries(*m).contains_key((#[trigger] r@[i]).0) && r@[i].1@
                == map_entries(*m)[r@[i].0],
        forall|i: int, j: int|
            #![trigger r@[i], r@[j]]
            0 <= i < j < r@.len() ==> r@[i].0 < r@[j].0,
        forall|k: u64|
            #[trigger] map_entries(*m).contains_key(k) ==> exists|i: int|
                0 <= i < r@.len() && (#[trigger] r@[i]).0 == k,
{
    let mut out = Vec::new();
    for e in m.map.iter() {
        out.push(e.into_pair());
    }
    out
}

} // verus!
