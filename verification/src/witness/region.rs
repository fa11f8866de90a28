//! The linear memory of a module instance, as the runtime gives it: what is
//! taken on trust about reading and writing it.
//!
//! A region is reached through a `Memory` handle and the store that the
//! handle was made in. The contracts here speak of the bytes of the region as
//! the handle names them; they hold as long as the region is changed through
//! that handle alone between two calls.

use std::sync::Arc;
use std::sync::RwLock;
use vstd::prelude::*;
use wasmer::Memory;
use wasmer::MemoryAccessError;
use wasmer::Store;

verus! {

/// `wasmer::Memory`: the handle of a region. Opaque here.
#[verifier::external_type_specification]
#[verifier::external_body]
pub struct ExMemory(Memory);

/// `wasmer::Store`: what holds the objects of a runtime. Opaque here.
#[verifier::external_type_specification]
#[verifier::external_body]
pub struct ExStore(Store);

/// `wasmer::MemoryAccessError`: why a read or a write failed. Opaque here.
#[verifier::external_type_specification]
#[verifier::external_body]
pub struct ExMemoryAccessError(MemoryAccessError);

/// `std::sync::RwLock`: the lock around a store. Opaque here.
#[verifier::external_type_specification]
#[verifier::external_body]
#[verifier::reject_recursive_types(T)]
pub struct ExRwLock<T: ?Sized>(RwLock<T>);

/// The bytes of the region that `memory` names. The region keeps its length;
/// its bytes change where `region_write` says so.
pub uninterp spec fn region_bytes(memory: Memory) -> Seq<u8>;

/// Whether `memory` was made in `store`, so that the store can open it.
pub uninterp spec fn region_in_store(store: Arc<RwLock<Store>>, memory: Memory) -> bool;

/// `Memory::is_from_store`: whether the handle belongs to the store.
#[verifier::external_body]
pub(crate) fn region_belongs(store: &Arc<RwLock<Store>>, memory: &Memory) -> (r: bool)
    ensures
        r == region_in_store(*store, *memory),
{
    let guard = match store.read() {
        Ok(guard) => guard,
        Err(poisoned) => poisoned.into_inner(),
    };
    memory.is_from_store(&*guard)
}

/// `MemoryView::data_size`: the number of bytes of the region. The handle
/// belongs to the store; `Memory::view` panics where it does not.
#[verifier::external_body]
pub(crate) fn region_size(store: &Arc<RwLock<Store>>, memory: &Memory) -> (r: usize)
    requires
        region_in_store(*store, *memory),
    ensures
        r == region_bytes(*memory).len(),
{
    let guard = match store.read() {
        Ok(guard) => guard,
        Err(poisoned) => poisoned.into_inner(),
    };
    memory.view(&*guard).data_size() as usize
}

/// `MemoryView::read`: fills a buffer of `len` bytes from offset `ptr`, or
/// fails if the range leaves the region. The buffer is no longer than the
/// region.
#[verifier::external_body]
pub(crate) fn region_read(store: &Arc<RwLock<Store>>, memory: &Memory, ptr: usize, len: usize) -> (r:
    Result<Vec<u8>, MemoryAccessError>)
    requires
        region_in_store(*store, *memory),
        len <= region_bytes(*memory).len(),
    ensures
        match r {
            Ok(data) => ptr + len <= region_bytes(*memory).len() && data@ == region_bytes(
                *memory,
            ).subrange(ptr as int, ptr + len),
            Err(_) => ptr + len > region_bytes(*memory).len(),
        },
{
    let guard = match store.read() {
        Ok(guard) => guard,
        Err(poisoned) => poisoned.into_inner(),
    };
    let mut data = vec![0u8; len];
    memory.view(&*guard).read(ptr as u64, &mut data)?;
    Ok(data)
}

/// `MemoryView::write`: copies `data` into the region from offset `ptr` on,
/// or fails, with nothing written, if the range leaves the region.
#[verifier::external_body]
pub(crate) fn region_write(
    store: &Arc<RwLock<Store>>,
    memory: &mut Memory,
    ptr: usize,
    data: &Vec<u8>,
) -> (r: Result<(), MemoryAccessError>)
    requires
        region_in_store(*store, *old(memory)),
    ensures
        region_in_store(*store, *final(memory)),
        match r {
            Ok(_) => ptr + data@.len() <= region_bytes(*old(memory)).len() && region_bytes(
                *final(memory),
            ) == region_bytes(*old(memory)).subrange(0, ptr as int) + data@ + region_bytes(
                *old(memory),
            ).subrange(ptr + data@.len(), region_bytes(*old(memory)).len() as int),
            Err(_) => ptr + data@.len() > region_bytes(*old(memory)).len() && region_bytes(
                *final(memory),
            ) == region_bytes(*old(memory)),
        },
{
    let guard = match store.read() {
        Ok(guard) => guard,
        Err(poisoned) => poisoned.into_inner(),
    };
    memory.view(&*guard).write(ptr as u64, data)
}

} // verus!
