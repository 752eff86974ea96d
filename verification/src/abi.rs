//! The calling convention between the host and a module.
//!
//! Every callable export of a module takes the length and the address of a
//! buffer with the encoded arguments and returns one 64-bit number, which holds
//! the length of the encoded result in its high half and the address in its low
//! half. A buffer belongs to the side that allocated it: the host gives back
//! the buffers it asked the module for, and hands the result to the module's
//! own export for freeing results.

use vstd::prelude::*;
use vstd::slice::slice_subrange;

verus! {

/// What a poll returns while the computation is not done.
pub const PENDING: u64 = 0xffff_ffff_ffff_ffff;

/// The alignment of the buffers that the host asks for.
pub const BUFFER_ALIGN: u32 = 8;

/// The size of a waker slot.
pub const WAKER_SLOT_SIZE: u32 = 8;

/// A length and an address in one number: the length in the high 32 bits.
pub open spec fn spec_pack(len: u32, ptr: u32) -> u64 {
    (len as u64 * 0x1_0000_0000 + ptr as u64) as u64
}

/// Packs a length and an address into one number.
pub fn pack(len: u32, ptr: u32) -> (r: u64)
    ensures
        r == spec_pack(len, ptr),
        r == len as int * 0x1_0000_0000 + ptr as int,
{
    len as u64 * 0x1_0000_0000 + ptr as u64
}

/// The length and the address in a packed number.
pub open spec fn spec_unpack(raw: u64) -> (u32, u32) {
    ((raw / 0x1_0000_0000) as u32, (raw % 0x1_0000_0000) as u32)
}

/// Takes a packed number apart: the length, then the address.
pub fn unpack(raw: u64) -> (r: (u32, u32))
    ensures
        r == spec_unpack(raw),
        spec_pack(r.0, r.1) == raw,
{
    ((raw / 0x1_0000_0000) as u32, (raw % 0x1_0000_0000) as u32)
}

/// Packing and taking apart undo each other.
pub proof fn lemma_pack_unpack(len: u32, ptr: u32)
    ensures
        spec_unpack(spec_pack(len, ptr)) == (len, ptr),
{
}

/// Only the result whose length and address are both the largest there is
/// packs into the number that means "pending".
pub proof fn lemma_pending_is_no_result(len: u32, ptr: u32)
    ensures
        spec_pack(len, ptr) == PENDING <==> len == 0xffff_ffff && ptr == 0xffff_ffff,
{
}

/// What a poll of a future says.
#[derive(Debug, Clone, Copy, PartialEq, Eq, Structural)]
pub enum Polled {
    /// The computation is not done.
    Pending,
    /// The computation is done, and its result lies here.
    Ready { len: u32, ptr: u32 },
}

/// What the number that a poll returned says.
pub open spec fn spec_polled(raw: u64) -> Polled {
    if raw == PENDING {
        Polled::Pending
    } else {
        Polled::Ready { len: spec_unpack(raw).0, ptr: spec_unpack(raw).1 }
    }
}

/// Reads the number that a poll returned.
pub fn polled(raw: u64) -> (r: Polled)
    ensures
        r == spec_polled(raw),
{
    if raw == PENDING {
        Polled::Pending
    } else {
        let (len, ptr) = unpack(raw);
        Polled::Ready { len, ptr }
    }
}

/// The number that a poll returns for what it says: the number that means
/// "pending", or the packed length and address of the result.
pub fn poll_value(state: Polled) -> (r: u64)
    ensures
        r == match state {
            Polled::Pending => PENDING,
            Polled::Ready { len, ptr } => spec_pack(len, ptr),
        },
{
    match state {
        Polled::Pending => PENDING,
        Polled::Ready { len, ptr } => pack(len, ptr),
    }
}

/// What a poll says comes through its number unchanged, but for the one result
/// whose number is the same as "pending".
pub proof fn lemma_poll_round_trip(state: Polled)
    requires
        state != (Polled::Ready { len: 0xffff_ffff, ptr: 0xffff_ffff }),
    ensures
        spec_polled(
            match state {
                Polled::Pending => PENDING,
                Polled::Ready { len, ptr } => spec_pack(len, ptr),
            },
        ) == state,
{
}

/// An address range that does not lie within the memory of the module.
#[derive(Debug, Clone, Copy, PartialEq, Eq, Structural)]
pub struct Fault {
    pub ptr: u32,
    pub len: u64,
}

/// Whether `len` bytes at `ptr` lie within a memory of `size` bytes.
pub open spec fn in_bounds(size: nat, ptr: u32, len: nat) -> bool {
    ptr + len <= size
}

/// The `len` bytes at `ptr` of the memory of a module, or a fault where they do
/// not lie within it.
pub fn mem_slice(memory: &[u8], ptr: u32, len: u32) -> (r: Result<&[u8], Fault>)
    ensures
        r is Ok <==> in_bounds(memory@.len(), ptr, len as nat),
        r matches Ok(bytes) ==> bytes@ == memory@.subrange(ptr as int, ptr + len),
        r matches Err(fault) ==> fault == (Fault { ptr, len: len as u64 }),
{
    let size = memory.len();
    if ptr as u64 + len as u64 <= size as u64 {
        Ok(slice_subrange(memory, ptr as usize, ptr as usize + len as usize))
    } else {
        Err(Fault { ptr, len: len as u64 })
    }
}

/// Copies `data` into the memory of a module at `ptr`, or reports a fault and
/// changes nothing where it does not fit.
pub fn mem_write(memory: &mut Vec<u8>, ptr: u32, data: &[u8]) -> (r: Result<(), Fault>)
    ensures
        r is Ok <==> in_bounds(old(memory)@.len(), ptr, data@.len()),
        r is Ok ==> final(memory)@ == old(memory)@.subrange(0, ptr as int) + data@ + old(
            memory,
        )@.subrange(ptr + data@.len(), old(memory)@.len() as int),
        r matches Err(fault) ==> fault == (Fault { ptr, len: data@.len() as u64 })
            && final(memory)@ == old(memory)@,
{
    let size = memory.len();
    let len = data.len();
    if len > size || ptr as usize > size - len {
        return Err(Fault { ptr, len: len as u64 });
    }
    let start = ptr as usize;
    let mut i: usize = 0;
    while i < len
        invariant
            i <= len,
            len == data@.len(),
            start + len <= size,
            memory@.len() == size,
            size == old(memory)@.len(),
            forall|j: int| 0 <= j < i ==> memory@[start + j] == data@[j],
            forall|j: int| 0 <= j < start ==> memory@[j] == old(memory)@[j],
            forall|j: int| start + i <= j < size ==> memory@[j] == old(memory)@[j],
        decreases len - i,
    {
        memory.set(start + i, data[i]);
        i += 1;
    }
    proof {
        assert(memory@ =~= old(memory)@.subrange(0, ptr as int) + data@ + old(memory)@.subrange(
            ptr + data@.len(),
            old(memory)@.len() as int,
        ));
    }
    Ok(())
}

/// The name of the export behind which an asynchronous method stands.
pub open spec fn async_name(name: Seq<char>) -> Seq<char> {
    name + seq!['_', 'a', 's', 'y', 'n', 'c']
}

/// The name of the export behind which an asynchronous method stands: the name
/// of the method and `_async`.
pub fn async_export_name(name: &str) -> (r: String)
    ensures
        r@ == async_name(name@),
{
    proof {
        reveal_strlit("_async");
        assert("_async"@ =~= seq!['_', 'a', 's', 'y', 'n', 'c']);
    }
    let mut r = name.to_owned();
    vstd::string::StringExecFns::append(&mut r, "_async");
    r
}

} // verus!
