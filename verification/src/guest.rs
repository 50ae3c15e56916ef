//! What the library takes from `vm_memory`: little-endian integers and the
//! memory of the guest.

use vm_memory::{Address, Bytes, GuestAddress, GuestMemoryMmap, Le32, Le64};
use vstd::prelude::*;
use vstd::std_specs::convert::FromSpec;

verus! {

#[verifier::external_type_specification]
#[verifier::external_body]
pub struct ExLe32(vm_memory::Le32);

#[verifier::external_type_specification]
#[verifier::external_body]
pub struct ExLe64(vm_memory::Le64);

#[verifier::external_type_specification]
#[verifier::external_body]
#[verifier::reject_recursive_types(B)]
pub struct ExGuestMemoryMmap<B>(vm_memory::GuestMemoryMmap<B>);

#[verifier::external_type_specification]
#[verifier::external_body]
pub struct ExGuestMemoryError(vm_memory::GuestMemoryError);

#[verifier::external_type_specification]
#[verifier::external_body]
#[verifier::reject_recursive_types(B)]
pub struct ExVolatileSlice<'a, B>(vm_memory::VolatileSlice<'a, B>);

/// The number that a little-endian field stands for: what converting it to a
/// native integer gives.
pub open spec fn le32(field: Le32) -> u32 {
    <u32 as FromSpec<Le32>>::from_spec(field)
}

/// The number that a little-endian field stands for: what converting it to a
/// native integer gives.
pub open spec fn le64(field: Le64) -> u64 {
    <u64 as FromSpec<Le64>>::from_spec(field)
}

/// Calls `vm_memory::Le32`'s `From<u32>`. Claimed of it: the field that it
/// makes stands for the number that it was given, whatever the byte order of
/// the machine.
#[verifier::external_body]
pub(crate) fn le32_from_native(value: u32) -> (field: Le32)
    ensures
        le32(field) == value,
{
    Le32::from(value)
}

/// Calls `vm_memory::Le64`'s `From<u64>`. Claimed of it: the field that it
/// makes stands for the number that it was given, whatever the byte order of
/// the machine.
#[verifier::external_body]
pub(crate) fn le64_from_native(value: u64) -> (field: Le64)
    ensures
        le64(field) == value,
{
    Le64::from(value)
}

/// Calls `u64`'s `From<vm_memory::Le64>`. Claimed of it: it gives the number
/// that the field stands for.
#[verifier::external_body]
pub(crate) fn native_from_le64(field: Le64) -> (value: u64)
    ensures
        value == le64(field),
{
    u64::from(field)
}

/// The guest addresses that lie in some region of `memory`.
pub uninterp spec fn mapped(memory: GuestMemoryMmap<()>) -> Set<u64>;

/// The pairs of a guest address and a byte that `memory` has held at that
/// address at some time.
pub uninterp spec fn held(memory: GuestMemoryMmap<()>) -> Set<(u64, u8)>;

/// Is `addr` an address at all, and one of `mapping`?
pub open spec fn is_mapped(mapping: Set<u64>, addr: int) -> bool {
    0 <= addr <= u64::MAX && mapping.contains(addr as u64)
}

/// Calls `checked_add` of `vm_memory::GuestAddress` (trait `Address`). Claimed
/// of it: it gives the sum where the sum is an address, and nothing where it
/// overflows.
#[verifier::external_body]
pub(crate) fn guest_address_add(addr: u64, offset: u64) -> (sum: Option<u64>)
    ensures
        sum == (if addr + offset <= u64::MAX {
            Some((addr + offset) as u64)
        } else {
            None
        }),
{
    GuestAddress(addr).checked_add(offset).map(|sum| sum.0)
}

/// Calls `read` of `vm_memory::GuestMemoryMmap` (trait `Bytes<GuestAddress>`)
/// on `buf[start..end]`. Claimed of it: it fails, and leaves the buffer alone,
/// exactly where `addr` lies in no region; else it fills the range from its
/// front with one byte for each address from `addr` on, up to the end of the
/// range or the first address that lies in no region, and gives their number.
/// Each byte is one that the memory has held at its address. The guest may
/// change its memory at any time, so nothing is claimed of when that was.
#[verifier::external_body]
pub(crate) fn guest_read(
    memory: &GuestMemoryMmap<()>,
    buf: &mut [u8],
    start: usize,
    end: usize,
    addr: u64,
) -> (count: Result<usize, vm_memory::GuestMemoryError>)
    requires
        start <= end <= old(buf)@.len(),
    ensures
        final(buf)@.len() == old(buf)@.len(),
        count is Ok <==> is_mapped(mapped(*memory), addr as int),
        count is Err ==> final(buf)@ == old(buf)@,
        count matches Ok(n) ==> {
            &&& n <= end - start
            &&& forall|i: int| 0 <= i < n ==> #[trigger] is_mapped(mapped(*memory), addr + i)
            &&& n < end - start ==> !is_mapped(mapped(*memory), addr + n)
            &&& forall|j: int|
                start <= j < start + n ==> held(*memory).contains(
                    ((addr + (j - start)) as u64, #[trigger] final(buf)@[j]),
                )
            &&& forall|j: int|
                0 <= j < old(buf)@.len() && !(start <= j < start + n) ==> final(buf)@[j] == old(
                    buf,
                )@[j]
        },
{
    memory.read(&mut buf[start..end], GuestAddress(addr))
}

} // verus!
