use std::sync::Arc;

use vhost_user_sound::stream::{Error, Request};
use vhost_user_sound::{Descriptor, IOMessage};
use vm_memory::{Bytes, GuestAddress, GuestMemoryMmap};

const BASE: u64 = 0x1000;

/// Two regions side by side, and one further off; the byte at an address is
/// the low byte of the address, plus the byte above it.
fn memory() -> GuestMemoryMmap<()> {
    let memory = GuestMemoryMmap::<()>::from_ranges(&[
        (GuestAddress(BASE), 0x1000),
        (GuestAddress(BASE + 0x1000), 0x1000),
        (GuestAddress(0x8000), 0x1000),
    ])
    .unwrap();
    for addr in (BASE..BASE + 0x2000).chain(0x8000..0x9000) {
        memory.write_slice(&[byte(addr)], GuestAddress(addr)).unwrap();
    }
    memory
}

fn byte(addr: u64) -> u8 {
    (addr as u8).wrapping_add((addr >> 8) as u8)
}

fn bytes(addr: u64, len: u64) -> Vec<u8> {
    (addr..addr + len).map(byte).collect()
}

fn message(descriptors: &[(u64, u32)], memory: GuestMemoryMmap<()>) -> Arc<IOMessage> {
    let descriptors = descriptors.iter().map(|&(addr, len)| Descriptor { addr, len }).collect();
    Arc::new(IOMessage { descriptors, memory })
}

/// The status descriptor at the end of a chain.
const STATUS: (u64, u32) = (0x8ff0, 8);

fn request(descriptors: &[(u64, u32)]) -> Request {
    Request::new(64, message(descriptors, memory()))
}

/// A request whose descriptors have these contents, one behind the other in
/// the memory.
fn request_of(contents: &[&[u8]], len: usize) -> Request {
    let memory = memory();
    let mut addr = BASE;
    let mut chain = Vec::new();
    for bytes in contents {
        memory.write_slice(bytes, GuestAddress(addr)).unwrap();
        chain.push((addr, bytes.len() as u32));
        addr += bytes.len() as u64 + 5;
    }
    Request::new(len, message(&chain, memory))
}

#[test]
fn new_request_is_at_the_start_of_its_payload() {
    let request = request(&[(BASE, 4), (BASE + 0x10, 8), STATUS]);
    assert_eq!(request.len, 64);
    assert_eq!(request.pos, 0);
    assert_eq!((request.idx_curr_desc, request.pos_curr_desc), (1, 0));
}

#[test]
fn consumes_one_descriptor() {
    let mut request = request(&[(BASE, 4), (BASE + 0x123, 8), (BASE + 0x200, 4), STATUS]);
    let mut buf = [0xeeu8; 8];
    assert_eq!(request.consume(&mut buf), Ok(8));
    assert_eq!(buf.to_vec(), bytes(BASE + 0x123, 8));
    assert_eq!((request.idx_curr_desc, request.pos_curr_desc), (2, 0));
    assert_eq!((request.len, request.pos), (64, 0));
}

#[test]
fn goes_on_where_it_stopped() {
    let mut request = request(&[(BASE, 4), (BASE + 0x100, 10), (0x8000, 6), STATUS]);
    let mut all = Vec::new();
    for size in [3usize, 4, 5, 4] {
        let mut buf = vec![0u8; size];
        assert_eq!(request.consume(&mut buf), Ok(size as u32));
        all.extend(buf);
    }
    let mut expected = bytes(BASE + 0x100, 10);
    expected.extend(bytes(0x8000, 6));
    assert_eq!(all, expected);
}

#[test]
fn two_reads_end_as_one_does() {
    let chain = [(BASE, 4), (BASE + 0x100, 10), (0x8000, 6), (0x8100, 9), STATUS];
    let mut one = request(&chain);
    let mut two = request(&chain);
    let mut whole = [0u8; 21];
    assert_eq!(one.consume(&mut whole), Ok(21));
    let mut first = [0u8; 13];
    let mut second = [0u8; 8];
    assert_eq!(two.consume(&mut first), Ok(13));
    assert_eq!(two.consume(&mut second), Ok(8));
    assert_eq!(whole[..13], first);
    assert_eq!(whole[13..], second);
    assert_eq!(one.idx_curr_desc, two.idx_curr_desc);
    assert_eq!(one.pos_curr_desc, two.pos_curr_desc);
}

#[test]
fn stops_at_the_end_of_the_payload() {
    let mut request = request(&[(BASE, 4), (BASE + 0x40, 5), (0x8040, 2), STATUS]);
    let mut buf = [0xeeu8; 12];
    assert_eq!(request.consume(&mut buf), Ok(7));
    let mut expected = bytes(BASE + 0x40, 5);
    expected.extend(bytes(0x8040, 2));
    expected.extend([0xee; 5]);
    assert_eq!(buf.to_vec(), expected);
    assert_eq!(request.consume(&mut buf), Ok(0));
    assert_eq!((request.idx_curr_desc, request.pos_curr_desc), (3, 0));
}

#[test]
fn a_chain_of_a_header_has_no_payload() {
    let mut request = request(&[(BASE, 4)]);
    let mut buf = [0xeeu8; 3];
    assert_eq!(request.consume(&mut buf), Ok(0));
    assert_eq!(buf, [0xee; 3]);
}

#[test]
fn an_empty_buffer_takes_nothing() {
    let mut request = request(&[]);
    let mut buf = [0u8; 0];
    assert_eq!(request.consume(&mut buf), Ok(0));
    assert_eq!((request.idx_curr_desc, request.pos_curr_desc), (1, 0));
}

#[test]
fn empty_descriptors_are_passed_over() {
    let mut request = request(&[(BASE, 4), (BASE, 0), (BASE + 7, 2), (BASE, 0), (0x8000, 2), STATUS]);
    let mut buf = [0u8; 4];
    assert_eq!(request.consume(&mut buf), Ok(4));
    let mut expected = bytes(BASE + 7, 2);
    expected.extend(bytes(0x8000, 2));
    assert_eq!(buf.to_vec(), expected);
}

#[test]
fn an_empty_descriptor_outside_memory_fails() {
    let mut request = request(&[(BASE, 4), (0x10, 0), (BASE + 7, 2), STATUS]);
    let mut buf = [0xeeu8; 2];
    assert_eq!(request.consume(&mut buf), Err(Error::DescriptorReadFailed));
    assert_eq!(buf, [0xee; 2]);
    assert_eq!((request.idx_curr_desc, request.pos_curr_desc), (1, 0));
}

#[test]
fn reads_across_adjacent_regions() {
    let mut request = request(&[(BASE, 4), (BASE + 0xffc, 8), STATUS]);
    let mut buf = [0u8; 8];
    assert_eq!(request.consume(&mut buf), Ok(8));
    assert_eq!(buf.to_vec(), bytes(BASE + 0xffc, 8));
}

#[test]
fn fails_at_an_address_outside_memory() {
    let mut request = request(&[(BASE, 4), (BASE, 2), (0x4000, 8), STATUS]);
    let mut buf = [0xeeu8; 6];
    assert_eq!(request.consume(&mut buf), Err(Error::DescriptorReadFailed));
    let mut expected = bytes(BASE, 2);
    expected.extend([0xee; 4]);
    assert_eq!(buf.to_vec(), expected);
    assert_eq!((request.idx_curr_desc, request.pos_curr_desc), (2, 0));
}

#[test]
fn consumes_what_lies_before_a_hole_and_fails() {
    let mut request = request(&[(BASE, 4), (BASE + 0x1ffd, 8), STATUS]);
    let mut buf = [0xeeu8; 8];
    assert_eq!(request.consume(&mut buf), Err(Error::DescriptorReadFailed));
    let mut expected = bytes(BASE + 0x1ffd, 3);
    expected.extend([0xee; 5]);
    assert_eq!(buf.to_vec(), expected);
    assert_eq!((request.idx_curr_desc, request.pos_curr_desc), (1, 3));
}

#[test]
fn a_failed_request_fails_again() {
    let mut request = request(&[(BASE, 4), (BASE + 0x1ffd, 8), STATUS]);
    let mut buf = [0xeeu8; 8];
    assert!(request.consume(&mut buf).is_err());
    let mut again = [0xeeu8; 1];
    assert_eq!(request.consume(&mut again), Err(Error::DescriptorReadFailed));
    assert_eq!(again, [0xee]);
    assert_eq!((request.idx_curr_desc, request.pos_curr_desc), (1, 3));
}

#[test]
fn fails_where_the_address_overflows() {
    let mut request = request(&[(BASE, 4), (u64::MAX, 4), STATUS]);
    request.pos_curr_desc = 1;
    let mut buf = [0u8; 2];
    assert_eq!(request.consume(&mut buf), Err(Error::DescriptorReadFailed));
    assert_eq!((request.idx_curr_desc, request.pos_curr_desc), (1, 1));
}

#[test]
fn header_and_status_are_not_consumed() {
    let mut one = request(&[(BASE, 4), (BASE + 9, 3), STATUS]);
    let mut two = request(&[(0, 0), (BASE + 9, 3), (0x20, 1)]);
    let (mut a, mut b) = ([0u8; 7], [0u8; 7]);
    assert_eq!(one.consume(&mut a), Ok(3));
    assert_eq!(two.consume(&mut b), Ok(3));
    assert_eq!(a, b);
    assert_eq!(a[..3].to_vec(), bytes(BASE + 9, 3));
    assert_eq!(a[3..], [0; 4]);
}

#[test]
fn a_chain_of_header_and_status_has_no_payload() {
    let mut request = request(&[(BASE, 4), STATUS]);
    let mut buf = [0xeeu8; 3];
    assert_eq!(request.consume(&mut buf), Ok(0));
    assert_eq!(buf, [0xee; 3]);
    assert_eq!((request.idx_curr_desc, request.pos_curr_desc), (1, 0));
}

#[test]
fn the_status_descriptor_is_left_alone() {
    let mut request = request_of(&[&[0; 16], &[1, 2, 3], &[9; 8]], 3);
    let mut buf = [0u8; 5];
    assert_eq!(request.consume(&mut buf), Ok(3));
    assert_eq!(buf, [1, 2, 3, 0, 0]);
}

#[test]
fn a_read_crosses_the_border_of_two_descriptors() {
    let mut request = request_of(&[&[0; 16], &[1, 2, 3], &[4, 5], &[0; 8]], 5);
    let mut first = [0u8; 4];
    let mut second = [0u8; 1];
    assert_eq!(request.consume(&mut first), Ok(4));
    assert_eq!(first, [1, 2, 3, 4]);
    assert_eq!(request.consume(&mut second), Ok(1));
    assert_eq!(second, [5]);
}
