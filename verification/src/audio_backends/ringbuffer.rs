//! A ring buffer of bytes, which holds what the driver has sent until the
//! audio server asks for it.
//!
//! The indices count the bytes that have ever been written and read; the place
//! of a byte in the buffer is its number modulo the size of the buffer.

use vstd::prelude::*;

verus! {

/// The indices of a ring buffer. The bytes lie in a buffer beside it.
#[derive(Debug, Clone, Copy, PartialEq, Eq, Structural)]
pub struct SpaRingbuffer {
    /// the number of the next byte to read
    pub readindex: u32,
    /// the number of the next byte to write
    pub writeindex: u32,
}

/// `x`, taken as a number of 32 bits, with the upper half of the range standing
/// for the negative numbers.
pub open spec fn signed32(x: int) -> int {
    let low = x % 0x1_0000_0000;
    if low < 0x8000_0000 {
        low
    } else {
        low - 0x1_0000_0000
    }
}

/// The place in a buffer of `size` bytes of the byte that comes `i` bytes
/// after the one at `offset`.
pub open spec fn slot(size: int, offset: int, i: int) -> int {
    (offset + i) % size
}

/// In a ring of `size` bytes, the first `len` bytes of `data` have been put in
/// the places from `offset` on, and every other place is as it was.
pub open spec fn wrote(
    before: Seq<u8>,
    after: Seq<u8>,
    size: int,
    offset: int,
    data: Seq<u8>,
    len: int,
) -> bool {
    &&& forall|i: int| 0 <= i < len ==> after[#[trigger] slot(size, offset, i)] == data[i]
    &&& forall|i: int|
        len <= i < size ==> after[#[trigger] slot(size, offset, i)] == before[slot(
            size,
            offset,
            i,
        )]
}

impl SpaRingbuffer {
    /// How many bytes have been written and not yet read.
    pub open spec fn filled(self) -> int {
        signed32(self.writeindex - self.readindex)
    }

    /// Not more is read than was written, and not more is unread than a buffer
    /// of `size` bytes holds.
    pub open spec fn wf(self, size: int) -> bool {
        &&& self.readindex <= self.writeindex
        &&& self.writeindex - self.readindex <= size
    }

    /// The bytes in `buffer` that have been written and not yet read, in the
    /// order of writing.
    pub open spec fn queued(self, buffer: Seq<u8>) -> Seq<u8> {
        Seq::new(
            self.filled() as nat,
            |i: int| buffer[slot(buffer.len() as int, self.readindex as int, i)],
        )
    }

    /// How many bytes can be read, and the index to read from.
    pub fn get_read_index(&self) -> (res: (i32, u32))
        ensures
            res.0 == self.filled(),
            res.1 == self.readindex,
    {
        (difference(self.writeindex, self.readindex), self.readindex)
    }

    /// How many bytes are waiting to be read, and the index to write to.
    pub fn get_write_index(&self) -> (res: (i32, u32))
        ensures
            res.0 == self.filled(),
            res.1 == self.writeindex,
    {
        (difference(self.writeindex, self.readindex), self.writeindex)
    }

    /// Makes `index` the index to read from.
    pub fn read_update(&mut self, index: u32)
        ensures
            final(self).readindex == index,
            final(self).writeindex == old(self).writeindex,
    {
        self.readindex = index;
    }

    /// Makes `index` the index to write to.
    pub fn write_update(&mut self, index: u32)
        ensures
            final(self).readindex == old(self).readindex,
            final(self).writeindex == index,
    {
        self.writeindex = index;
    }
}

fn difference(to: u32, from: u32) -> (res: i32)
    ensures
        res == signed32(to - from),
{
    let low: u32 = to.wrapping_sub(from);
    assert(low == (to - from) % 0x1_0000_0000);
    assert(low < 0x8000_0000 ==> low as i32 == low) by (bit_vector);
    assert(low >= 0x8000_0000 ==> low as i32 == low - 0x1_0000_0000) by (bit_vector);
    low as i32
}

/// Copies `len` bytes out of the ring of the first `size` bytes of `buffer`,
/// from `offset` on, to the front of `data`.
pub fn read_data(buffer: &[u8], size: u32, offset: u32, data: &mut [u8], len: u32)
    requires
        offset < size <= buffer@.len(),
        len <= size,
        len <= old(data)@.len(),
    ensures
        final(data)@.len() == old(data)@.len(),
        forall|i: int|
            0 <= i < len ==> #[trigger] final(data)@[i] == buffer@[slot(
                size as int,
                offset as int,
                i,
            )],
        forall|i: int| len <= i < old(data)@.len() ==> final(data)@[i] == old(data)@[i],
{
    let mut done: u32 = 0;
    let mut place: u32 = offset;
    proof {
        vstd::arithmetic::div_mod::lemma_small_mod(offset as nat, size as nat);
    }
    while done < len
        invariant
            done <= len <= size <= buffer@.len(),
            len <= old(data)@.len(),
            data@.len() == old(data)@.len(),
            offset < size,
            place < size,
            place == slot(size as int, offset as int, done as int),
            forall|i: int|
                0 <= i < done ==> #[trigger] data@[i] == buffer@[slot(
                    size as int,
                    offset as int,
                    i,
                )],
            forall|i: int| done <= i < old(data)@.len() ==> data@[i] == old(data)@[i],
        decreases len - done,
    {
        data[done as usize] = buffer[place as usize];
        proof {
            lemma_next_slot(size as int, offset as int, done as int);
        }
        place = if place + 1 == size {
            0
        } else {
            place + 1
        };
        done = done + 1;
    }
}

/// Copies the first `len` bytes of `data` into the ring of the first `size`
/// bytes of `buffer`, from `offset` on.
pub fn write_data(buffer: &mut [u8], size: u32, offset: u32, data: &[u8], len: u32)
    requires
        offset < size <= old(buffer)@.len(),
        len <= size,
        len <= data@.len(),
    ensures
        final(buffer)@.len() == old(buffer)@.len(),
        wrote(old(buffer)@, final(buffer)@, size as int, offset as int, data@, len as int),
        forall|j: int| size <= j < old(buffer)@.len() ==> final(buffer)@[j] == old(buffer)@[j],
{
    let mut done: u32 = 0;
    let mut place: u32 = offset;
    proof {
        vstd::arithmetic::div_mod::lemma_small_mod(offset as nat, size as nat);
    }
    while done < len
        invariant
            done <= len <= size <= old(buffer)@.len(),
            len <= data@.len(),
            buffer@.len() == old(buffer)@.len(),
            offset < size,
            place < size,
            place == slot(size as int, offset as int, done as int),
            forall|i: int|
                0 <= i < done ==> buffer@[#[trigger] slot(size as int, offset as int, i)]
                    == data@[i],
            forall|i: int|
                done <= i < size ==> buffer@[#[trigger] slot(size as int, offset as int, i)]
                    == old(buffer)@[slot(size as int, offset as int, i)],
            forall|j: int| size <= j < old(buffer)@.len() ==> buffer@[j] == old(buffer)@[j],
        decreases len - done,
    {
        proof {
            assert forall|i: int| 0 <= i < size && i != done implies #[trigger] slot(
                size as int,
                offset as int,
                i,
            ) != place && 0 <= slot(size as int, offset as int, i) < size by {
                lemma_slots_differ(size as int, offset as int, i, done as int);
            }
            lemma_next_slot(size as int, offset as int, done as int);
        }
        buffer[place as usize] = data[done as usize];
        place = if place + 1 == size {
            0
        } else {
            place + 1
        };
        done = done + 1;
    }
}

/// The place after that of byte `i` is that of byte `i + 1`.
proof fn lemma_next_slot(size: int, offset: int, i: int)
    requires
        0 < size,
    ensures
        0 <= slot(size, offset, i) < size,
        0 <= slot(size, offset, i + 1) < size,
        slot(size, offset, i + 1) == (if slot(size, offset, i) + 1 == size {
            0
        } else {
            slot(size, offset, i) + 1
        }),
{
    let x = offset + i;
    let q = x / size;
    let r = x % size;
    vstd::arithmetic::div_mod::lemma_fundamental_div_mod(x, size);
    vstd::arithmetic::div_mod::lemma_mod_bound(x, size);
    vstd::arithmetic::mul::lemma_mul_is_distributive_add(size, q, 1);
    if r + 1 == size {
        vstd::arithmetic::div_mod::lemma_fundamental_div_mod_converse(x + 1, size, q + 1, 0);
    } else {
        vstd::arithmetic::div_mod::lemma_fundamental_div_mod_converse(x + 1, size, q, r + 1);
    }
}

/// Two bytes less than `size` bytes apart lie in different places.
proof fn lemma_slots_differ(size: int, offset: int, i: int, j: int)
    requires
        0 < size,
        0 <= i < size,
        0 <= j < size,
        i != j,
    ensures
        0 <= slot(size, offset, i) < size,
        slot(size, offset, i) != slot(size, offset, j),
{
    vstd::arithmetic::div_mod::lemma_mod_bound(offset + i, size);
    if slot(size, offset, i) == slot(size, offset, j) {
        vstd::arithmetic::div_mod::lemma_mod_equivalence(offset + i, offset + j, size);
        let d = i - j;
        if d > 0 {
            vstd::arithmetic::div_mod::lemma_small_mod(d as nat, size as nat);
        } else {
            vstd::arithmetic::div_mod::lemma_mod_equivalence(offset + j, offset + i, size);
            vstd::arithmetic::div_mod::lemma_small_mod((-d) as nat, size as nat);
        }
    }
}

/// Only the place at which counting starts matters, not how often the ring has
/// been gone round before.
proof fn lemma_slot_of_place(size: int, offset: int, i: int)
    requires
        0 < size,
    ensures
        slot(size, offset % size, i) == slot(size, offset, i),
        slot(size, offset, i + size) == slot(size, offset, i),
{
    vstd::arithmetic::div_mod::lemma_add_mod_noop(offset, i, size);
    vstd::arithmetic::div_mod::lemma_add_mod_noop(offset % size, i, size);
    vstd::arithmetic::div_mod::lemma_mod_twice(offset, size);
    vstd::arithmetic::div_mod::lemma_mod_add_multiples_vanish(offset + i, size);
}

/// Writing `len` bytes at the write index, and moving that index on by `len`,
/// appends the bytes to the queue, where there is room for them.
pub proof fn law_write_appends(
    ring: SpaRingbuffer,
    before: Seq<u8>,
    after: Seq<u8>,
    data: Seq<u8>,
    len: u32,
)
    requires
        0 < before.len() == after.len() <= i32::MAX,
        ring.wf(before.len() as int),
        ring.filled() + len <= before.len(),
        ring.writeindex + len <= u32::MAX,
        len <= data.len(),
        wrote(
            before,
            after,
            before.len() as int,
            ring.writeindex as int % before.len() as int,
            data,
            len as int,
        ),
    ensures
        ({
            let moved = SpaRingbuffer { writeindex: (ring.writeindex + len) as u32, ..ring };
            &&& moved.wf(before.len() as int)
            &&& moved.queued(after) == ring.queued(before) + data.take(len as int)
        }),
{
    let size = before.len() as int;
    let filled = ring.filled();
    let read = ring.readindex as int;
    let write = ring.writeindex as int;
    let moved = SpaRingbuffer { writeindex: (ring.writeindex + len) as u32, ..ring };
    assert(filled == write - read);
    assert(moved.filled() == filled + len);
    assert forall|i: int| 0 <= i < filled + len implies #[trigger] moved.queued(after)[i] == (
    ring.queued(before) + data.take(len as int))[i] by {
        if i < filled {
            // counted from the write index, the byte comes a round later
            let k = i - filled + size;
            lemma_slot_of_place(size, write, k);
            lemma_slot_of_place(size, read, i);
            assert(slot(size, write, k) == slot(size, read, i + size));
            assert(after[slot(size, write % size, k)] == before[slot(size, write % size, k)]);
        } else {
            let k = i - filled;
            lemma_slot_of_place(size, write, k);
            assert(slot(size, write, k) == slot(size, read, i));
            assert(after[slot(size, write % size, k)] == data[k]);
        }
    }
    assert(moved.queued(after) =~= ring.queued(before) + data.take(len as int));
}

/// The `len` bytes in the places from the read index on are the first of the
/// queue, and moving that index on by `len` takes them off it.
pub proof fn law_read_takes_first(ring: SpaRingbuffer, buffer: Seq<u8>, len: u32)
    requires
        0 < buffer.len() <= i32::MAX,
        ring.wf(buffer.len() as int),
        len <= ring.filled(),
    ensures
        ({
            let size = buffer.len() as int;
            let moved = SpaRingbuffer { readindex: (ring.readindex + len) as u32, ..ring };
            &&& moved.wf(size)
            &&& moved.queued(buffer) == ring.queued(buffer).skip(len as int)
            &&& forall|i: int|
                0 <= i < len ==> #[trigger] ring.queued(buffer)[i] == buffer[slot(
                    size,
                    ring.readindex as int % size,
                    i,
                )]
        }),
{
    let size = buffer.len() as int;
    let read = ring.readindex as int;
    let moved = SpaRingbuffer { readindex: (ring.readindex + len) as u32, ..ring };
    assert(ring.filled() == ring.writeindex - ring.readindex);
    assert(moved.filled() == ring.filled() - len);
    assert forall|i: int| 0 <= i < len implies #[trigger] ring.queued(buffer)[i] == buffer[slot(
        size,
        read % size,
        i,
    )] by {
        lemma_slot_of_place(size, read, i);
    }
    assert forall|i: int| 0 <= i < moved.filled() implies #[trigger] moved.queued(buffer)[i]
        == ring.queued(buffer).skip(len as int)[i] by {
        assert(slot(size, read + len, i) == slot(size, read, len + i));
    }
    assert(moved.queued(buffer) =~= ring.queued(buffer).skip(len as int));
}

/// Every place in the ring is reached from `offset`.
proof fn lemma_slot_reaches(size: int, offset: int, place: int) -> (i: int)
    requires
        0 <= place < size,
    ensures
        0 <= i < size,
        slot(size, offset, i) == place,
{
    let i = (place - offset) % size;
    vstd::arithmetic::div_mod::lemma_mod_bound(place - offset, size);
    vstd::arithmetic::div_mod::lemma_add_mod_noop_right(offset, place - offset, size);
    vstd::arithmetic::div_mod::lemma_small_mod(place as nat, size as nat);
    i
}

/// Writing `one` and then `two` behind it leaves the ring as writing both at
/// once does, where there is room for both.
pub proof fn law_writes_join(
    before: Seq<u8>,
    middle: Seq<u8>,
    after: Seq<u8>,
    both: Seq<u8>,
    index: int,
    one: Seq<u8>,
    two: Seq<u8>,
)
    requires
        0 < before.len() == middle.len() == after.len() == both.len(),
        one.len() + two.len() <= before.len(),
        ({
            let size = before.len() as int;
            let next = (index + one.len()) % size;
            &&& wrote(before, middle, size, index % size, one, one.len() as int)
            &&& wrote(middle, after, size, next, two, two.len() as int)
            &&& wrote(before, both, size, index % size, one + two, (one + two).len() as int)
        }),
    ensures
        after == both,
{
    let size = before.len() as int;
    let n = one.len() as int;
    let offset = index % size;
    let next = (index + n) % size;
    assert forall|place: int| 0 <= place < size implies after[place] == both[place] by {
        let i = lemma_slot_reaches(size, offset, place);
        // the same place, counted from where the second write starts
        let k = if i < n { i - n + size } else { i - n };
        lemma_slot_of_place(size, index, i);
        lemma_slot_of_place(size, index + n, i - n);
        lemma_slot_of_place(size, index + n, k);
        assert(slot(size, index + n, i - n) == slot(size, index, i));
        assert(slot(size, next, k) == place);
        assert(middle[slot(size, offset, i)] == if i < n { one[i] } else { before[place] });
        assert(both[slot(size, offset, i)] == if i < n + two.len() {
            (one + two)[i]
        } else {
            before[place]
        });
        assert(after[slot(size, next, k)] == if k < two.len() { two[k] } else { middle[place] });
    }
    assert(after =~= both);
}

} // verus!
