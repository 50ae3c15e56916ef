//! What the configuration, the streams and their requests promise, each
//! operation in terms of what it is given and what it leaves.
//!
//! A law here speaks of the operation itself: `call_ensures` names any call of
//! it, with its arguments and its result.

use std::sync::Arc;

use crate::guest;
use crate::stream;
use crate::stream::{Cursor, PCMState, Request, Stream};
use crate::{Descriptor, IOMessage, SoundConfig};
use vstd::prelude::*;

verus! {

/// The path that a configuration gives is the one that it was made with, and a
/// copy gives the same.
pub proof fn law_config_gives_its_path(
    socket: String,
    multi_thread: bool,
    audio_backend_name: String,
    config: SoundConfig,
    path: String,
    copy: SoundConfig,
    copy_path: String,
)
    requires
        call_ensures(SoundConfig::new, (socket, multi_thread, audio_backend_name), config),
        call_ensures(SoundConfig::get_socket_path, (&config,), path),
        call_ensures(<SoundConfig as Clone>::clone, (&config,), copy),
        call_ensures(SoundConfig::get_socket_path, (&copy,), copy_path),
    ensures
        path@ == socket@,
        copy_path@ == socket@,
{
}

/// A stream may be given parameters, or be prepared, unless it runs or rests
/// stopped. What succeeds leaves the state that was asked for, and what is
/// refused leaves the state that there was, and names both.
pub proof fn law_streams_at_rest_are_set_up(
    set: &mut PCMState,
    set_outcome: stream::Result<()>,
    prepared: &mut PCMState,
    prepare_outcome: stream::Result<()>,
)
    requires
        call_ensures(PCMState::set_parameters, (set,), set_outcome),
        call_ensures(PCMState::prepare, (prepared,), prepare_outcome),
    ensures
        set_outcome is Ok <==> !(*old(set) is Start || *old(set) is Stop),
        set_outcome is Ok ==> *final(set) is SetParameters,
        set_outcome matches Err(e) ==> *final(set) == *old(set) && e
            == stream::Error::InvalidStateTransition(*old(set), PCMState::SetParameters),
        prepare_outcome is Ok <==> !(*old(prepared) is Start || *old(prepared) is Stop),
        prepare_outcome is Ok ==> *final(prepared) is Prepare,
        prepare_outcome matches Err(e) ==> *final(prepared) == *old(prepared) && e
            == stream::Error::InvalidStateTransition(*old(prepared), PCMState::Prepare),
{
}

/// A stream may be started, or be released, where it is prepared or rests
/// stopped, and may be stopped where it runs. What succeeds leaves the state that
/// was asked for, and what is refused leaves the state that there was, and names
/// both.
pub proof fn law_prepared_streams_run(
    started: &mut PCMState,
    start_outcome: stream::Result<()>,
    released: &mut PCMState,
    release_outcome: stream::Result<()>,
    stopped: &mut PCMState,
    stop_outcome: stream::Result<()>,
)
    requires
        call_ensures(PCMState::start, (started,), start_outcome),
        call_ensures(PCMState::release, (released,), release_outcome),
        call_ensures(PCMState::stop, (stopped,), stop_outcome),
    ensures
        start_outcome is Ok <==> *old(started) is Prepare || *old(started) is Stop,
        start_outcome is Ok ==> *final(started) is Start,
        start_outcome matches Err(e) ==> *final(started) == *old(started) && e
            == stream::Error::InvalidStateTransition(*old(started), PCMState::Start),
        release_outcome is Ok <==> *old(released) is Prepare || *old(released) is Stop,
        release_outcome is Ok ==> *final(released) is Release,
        release_outcome matches Err(e) ==> *final(released) == *old(released) && e
            == stream::Error::InvalidStateTransition(*old(released), PCMState::Release),
        stop_outcome is Ok <==> *old(stopped) is Start,
        stop_outcome is Ok ==> *final(stopped) is Stop,
        stop_outcome matches Err(e) ==> *final(stopped) == *old(stopped) && e
            == stream::Error::InvalidStateTransition(*old(stopped), PCMState::Stop),
{
}

/// A stream with no format set offers none. One that has a format set besides
/// those of another stream offers it, and else what the other offers.
pub proof fn law_formats_are_offered_one_by_one(
    stream: &Stream,
    offered: bool,
    more: &Stream,
    more_offered: bool,
    added: u8,
    format: u8,
)
    requires
        added < 64,
        format < 64,
        call_ensures(Stream::supports_format, (stream, format), offered),
        call_ensures(Stream::supports_format, (more, format), more_offered),
        guest::le64(more.formats) == guest::le64(stream.formats) | (1u64 << added),
    ensures
        guest::le64(stream.formats) == 0 ==> !offered,
        more_offered <==> format == added || offered,
{
    lemma_bits(guest::le64(stream.formats), added, format);
}

/// A stream with no frame rate set offers none. One that has a rate set besides
/// those of another stream offers it, and else what the other offers.
pub proof fn law_rates_are_offered_one_by_one(
    stream: &Stream,
    offered: bool,
    more: &Stream,
    more_offered: bool,
    added: u8,
    rate: u8,
)
    requires
        added < 64,
        rate < 64,
        call_ensures(Stream::supports_rate, (stream, rate), offered),
        call_ensures(Stream::supports_rate, (more, rate), more_offered),
        guest::le64(more.rates) == guest::le64(stream.rates) | (1u64 << added),
    ensures
        guest::le64(stream.rates) == 0 ==> !offered,
        more_offered <==> rate == added || offered,
{
    lemma_bits(guest::le64(stream.rates), added, rate);
}

proof fn lemma_bits(mask: u64, added: u8, bit: u8)
    requires
        added < 64,
        bit < 64,
    ensures
        !stream::has_bit(0, bit),
        stream::has_bit(mask | (1u64 << added), bit) <==> bit == added || stream::has_bit(
            mask,
            bit,
        ),
{
    assert((0u64 >> bit) & 1 != 1) by (bit_vector);
    assert(((mask | (1u64 << added)) >> bit) & 1 == 1 <==> bit == added || (mask >> bit) & 1 == 1)
        by (bit_vector)
        requires
            added < 64,
            bit < 64,
    ;
}

/// How many payload bytes lie before descriptor number `index`. The header,
/// number 0, has none.
pub open spec fn length_before(descriptors: Seq<Descriptor>, index: int) -> int
    decreases index,
{
    if index <= 1 {
        0
    } else {
        length_before(descriptors, index - 1) + descriptors[index - 1].len
    }
}

/// The number of the payload byte at which a request stands.
pub open spec fn standing(request: Request) -> int {
    length_before(request.message.descriptors@, request.idx_curr_desc as int)
        + request.pos_curr_desc
}

/// Does the memory of the message have this address?
pub open spec fn has_address(message: IOMessage, addr: int) -> bool {
    addr <= u64::MAX && guest::mapped(message.memory).contains(addr as u64)
}

/// Does a request stand in its payload, which lies between the header and the
/// last descriptor?
pub open spec fn stands_in_payload(request: Request) -> bool {
    let n = request.message.descriptors@.len();
    &&& 1 <= request.idx_curr_desc < n - 1
    &&& request.pos_curr_desc == 0 || request.pos_curr_desc
        < request.message.descriptors@[request.idx_curr_desc as int].len
}

/// A new request stands at the first byte of its payload.
pub proof fn law_new_request_stands_at_the_front(
    len: usize,
    message: Arc<IOMessage>,
    request: Request,
)
    requires
        call_ensures(Request::new, (len, message), request),
    ensures
        request.len == len,
        request.pos == 0,
        request.message == message,
        request.idx_curr_desc == 1,
        request.pos_curr_desc == 0,
{
}

/// Reading a request moves it on by the bytes that were read. It reads as many as
/// the buffer and the payload have, unless it meets an address that the memory
/// does not have: then it stands there and fails.
pub proof fn law_consume_moves_on_by_what_it_reads(
    request: &mut Request,
    buf: &mut [u8],
    outcome: stream::Result<u32>,
)
    requires
        call_ensures(Request::consume, (request, buf), outcome),
        old(buf)@.len() <= u32::MAX,
        stands_in_payload(*old(request)),
    ensures
        ({
            let descriptors = old(request).message.descriptors@;
            let end = length_before(descriptors, descriptors.len() - 1);
            let count = standing(*final(request)) - standing(*old(request));
            let at = descriptors[final(request).idx_curr_desc as int].addr
                + final(request).pos_curr_desc;
            &&& 0 <= count <= old(buf)@.len()
            &&& standing(*final(request)) <= end
            &&& outcome is Ok ==> outcome == Ok::<u32, stream::Error>(count as u32)
            &&& outcome is Ok ==> count == old(buf)@.len() || standing(*final(request)) == end
            &&& outcome is Err ==> outcome == Err::<u32, stream::Error>(
                stream::Error::DescriptorReadFailed,
            )
            &&& outcome is Err ==> stands_in_payload(*final(request)) && !has_address(
                *old(request).message,
                at,
            ) && old(buf)@.len() > 0
            &&& old(request).idx_curr_desc <= final(request).idx_curr_desc <= descriptors.len() - 1
            &&& final(request).message == old(request).message
            &&& final(request).len == old(request).len
            &&& final(request).pos == old(request).pos
        }),
{
    let message = old(request).message;
    lemma_scan_moves(
        message.descriptors@,
        message.mapping(),
        old(request).cursor(),
        old(buf)@.len(),
    );
}

/// Each byte that is read is the payload's byte of the same number: it is one
/// that the memory has held at the address of that byte, which the memory has.
/// The buffer behind the bytes that were read is as it was.
pub proof fn law_consume_reads_the_next_bytes(
    request: &mut Request,
    buf: &mut [u8],
    outcome: stream::Result<u32>,
    index: int,
    offset: int,
    i: int,
)
    requires
        call_ensures(Request::consume, (request, buf), outcome),
        old(buf)@.len() <= u32::MAX,
        stands_in_payload(*old(request)),
        1 <= index < old(request).message.descriptors@.len() - 1,
        0 <= offset < old(request).message.descriptors@[index].len,
        i == length_before(old(request).message.descriptors@, index) + offset - standing(
            *old(request),
        ),
        0 <= i < old(buf)@.len(),
    ensures
        ({
            let message = old(request).message;
            let addr = message.descriptors@[index].addr + offset;
            let count = standing(*final(request)) - standing(*old(request));
            &&& i < count ==> has_address(*message, addr) && guest::held(message.memory).contains(
                (addr as u64, final(buf)@[i]),
            )
            &&& i >= count ==> final(buf)@[i] == old(buf)@[i]
        }),
        final(buf)@.len() == old(buf)@.len(),
{
    let message = old(request).message;
    let descriptors = message.descriptors@;
    let at = old(request).cursor();
    let count = old(buf)@.len();
    lemma_scan_moves(descriptors, message.mapping(), at, count);
    if index < at.idx {
        lemma_length_grows(descriptors, index, at.idx as int);
    }
    lemma_payload_address(descriptors, at, index, offset);
    if i < stream::scan(descriptors, message.mapping(), at, count).done {
        stream::law_scan_reads_mapped(descriptors, message.mapping(), at, count, i);
        assert(guest::held(message.memory).contains((old(request).rest()[i] as u64, final(buf)@[i])));
    }
}

/// A descriptor is passed only where the memory has the address at which reading
/// in it begins, also where it is empty.
pub proof fn law_consume_passes_no_hole(
    request: &mut Request,
    buf: &mut [u8],
    outcome: stream::Result<u32>,
    index: int,
)
    requires
        call_ensures(Request::consume, (request, buf), outcome),
        old(buf)@.len() <= u32::MAX,
        stands_in_payload(*old(request)),
        old(request).idx_curr_desc <= index < final(request).idx_curr_desc,
    ensures
        ({
            let begin = if index == old(request).idx_curr_desc {
                old(request).pos_curr_desc as int
            } else {
                0
            };
            has_address(
                *old(request).message,
                old(request).message.descriptors@[index].addr + begin,
            )
        }),
{
    let message = old(request).message;
    lemma_scan_passes(
        message.descriptors@,
        message.mapping(),
        old(request).cursor(),
        old(buf)@.len(),
        index,
    );
}

/// Reading a request that is past its payload, or with no room, succeeds with
/// nothing read and nothing changed.
pub proof fn law_consume_stays_past_the_payload(
    request: &mut Request,
    buf: &mut [u8],
    outcome: stream::Result<u32>,
)
    requires
        call_ensures(Request::consume, (request, buf), outcome),
        old(request).idx_curr_desc + 1 >= old(request).message.descriptors@.len()
            || old(buf)@.len() == 0,
    ensures
        outcome == Ok::<u32, stream::Error>(0),
        *final(request) == *old(request),
        final(buf)@ == old(buf)@,
{
    assert(final(buf)@ =~= old(buf)@);
}

proof fn lemma_length_grows(descriptors: Seq<Descriptor>, from: int, to: int)
    requires
        1 <= from <= to,
        to <= descriptors.len(),
    ensures
        length_before(descriptors, from) <= length_before(descriptors, to),
        from < to ==> length_before(descriptors, from) + descriptors[from].len <= length_before(
            descriptors,
            to,
        ),
    decreases to - from,
{
    if from < to {
        lemma_length_grows(descriptors, from + 1, to);
        assert(length_before(descriptors, from + 1) == length_before(descriptors, from)
            + descriptors[from].len);
    }
}

/// The payload from `at` on holds the address of every later payload byte, at
/// the number of the byte.
proof fn lemma_payload_address(
    descriptors: Seq<Descriptor>,
    at: Cursor,
    index: int,
    offset: int,
)
    requires
        1 <= at.idx <= index < descriptors.len() - 1,
        0 <= offset < descriptors[index].len,
        at.pos <= descriptors[at.idx as int].len,
        index == at.idx ==> at.pos <= offset,
    ensures
        ({
            let i = length_before(descriptors, index) + offset - length_before(
                descriptors,
                at.idx as int,
            ) - at.pos;
            &&& 0 <= i < stream::payload(descriptors, at).len()
            &&& stream::payload(descriptors, at)[i] == descriptors[index].addr + offset
        }),
    decreases index - at.idx,
{
    if index > at.idx {
        let next = Cursor { idx: at.idx + 1, pos: 0 };
        lemma_payload_address(descriptors, next, index, offset);
        assert(length_before(descriptors, next.idx as int) == length_before(
            descriptors,
            at.idx as int,
        ) + descriptors[at.idx as int].len);
    }
}

/// A scan ends as many payload bytes further on as it reads, and where it is not
/// complete, at an address that is not mapped.
proof fn lemma_scan_moves(
    descriptors: Seq<Descriptor>,
    mapping: Set<u64>,
    at: Cursor,
    count: nat,
)
    requires
        1 <= at.idx <= descriptors.len() - 1,
        at.pos == 0 || (at.idx + 1 < descriptors.len() && at.pos
            < descriptors[at.idx as int].len),
    ensures
        ({
            let scan = stream::scan(descriptors, mapping, at, count);
            let from = length_before(descriptors, at.idx as int) + at.pos;
            let to = length_before(descriptors, scan.end.idx as int) + scan.end.pos;
            let end = length_before(descriptors, descriptors.len() - 1);
            &&& at.idx <= scan.end.idx <= descriptors.len() - 1
            &&& to == from + scan.done <= end
            &&& scan.done <= count
            &&& scan.complete ==> scan.done == count || to == end
            &&& !scan.complete ==> {
                &&& count > 0
                &&& scan.end.idx + 1 < descriptors.len()
                &&& scan.end.pos == 0 || scan.end.pos < descriptors[scan.end.idx as int].len
                &&& !guest::is_mapped(
                    mapping,
                    descriptors[scan.end.idx as int].addr + scan.end.pos,
                )
            }
        }),
    decreases descriptors.len() - at.idx,
{
    lemma_length_grows(descriptors, at.idx as int, descriptors.len() - 1);
    if count > 0 && at.idx + 1 < descriptors.len() {
        let descriptor = descriptors[at.idx as int];
        let addr = descriptor.addr + at.pos;
        let avail = (descriptor.len - at.pos) as nat;
        let wanted = if count < avail { count } else { avail };
        if !stream::all_mapped(mapping, addr, wanted) {
            stream::lemma_mapped_run_stops(mapping, addr, wanted);
        } else if count >= avail {
            let next = Cursor { idx: at.idx + 1, pos: 0 };
            lemma_scan_moves(descriptors, mapping, next, (count - avail) as nat);
            assert(length_before(descriptors, next.idx as int) == length_before(
                descriptors,
                at.idx as int,
            ) + descriptor.len);
        }
    }
}

/// A scan passes a descriptor only where reading in it begins at a mapped
/// address.
proof fn lemma_scan_passes(
    descriptors: Seq<Descriptor>,
    mapping: Set<u64>,
    at: Cursor,
    count: nat,
    index: int,
)
    requires
        at.idx <= index < stream::scan(descriptors, mapping, at, count).end.idx,
    ensures
        guest::is_mapped(
            mapping,
            descriptors[index].addr + if index == at.idx {
                at.pos as int
            } else {
                0
            },
        ),
    decreases descriptors.len() - at.idx,
{
    if index > at.idx {
        let avail = (descriptors[at.idx as int].len - at.pos) as nat;
        let next = Cursor { idx: at.idx + 1, pos: 0 };
        lemma_scan_passes(descriptors, mapping, next, (count - avail) as nat, index);
    }
}

} // verus!
