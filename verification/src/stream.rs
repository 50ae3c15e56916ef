//! PCM streams: their command life cycle, what they support, and the requests
//! that carry their data.

use std::collections::VecDeque;
use std::sync::Arc;

use crate::guest;
use crate::guest::{
    guest_address_add, guest_read, le32_from_native, le64_from_native, native_from_le64,
};
use crate::virtio_sound::{
    VIRTIO_SND_D_OUTPUT, VIRTIO_SND_PCM_FMT_S16, VIRTIO_SND_PCM_FMT_S24, VIRTIO_SND_PCM_FMT_S32,
    VIRTIO_SND_PCM_FMT_U8, VIRTIO_SND_PCM_RATE_44100, VIRTIO_SND_PCM_RATE_48000,
    VIRTIO_SND_PCM_RATE_8000,
};
use crate::{Descriptor, IOMessage, SUPPORTED_FORMATS, SUPPORTED_RATES};
use vm_memory::{Le32, Le64};
use vstd::prelude::*;

verus! {

/// Stream errors.
#[derive(Debug, Clone, Copy, PartialEq, Eq, Structural)]
pub enum Error {
    /// Guest driver request an invalid stream state transition, from the first
    /// state to the second.
    InvalidStateTransition(PCMState, PCMState),
    /// Guest requested an invalid stream id.
    InvalidStreamId(u32),
    /// Descriptor read failed.
    DescriptorReadFailed,
}

pub type Result<T> = std::result::Result<T, Error>;

/// PCM stream state machine.
///
/// ## PCM Command Lifecycle
///
/// A PCM stream has the following command lifecycle:
///
/// - `SET PARAMETERS`
///
///   The driver negotiates the stream parameters (format, transport, etc) with
///   the device.
///
///   Possible valid transitions: `SET PARAMETERS`, `PREPARE`.
///
/// - `PREPARE`
///
///   The device prepares the stream (allocates resources, etc).
///
///   Possible valid transitions: `SET PARAMETERS`, `PREPARE`, `START`,
///   `RELEASE`. Output only: the driver transfers data for pre-buffing.
///
/// - `START`
///
///   The device starts the stream (unmute, putting into running state, etc).
///
///   Possible valid transitions: `STOP`.
///   The driver transfers data to/from the stream.
///
/// - `STOP`
///
///   The device stops the stream (mute, putting into non-running state, etc).
///
///   Possible valid transitions: `START`, `RELEASE`.
///
/// - `RELEASE`
///
///   The device releases the stream (frees resources, etc).
///
///   Possible valid transitions: `SET PARAMETERS`, `PREPARE`.
#[derive(Debug, Copy, Clone, PartialEq, Eq, Structural)]
pub enum PCMState {
    /// VIRTIO_SND_R_PCM_SET_PARAMS
    SetParameters,
    /// VIRTIO_SND_R_PCM_PREPARE
    Prepare,
    /// VIRTIO_SND_R_PCM_RELEASE
    Release,
    /// VIRTIO_SND_R_PCM_START
    Start,
    /// VIRTIO_SND_R_PCM_STOP
    Stop,
}

impl Default for PCMState {
    fn default() -> (state: Self)
        ensures
            state == PCMState::SetParameters,
    {
        PCMState::SetParameters
    }
}

impl PCMState {
    /// May a stream in state `self` go to state `next`?
    pub open spec fn may_become(self, next: PCMState) -> bool {
        match self {
            PCMState::SetParameters => next is SetParameters || next is Prepare,
            PCMState::Prepare => next is SetParameters || next is Prepare || next is Start
                || next is Release,
            PCMState::Start => next is Stop,
            PCMState::Stop => next is Start || next is Release,
            PCMState::Release => next is SetParameters || next is Prepare,
        }
    }

    /// The outcome of a command that asks a stream in state `before` to go to
    /// state `next`: a valid transition is made, any other is refused by an
    /// error that names both states, and leaves the state alone.
    pub open spec fn command(
        before: PCMState,
        next: PCMState,
        after: PCMState,
        outcome: Result<()>,
    ) -> bool {
        if before.may_become(next) {
            outcome == Ok::<(), Error>(()) && after == next
        } else {
            outcome == Err::<(), Error>(Error::InvalidStateTransition(before, next)) && after
                == before
        }
    }

    /// The name of the request that puts a stream into this state.
    pub open spec fn request_name(self) -> Seq<char> {
        match self {
            PCMState::SetParameters => "VIRTIO_SND_R_PCM_SET_PARAMS"@,
            PCMState::Prepare => "VIRTIO_SND_R_PCM_PREPARE"@,
            PCMState::Release => "VIRTIO_SND_R_PCM_RELEASE"@,
            PCMState::Start => "VIRTIO_SND_R_PCM_START"@,
            PCMState::Stop => "VIRTIO_SND_R_PCM_STOP"@,
        }
    }

    /// The state of a new stream.
    pub fn new() -> (state: Self)
        ensures
            state == PCMState::SetParameters,
    {
        PCMState::default()
    }

    pub fn set_parameters(&mut self) -> (outcome: Result<()>)
        ensures
            PCMState::command(*old(self), PCMState::SetParameters, *final(self), outcome),
    {
        match *self {
            PCMState::SetParameters | PCMState::Prepare | PCMState::Release => {
                *self = PCMState::SetParameters;
                Ok(())
            },
            state => Err(Error::InvalidStateTransition(state, PCMState::SetParameters)),
        }
    }

    pub fn prepare(&mut self) -> (outcome: Result<()>)
        ensures
            PCMState::command(*old(self), PCMState::Prepare, *final(self), outcome),
    {
        match *self {
            PCMState::SetParameters | PCMState::Prepare | PCMState::Release => {
                *self = PCMState::Prepare;
                Ok(())
            },
            state => Err(Error::InvalidStateTransition(state, PCMState::Prepare)),
        }
    }

    pub fn start(&mut self) -> (outcome: Result<()>)
        ensures
            PCMState::command(*old(self), PCMState::Start, *final(self), outcome),
    {
        match *self {
            PCMState::Prepare | PCMState::Stop => {
                *self = PCMState::Start;
                Ok(())
            },
            state => Err(Error::InvalidStateTransition(state, PCMState::Start)),
        }
    }

    pub fn stop(&mut self) -> (outcome: Result<()>)
        ensures
            PCMState::command(*old(self), PCMState::Stop, *final(self), outcome),
    {
        match *self {
            PCMState::Start => {
                *self = PCMState::Stop;
                Ok(())
            },
            state => Err(Error::InvalidStateTransition(state, PCMState::Stop)),
        }
    }

    pub fn release(&mut self) -> (outcome: Result<()>)
        ensures
            PCMState::command(*old(self), PCMState::Release, *final(self), outcome),
    {
        match *self {
            PCMState::Prepare | PCMState::Stop => {
                *self = PCMState::Release;
                Ok(())
            },
            state => Err(Error::InvalidStateTransition(state, PCMState::Release)),
        }
    }

    /// The name of the request that puts a stream into this state.
    pub fn to_string(&self) -> (name: String)
        ensures
            name@ == self.request_name(),
    {
        match *self {
            PCMState::SetParameters => "VIRTIO_SND_R_PCM_SET_PARAMS".to_owned(),
            PCMState::Prepare => "VIRTIO_SND_R_PCM_PREPARE".to_owned(),
            PCMState::Release => "VIRTIO_SND_R_PCM_RELEASE".to_owned(),
            PCMState::Start => "VIRTIO_SND_R_PCM_START".to_owned(),
            PCMState::Stop => "VIRTIO_SND_R_PCM_STOP".to_owned(),
        }
    }
}

/// Do the states of `run` follow one another by valid transitions?
pub open spec fn is_lifecycle(run: Seq<PCMState>) -> bool {
    forall|i: int, j: int|
        0 <= i && j == i + 1 && j < run.len() ==> (#[trigger] run[i]).may_become(#[trigger] run[j])
}

/// A stream that has its parameters set, or has been released, runs or rests
/// stopped again only after it has been prepared.
pub proof fn law_running_needs_prepare(run: Seq<PCMState>, from: int, to: int)
    requires
        is_lifecycle(run),
        0 <= from < to < run.len(),
        run[from] is SetParameters || run[from] is Release,
        run[to] is Start || run[to] is Stop,
    ensures
        exists|k: int| from < k < to && #[trigger] run[k] is Prepare,
    decreases to - from,
{
    let next = from + 1;
    assert(run[from].may_become(run[next]));
    if run[next] is SetParameters {
        law_running_needs_prepare(run, next, to);
    }
}

/// A stream that runs leaves that state by being stopped, and by nothing else.
pub proof fn law_running_only_stops(run: Seq<PCMState>, from: int)
    requires
        is_lifecycle(run),
        0 <= from < run.len() - 1,
        run[from] is Start,
    ensures
        run[from + 1] is Stop,
{
    assert(run[from].may_become(run[from + 1]));
}

/// Is bit number `bit` of `mask` set?
pub open spec fn has_bit(mask: u64, bit: u8) -> bool {
    (mask >> bit) & 1 == 1
}

/// Internal state of a PCM stream of the VIRTIO Sound device.
pub struct Stream {
    pub id: usize,
    pub params: PcmParams,
    pub formats: Le64,
    pub rates: Le64,
    pub direction: u8,
    pub channels_min: u8,
    pub channels_max: u8,
    pub state: PCMState,
    pub buffers: VecDeque<Request>,
}

impl Default for Stream {
    fn default() -> (stream: Self)
        ensures
            stream.id == 0,
            stream.direction == VIRTIO_SND_D_OUTPUT,
            guest::le64(stream.formats) == SUPPORTED_FORMATS,
            guest::le64(stream.rates) == SUPPORTED_RATES,
            stream.params.is_default(),
            stream.channels_min == 1,
            stream.channels_max == 6,
            stream.state == PCMState::SetParameters,
            stream.buffers@.len() == 0,
    {
        Stream {
            id: 0,
            direction: VIRTIO_SND_D_OUTPUT,
            formats: le64_from_native(SUPPORTED_FORMATS),
            rates: le64_from_native(SUPPORTED_RATES),
            params: PcmParams::default(),
            channels_min: 1,
            channels_max: 6,
            state: PCMState::default(),
            buffers: VecDeque::new(),
        }
    }
}

impl Stream {
    /// Does the stream offer sample format number `format`?
    pub fn supports_format(&self, format: u8) -> (supported: bool)
        requires
            format < 64,
        ensures
            supported == has_bit(guest::le64(self.formats), format),
    {
        let formats: u64 = native_from_le64(self.formats);
        assert((formats & (1u64 << format)) != 0 <==> (formats >> format) & 1 == 1) by (bit_vector)
            requires
                format < 64,
        ;
        (formats & (1u64 << format)) != 0
    }

    /// Does the stream offer frame rate number `rate`?
    pub fn supports_rate(&self, rate: u8) -> (supported: bool)
        requires
            rate < 64,
        ensures
            supported == has_bit(guest::le64(self.rates), rate),
    {
        let rates: u64 = native_from_le64(self.rates);
        assert((rates & (1u64 << rate)) != 0 <==> (rates >> rate) & 1 == 1) by (bit_vector)
            requires
                rate < 64,
        ;
        (rates & (1u64 << rate)) != 0
    }
}

/// Stream params
#[derive(Debug)]
pub struct PcmParams {
    /// size of hardware buffer in bytes
    pub buffer_bytes: Le32,
    /// size of hardware period in bytes
    pub period_bytes: Le32,
    pub features: Le32,
    pub channels: u8,
    pub format: u8,
    pub rate: u8,
}

impl PcmParams {
    /// Are these the parameters of a stream for which none have been set?
    pub open spec fn is_default(self) -> bool {
        &&& guest::le32(self.buffer_bytes) == 8192
        &&& guest::le32(self.period_bytes) == 4096
        &&& guest::le32(self.features) == 0
        &&& self.channels == 1
        &&& self.format == VIRTIO_SND_PCM_FMT_S16
        &&& self.rate == VIRTIO_SND_PCM_RATE_44100
    }
}

impl Default for PcmParams {
    fn default() -> (params: Self)
        ensures
            params.is_default(),
    {
        PcmParams {
            buffer_bytes: le32_from_native(8192),
            period_bytes: le32_from_native(4096),
            features: le32_from_native(0),
            channels: 1,
            format: VIRTIO_SND_PCM_FMT_S16,
            rate: VIRTIO_SND_PCM_RATE_44100,
        }
    }
}

/// A place in the payload of a descriptor chain: byte number `pos` of
/// descriptor number `idx`.
pub struct Cursor {
    pub idx: nat,
    pub pos: nat,
}

/// The guest addresses of the payload bytes from `at` on, in order. The first
/// descriptor of a chain is the header and the last one takes the status: the
/// payload lies in those between.
pub open spec fn payload(descriptors: Seq<Descriptor>, at: Cursor) -> Seq<int>
    decreases descriptors.len() - at.idx,
{
    if at.idx + 1 >= descriptors.len() {
        Seq::empty()
    } else {
        let descriptor = descriptors[at.idx as int];
        Seq::new((descriptor.len - at.pos) as nat, |i: int| descriptor.addr + at.pos + i) + payload(
            descriptors,
            Cursor { idx: at.idx + 1, pos: 0 },
        )
    }
}

/// Is `addr` mapped, and with it the `count` addresses from `addr` on?
pub open spec fn all_mapped(mapping: Set<u64>, addr: int, count: nat) -> bool {
    &&& guest::is_mapped(mapping, addr)
    &&& forall|i: int| 0 <= i < count ==> #[trigger] guest::is_mapped(mapping, addr + i)
}

/// How many of the `count` addresses from `addr` on come before the first that
/// is not mapped.
pub open spec fn mapped_run(mapping: Set<u64>, addr: int, count: nat) -> nat
    decreases count,
{
    if count == 0 || !guest::is_mapped(mapping, addr) {
        0
    } else {
        1 + mapped_run(mapping, addr + 1, (count - 1) as nat)
    }
}

/// How the reading of a payload ends: where, after how many bytes, and whether
/// it was stopped by an address that is not mapped.
pub struct Scan {
    pub end: Cursor,
    pub done: nat,
    pub complete: bool,
}

/// Reading up to `count` bytes of the payload from `at` on: the descriptors
/// are read one after the other, each as far as it goes, until `count` bytes
/// have been read, the payload ends, or an address is not mapped.
pub open spec fn scan(
    descriptors: Seq<Descriptor>,
    mapping: Set<u64>,
    at: Cursor,
    count: nat,
) -> Scan
    decreases descriptors.len() - at.idx,
{
    if count == 0 || at.idx + 1 >= descriptors.len() {
        Scan { end: at, done: 0, complete: true }
    } else {
        let descriptor = descriptors[at.idx as int];
        let addr = descriptor.addr + at.pos;
        let avail = (descriptor.len - at.pos) as nat;
        let wanted = if count < avail { count } else { avail };
        if !all_mapped(mapping, addr, wanted) {
            let run = mapped_run(mapping, addr, wanted);
            Scan { end: Cursor { idx: at.idx, pos: at.pos + run }, done: run, complete: false }
        } else if count < avail {
            Scan { end: Cursor { idx: at.idx, pos: at.pos + count }, done: count, complete: true }
        } else {
            let rest = scan(
                descriptors,
                mapping,
                Cursor { idx: at.idx + 1, pos: 0 },
                (count - avail) as nat,
            );
            Scan { end: rest.end, done: avail + rest.done, complete: rest.complete }
        }
    }
}

/// A request of the driver that carries data of a stream, and how far that
/// data has been consumed.
pub struct Request {
    pub len: usize,
    pub pos: usize,
    pub message: Arc<IOMessage>,
    /// how much of the current descriptor has been consumed
    pub pos_curr_desc: usize,
    /// the index of the current descriptor
    pub idx_curr_desc: usize,
}

impl Request {
    /// Where the next byte to consume lies.
    pub open spec fn cursor(self) -> Cursor {
        Cursor { idx: self.idx_curr_desc as nat, pos: self.pos_curr_desc as nat }
    }

    /// The cursor is behind the header descriptor, and either at the start of
    /// a descriptor, which may lie past the payload, or inside one of the
    /// payload.
    pub open spec fn wf(self) -> bool {
        let at = self.cursor();
        &&& at.idx >= 1
        &&& at.pos == 0 || (at.idx + 1 < self.message.descriptors@.len() && at.pos
            < self.message.descriptors@[at.idx as int].len)
    }

    /// The guest addresses of the bytes that are still to be consumed.
    pub open spec fn rest(self) -> Seq<int> {
        payload(self.message.descriptors@, self.cursor())
    }

    /// The outcome of reading the payload of `before` into a buffer that held
    /// `was` and then holds `buf`: it succeeds unless the scan meets an address
    /// that is not mapped, and goes as far as the scan does. Each byte that was
    /// read is one that the memory of the guest has held at its address, and
    /// the buffer behind them is as it was.
    pub open spec fn consumed(
        before: Request,
        after: Request,
        was: Seq<u8>,
        buf: Seq<u8>,
        outcome: Result<u32>,
    ) -> bool {
        let message = before.message;
        let scan = scan(message.descriptors@, message.mapping(), before.cursor(), was.len());
        &&& after.len == before.len
        &&& after.pos == before.pos
        &&& after.message == message
        &&& after.cursor() == scan.end
        &&& outcome == (if scan.complete {
            Ok::<u32, Error>(scan.done as u32)
        } else {
            Err::<u32, Error>(Error::DescriptorReadFailed)
        })
        &&& scan.done <= was.len() == buf.len()
        &&& forall|i: int|
            0 <= i < scan.done ==> message.held().contains(
                (before.rest()[i] as u64, #[trigger] buf[i]),
            )
        &&& forall|i: int| scan.done <= i < was.len() ==> #[trigger] buf[i] == was[i]
    }

    pub fn new(len: usize, message: Arc<IOMessage>) -> (request: Self)
        ensures
            request.wf(),
            request.len == len,
            request.pos == 0,
            request.message == message,
            request.cursor() == (Cursor { idx: 1, pos: 0 }),
    {
        Request {
            len,
            pos: 0,
            message,
            pos_curr_desc: 0,
            // payload begins after the header descriptor
            idx_curr_desc: 1,
        }
    }

    /// Reads the payload of the request, from where the last call stopped,
    /// into `buf`, and gives the number of bytes that were read: as many as
    /// `buf` and the payload have. Where an address is not mapped, or
    /// overflows, the bytes before it have been consumed and the call fails.
    pub fn consume(&mut self, buf: &mut [u8]) -> (outcome: Result<u32>)
        requires
            old(self).wf(),
            old(buf)@.len() <= u32::MAX,
            old(buf)@.len() > 0 ==> old(self).message.descriptors@.len() > 0,
        ensures
            final(self).wf(),
            final(buf)@.len() == old(buf)@.len(),
            Request::consumed(*old(self), *final(self), old(buf)@, final(buf)@, outcome),
    {
        let mut count: usize = buf.len();
        let mut buf_pos: usize = 0;
        let ghost start = *self;
        let ghost first = buf@;
        let ghost descriptors = self.message.descriptors@;
        let ghost mapping = self.message.mapping();
        let ghost whole = scan(descriptors, mapping, start.cursor(), first.len());

        proof {
            assert(start.rest().skip(0) =~= start.rest());
        }
        while count > 0
            invariant
                start == *old(self),
                first == old(buf)@,
                self.wf(),
                self.len == start.len,
                self.pos == start.pos,
                self.message == start.message,
                descriptors == self.message.descriptors@,
                mapping == self.message.mapping(),
                whole == scan(descriptors, mapping, start.cursor(), first.len()),
                buf@.len() == first.len() <= u32::MAX,
                buf_pos + count == buf@.len(),
                buf_pos <= start.rest().len(),
                self.rest() == start.rest().skip(buf_pos as int),
                whole == resumed(
                    buf_pos as nat,
                    scan(descriptors, mapping, self.cursor(), count as nat),
                ),
                forall|i: int| buf_pos <= i < first.len() ==> #[trigger] buf@[i] == first[i],
                forall|i: int|
                    0 <= i < buf_pos ==> start.message.held().contains(
                        (start.rest()[i] as u64, #[trigger] buf@[i]),
                    ),
            ensures
                count == 0 || self.idx_curr_desc + 1 >= descriptors.len(),
            decreases descriptors.len() - self.idx_curr_desc, count,
        {
            // the last descriptor takes the status: the payload ends before it
            if self.idx_curr_desc >= self.message.descriptors.len() || self.idx_curr_desc
                == self.message.descriptors.len() - 1 {
                break ;
            }
            let ghost at = self.cursor();
            let descriptor = self.message.descriptors[self.idx_curr_desc];
            let avail: u32 = descriptor.len - self.pos_curr_desc as u32;
            let mut end: u32 = buf.len() as u32;

            if avail < (buf.len() - buf_pos) as u32 {
                end = buf_pos as u32 + avail;
            }
            let addr = match guest_address_add(descriptor.addr, self.pos_curr_desc as u64) {
                Some(addr) => addr,
                None => {
                    proof {
                        lemma_stuck(descriptors, mapping, at, count as nat);
                    }
                    return Err(Error::DescriptorReadFailed);
                },
            };
            let ghost unread = buf@;
            let len = match guest_read(&self.message.memory, buf, buf_pos, end as usize, addr) {
                Ok(len) => len,
                Err(_) => {
                    proof {
                        lemma_stuck(descriptors, mapping, at, count as nat);
                    }
                    return Err(Error::DescriptorReadFailed);
                },
            };
            proof {
                lemma_step(descriptors, mapping, at, count as nat, len as nat);
                lemma_delivered(
                    start.message.held(),
                    start.rest(),
                    unread,
                    buf@,
                    buf_pos as nat,
                    addr as int,
                    len as nat,
                );
                assert(start.rest().skip(buf_pos as int).skip(len as int) =~= start.rest().skip(
                    buf_pos + len,
                ));
            }

            buf_pos += len;
            self.pos_curr_desc += len;
            count -= len;

            if self.pos_curr_desc >= descriptor.len as usize {
                self.idx_curr_desc += 1;
                self.pos_curr_desc = 0;
            }
        }
        Ok((buf.len() - count) as u32)
    }
}

/// Where reading `count` bytes of the descriptor at `at` leads.
spec fn step(descriptors: Seq<Descriptor>, at: Cursor, count: nat) -> Cursor {
    if at.pos + count >= descriptors[at.idx as int].len {
        Cursor { idx: at.idx + 1, pos: 0 }
    } else {
        Cursor { idx: at.idx, pos: at.pos + count }
    }
}

proof fn lemma_mapped_run(mapping: Set<u64>, addr: int, count: nat, run: nat)
    requires
        run <= count,
        forall|i: int| 0 <= i < run ==> #[trigger] guest::is_mapped(mapping, addr + i),
        run < count ==> !guest::is_mapped(mapping, addr + run),
    ensures
        mapped_run(mapping, addr, count) == run,
    decreases run,
{
    if run > 0 {
        assert(guest::is_mapped(mapping, addr + 0));
        assert forall|i: int| 0 <= i < run - 1 implies #[trigger] guest::is_mapped(
            mapping,
            addr + 1 + i,
        ) by {
            assert(guest::is_mapped(mapping, addr + (i + 1)));
        }
        lemma_mapped_run(mapping, addr + 1, (count - 1) as nat, (run - 1) as nat);
    }
}

/// A run that is not mapped throughout stops at an address that is not mapped.
pub(crate) proof fn lemma_mapped_run_stops(mapping: Set<u64>, addr: int, count: nat)
    requires
        !all_mapped(mapping, addr, count),
    ensures
        mapped_run(mapping, addr, count) <= count,
        count > 0 ==> mapped_run(mapping, addr, count) < count,
        !guest::is_mapped(mapping, addr + mapped_run(mapping, addr, count)),
        forall|i: int|
            0 <= i < mapped_run(mapping, addr, count) ==> #[trigger] guest::is_mapped(
                mapping,
                addr + i,
            ),
    decreases count,
{
    let run = mapped_run(mapping, addr, count);
    if count > 0 && guest::is_mapped(mapping, addr) {
        if all_mapped(mapping, addr + 1, (count - 1) as nat) {
            assert forall|i: int| 0 <= i < count implies #[trigger] guest::is_mapped(
                mapping,
                addr + i,
            ) by {
                if i > 0 {
                    assert(guest::is_mapped(mapping, addr + 1 + (i - 1)));
                }
            }
        }
        if count > 1 {
            lemma_mapped_run_stops(mapping, addr + 1, (count - 1) as nat);
        } else {
            assert(guest::is_mapped(mapping, addr + 0));
        }
        assert forall|i: int| 0 <= i < run implies #[trigger] guest::is_mapped(
            mapping,
            addr + i,
        ) by {
            if i > 0 {
                assert(guest::is_mapped(mapping, addr + 1 + (i - 1)));
            }
        }
    }
}

/// A scan that starts at an address that is not mapped ends there.
proof fn lemma_stuck(descriptors: Seq<Descriptor>, mapping: Set<u64>, at: Cursor, count: nat)
    requires
        at.idx + 1 < descriptors.len(),
        at.pos <= descriptors[at.idx as int].len,
        count > 0,
        !guest::is_mapped(mapping, descriptors[at.idx as int].addr + at.pos),
    ensures
        scan(descriptors, mapping, at, count) == (Scan { end: at, done: 0, complete: false }),
{
}

/// A scan goes on from where reading what it could of one descriptor leads.
proof fn lemma_step(
    descriptors: Seq<Descriptor>,
    mapping: Set<u64>,
    at: Cursor,
    count: nat,
    read: nat,
)
    requires
        at.idx + 1 < descriptors.len(),
        at.pos <= descriptors[at.idx as int].len,
        0 < count,
        read <= count,
        read <= descriptors[at.idx as int].len - at.pos,
        all_mapped(mapping, descriptors[at.idx as int].addr + at.pos, read),
        read < count && read < descriptors[at.idx as int].len - at.pos ==> !guest::is_mapped(
            mapping,
            descriptors[at.idx as int].addr + at.pos + read,
        ),
    ensures
        read <= payload(descriptors, at).len(),
        payload(descriptors, step(descriptors, at, read)) == payload(descriptors, at).skip(
            read as int,
        ),
        forall|i: int|
            0 <= i < read ==> payload(descriptors, at)[i] == descriptors[at.idx as int].addr
                + at.pos + i,
        scan(descriptors, mapping, at, count) == resumed(
            read,
            scan(descriptors, mapping, step(descriptors, at, read), (count - read) as nat),
        ),
{
    let descriptor = descriptors[at.idx as int];
    let addr = descriptor.addr + at.pos;
    let avail = (descriptor.len - at.pos) as nat;
    let wanted = if count < avail { count } else { avail };
    let next = step(descriptors, at, read);
    assert(payload(descriptors, next) =~= payload(descriptors, at).skip(read as int));
    if read < wanted {
        assert(!all_mapped(mapping, addr, wanted));
        lemma_mapped_run(mapping, addr, wanted, read);
        lemma_stuck(descriptors, mapping, next, (count - read) as nat);
    }
}

/// Bytes that are read from `addr` on, behind `done` bytes of a payload, are
/// bytes of that payload, where its next addresses are those from `addr` on.
proof fn lemma_delivered(
    held: Set<(u64, u8)>,
    rest: Seq<int>,
    unread: Seq<u8>,
    buf: Seq<u8>,
    done: nat,
    addr: int,
    read: nat,
)
    requires
        done + read <= rest.len(),
        forall|i: int| 0 <= i < read ==> #[trigger] rest.skip(done as int)[i] == addr + i,
        forall|i: int| 0 <= i < done ==> #[trigger] buf[i] == unread[i],
        forall|i: int|
            0 <= i < done ==> held.contains((rest[i] as u64, #[trigger] unread[i])),
        forall|j: int|
            done <= j < done + read ==> held.contains(
                ((addr + (j - done)) as u64, #[trigger] buf[j]),
            ),
    ensures
        forall|i: int| 0 <= i < done + read ==> held.contains((rest[i] as u64, #[trigger] buf[i])),
{
    assert forall|i: int| 0 <= i < done + read implies held.contains(
        (rest[i] as u64, #[trigger] buf[i]),
    ) by {
        if i < done {
            assert(held.contains((rest[i] as u64, unread[i])));
        } else {
            assert(rest.skip(done as int)[i - done] == addr + (i - done));
        }
    }
}

/// A scan of which `done` bytes came before `rest`.
spec fn resumed(done: nat, rest: Scan) -> Scan {
    Scan { end: rest.end, done: done + rest.done, complete: rest.complete }
}

/// Reading up to `count` bytes gets as many as there are, unless an address is
/// not mapped, and goes on in the payload behind the bytes that it got.
pub proof fn law_scan_reads_payload(
    descriptors: Seq<Descriptor>,
    mapping: Set<u64>,
    at: Cursor,
    count: nat,
)
    requires
        at.idx + 1 < descriptors.len() ==> at.pos <= descriptors[at.idx as int].len,
    ensures
        ({
            let left = payload(descriptors, at).len();
            let scan = scan(descriptors, mapping, at, count);
            &&& scan.done <= count && scan.done <= left
            &&& scan.complete ==> scan.done == count || scan.done == left
            &&& payload(descriptors, scan.end) == payload(descriptors, at).skip(scan.done as int)
        }),
    decreases descriptors.len() - at.idx,
{
    let scan = scan(descriptors, mapping, at, count);
    if count == 0 || at.idx + 1 >= descriptors.len() {
    } else {
        let descriptor = descriptors[at.idx as int];
        let addr = descriptor.addr + at.pos;
        let avail = (descriptor.len - at.pos) as nat;
        let wanted = if count < avail { count } else { avail };
        if !all_mapped(mapping, addr, wanted) {
            lemma_mapped_run_stops(mapping, addr, wanted);
        } else if count >= avail {
            law_scan_reads_payload(
                descriptors,
                mapping,
                Cursor { idx: at.idx + 1, pos: 0 },
                (count - avail) as nat,
            );
        }
    }
    assert(payload(descriptors, scan.end) =~= payload(descriptors, at).skip(scan.done as int));
}

/// Every byte that a scan gets lies at a mapped address.
pub proof fn law_scan_reads_mapped(
    descriptors: Seq<Descriptor>,
    mapping: Set<u64>,
    at: Cursor,
    count: nat,
    i: int,
)
    requires
        at.idx + 1 < descriptors.len() ==> at.pos <= descriptors[at.idx as int].len,
        0 <= i < scan(descriptors, mapping, at, count).done,
    ensures
        guest::is_mapped(mapping, payload(descriptors, at)[i]),
    decreases descriptors.len() - at.idx,
{
    let descriptor = descriptors[at.idx as int];
    let addr = descriptor.addr + at.pos;
    let avail = (descriptor.len - at.pos) as nat;
    let wanted = if count < avail { count } else { avail };
    law_scan_reads_payload(descriptors, mapping, at, count);
    if !all_mapped(mapping, addr, wanted) {
        lemma_mapped_run_stops(mapping, addr, wanted);
        assert(guest::is_mapped(mapping, addr + i));
    } else if i < avail {
        assert(guest::is_mapped(mapping, addr + i));
    } else {
        let next = Cursor { idx: at.idx + 1, pos: 0 };
        law_scan_reads_mapped(descriptors, mapping, next, (count - avail) as nat, i - avail);
    }
}

/// Reading `first` bytes and then `second` ends as reading both at once does;
/// where the first of the two fails, both at once fail as it did.
pub proof fn law_scan_splits(
    descriptors: Seq<Descriptor>,
    mapping: Set<u64>,
    at: Cursor,
    first: nat,
    second: nat,
)
    requires
        at.idx + 1 < descriptors.len() ==> at.pos <= descriptors[at.idx as int].len,
    ensures
        ({
            let one = scan(descriptors, mapping, at, first);
            let two = scan(descriptors, mapping, one.end, second);
            let both = scan(descriptors, mapping, at, first + second);
            if one.complete {
                &&& both.end == two.end
                &&& both.done == one.done + two.done
                &&& both.complete == two.complete
            } else {
                both == one
            }
        }),
    decreases descriptors.len() - at.idx,
{
    if first == 0 || second == 0 || at.idx + 1 >= descriptors.len() {
    } else {
        let descriptor = descriptors[at.idx as int];
        let addr = descriptor.addr + at.pos;
        let avail = (descriptor.len - at.pos) as nat;
        let wanted = if first < avail { first } else { avail };
        let total = if first + second < avail { first + second } else { avail };
        if !all_mapped(mapping, addr, wanted) {
            lemma_mapped_run_stops(mapping, addr, wanted);
            let run = mapped_run(mapping, addr, wanted);
            assert(!all_mapped(mapping, addr, total)) by {
                assert(!guest::is_mapped(mapping, addr + run));
            }
            lemma_mapped_run(mapping, addr, total, run);
        } else if first < avail {
            let one = Cursor { idx: at.idx, pos: at.pos + first };
            let rest = (total - first) as nat;
            assert(all_mapped(mapping, addr, total) <==> all_mapped(mapping, addr + first, rest)) by {
                if all_mapped(mapping, addr + first, rest) {
                    assert forall|i: int| 0 <= i < total implies #[trigger] guest::is_mapped(
                        mapping,
                        addr + i,
                    ) by {
                        if i >= first {
                            assert(guest::is_mapped(mapping, addr + first + (i - first)));
                        }
                    }
                }
                if all_mapped(mapping, addr, total) {
                    assert(guest::is_mapped(mapping, addr + first));
                    assert forall|i: int| 0 <= i < rest implies #[trigger] guest::is_mapped(
                        mapping,
                        addr + first + i,
                    ) by {
                        assert(guest::is_mapped(mapping, addr + (first + i)));
                    }
                }
            }
            if !all_mapped(mapping, addr, total) {
                lemma_mapped_run_stops(mapping, addr + first, rest);
                let run = mapped_run(mapping, addr + first, rest);
                assert forall|i: int| 0 <= i < first + run implies #[trigger] guest::is_mapped(
                    mapping,
                    addr + i,
                ) by {
                    if i >= first {
                        assert(guest::is_mapped(mapping, addr + first + (i - first)));
                    }
                }
                lemma_mapped_run(mapping, addr, total, first + run);
            }
        } else {
            let next = Cursor { idx: at.idx + 1, pos: 0 };
            law_scan_splits(descriptors, mapping, next, (first - avail) as nat, second);
        }
    }
}

/// Where reading has failed, reading on fails again and gets nothing.
pub proof fn law_scan_stays_failed(
    descriptors: Seq<Descriptor>,
    mapping: Set<u64>,
    at: Cursor,
    count: nat,
    again: nat,
)
    requires
        at.idx + 1 < descriptors.len() ==> at.pos <= descriptors[at.idx as int].len,
        !scan(descriptors, mapping, at, count).complete,
        again > 0,
    ensures
        ({
            let end = scan(descriptors, mapping, at, count).end;
            scan(descriptors, mapping, end, again) == (Scan { end, done: 0, complete: false })
        }),
    decreases descriptors.len() - at.idx,
{
    let descriptor = descriptors[at.idx as int];
    let addr = descriptor.addr + at.pos;
    let avail = (descriptor.len - at.pos) as nat;
    let wanted = if count < avail { count } else { avail };
    if !all_mapped(mapping, addr, wanted) {
        lemma_mapped_run_stops(mapping, addr, wanted);
        lemma_stuck(descriptors, mapping, scan(descriptors, mapping, at, count).end, again);
    } else {
        let next = Cursor { idx: at.idx + 1, pos: 0 };
        law_scan_stays_failed(descriptors, mapping, next, (count - avail) as nat, again);
    }
}

/// Where reading has succeeded with fewer bytes than were asked for, the payload
/// is used up: reading on succeeds and gets nothing.
pub proof fn law_scan_stays_used_up(
    descriptors: Seq<Descriptor>,
    mapping: Set<u64>,
    at: Cursor,
    count: nat,
    again: nat,
)
    requires
        at.idx + 1 < descriptors.len() ==> at.pos <= descriptors[at.idx as int].len,
        scan(descriptors, mapping, at, count).complete,
        scan(descriptors, mapping, at, count).done < count,
    ensures
        ({
            let end = scan(descriptors, mapping, at, count).end;
            &&& end.idx + 1 >= descriptors.len()
            &&& payload(descriptors, end) == Seq::<int>::empty()
            &&& scan(descriptors, mapping, end, again) == (Scan { end, done: 0, complete: true })
        }),
    decreases descriptors.len() - at.idx,
{
    if at.idx + 1 < descriptors.len() {
        let avail = (descriptors[at.idx as int].len - at.pos) as nat;
        let next = Cursor { idx: at.idx + 1, pos: 0 };
        law_scan_stays_used_up(descriptors, mapping, next, (count - avail) as nat, again);
    }
}

/// Neither the header nor the status descriptor is a part of the payload:
/// whatever they are, the payload is the same.
pub proof fn law_payload_between_header_and_status(
    descriptors: Seq<Descriptor>,
    others: Seq<Descriptor>,
    at: Cursor,
)
    requires
        at.idx >= 1,
        descriptors.len() == others.len(),
        forall|i: int| 1 <= i < descriptors.len() - 1 ==> descriptors[i] == others[i],
    ensures
        payload(descriptors, at) == payload(others, at),
    decreases descriptors.len() - at.idx,
{
    if at.idx + 1 < descriptors.len() {
        let next = Cursor { idx: at.idx + 1, pos: 0 };
        law_payload_between_header_and_status(descriptors, others, next);
    }
}

/// Are the payload descriptors from `at` on mapped, each as far as it goes?
pub open spec fn readable(descriptors: Seq<Descriptor>, mapping: Set<u64>, at: Cursor) -> bool {
    forall|i: int|
        at.idx <= i < descriptors.len() - 1 ==> all_mapped(
            mapping,
            (#[trigger] descriptors[i]).addr as int,
            descriptors[i].len as nat,
        )
}

/// Reading a payload that is mapped throughout does not fail, and gets as many
/// bytes as were asked for, or all that there are.
pub proof fn law_readable_completes(
    descriptors: Seq<Descriptor>,
    mapping: Set<u64>,
    at: Cursor,
    count: nat,
)
    requires
        at.pos == 0 || (at.idx + 1 < descriptors.len() && at.pos
            < descriptors[at.idx as int].len),
        readable(descriptors, mapping, at),
    ensures
        ({
            let left = payload(descriptors, at).len();
            let scan = scan(descriptors, mapping, at, count);
            &&& scan.complete
            &&& scan.done == (if count < left {
                count
            } else {
                left
            })
        }),
    decreases descriptors.len() - at.idx,
{
    if count > 0 && at.idx + 1 < descriptors.len() {
        let descriptor = descriptors[at.idx as int];
        let addr = descriptor.addr + at.pos;
        let avail = (descriptor.len - at.pos) as nat;
        let wanted = if count < avail { count } else { avail };
        assert(all_mapped(mapping, addr, wanted)) by {
            assert(all_mapped(mapping, descriptor.addr as int, descriptor.len as nat));
            assert(guest::is_mapped(mapping, descriptor.addr + at.pos as int));
            assert forall|i: int| 0 <= i < wanted implies #[trigger] guest::is_mapped(
                mapping,
                addr + i,
            ) by {
                assert(guest::is_mapped(mapping, descriptor.addr + (at.pos + i)));
            }
        }
        if count >= avail {
            let next = Cursor { idx: at.idx + 1, pos: 0 };
            law_readable_completes(descriptors, mapping, next, (count - avail) as nat);
        }
    }
}

/// Has the memory held no more than one byte at each of these addresses?
pub open spec fn steady(held: Set<(u64, u8)>, addresses: Seq<int>) -> bool {
    forall|i: int, v: u8, w: u8|
        0 <= i < addresses.len() && #[trigger] held.contains((addresses[i] as u64, v))
            && #[trigger] held.contains((addresses[i] as u64, w)) ==> v == w
}

/// What the memory holds at these addresses, where it is steady there.
pub open spec fn contents(held: Set<(u64, u8)>, addresses: Seq<int>) -> Seq<u8> {
    Seq::new(
        addresses.len(),
        |i: int| choose|v: u8| #[trigger] held.contains((addresses[i] as u64, v)),
    )
}

/// Behind its first addresses, a steady payload is steady, and has the rest of
/// the contents.
proof fn lemma_contents_skip(held: Set<(u64, u8)>, addresses: Seq<int>, done: int)
    requires
        steady(held, addresses),
        0 <= done <= addresses.len(),
    ensures
        steady(held, addresses.skip(done)),
        contents(held, addresses.skip(done)) == contents(held, addresses).skip(done),
{
    let rest = addresses.skip(done);
    assert forall|i: int, v: u8, w: u8|
        0 <= i < rest.len() && #[trigger] held.contains((rest[i] as u64, v))
            && #[trigger] held.contains((rest[i] as u64, w)) implies v == w by {
        assert(addresses[done + i] == rest[i]);
    }
    assert forall|i: int| 0 <= i < rest.len() implies #[trigger] contents(held, rest)[i]
        == contents(held, addresses).skip(done)[i] by {
        assert(addresses[done + i] == rest[i]);
    }
    assert(contents(held, rest) =~= contents(held, addresses).skip(done));
}

/// Where the guest leaves its memory alone, the bytes that a call gets are the
/// contents of the payload from where the last call stopped, and the next call
/// goes on behind them.
pub proof fn law_consume_gives_contents(
    before: Request,
    after: Request,
    was: Seq<u8>,
    buf: Seq<u8>,
    count: u32,
)
    requires
        before.wf(),
        was.len() <= u32::MAX,
        Request::consumed(before, after, was, buf, Ok(count)),
        steady(before.message.held(), before.rest()),
    ensures
        count <= before.rest().len(),
        count == was.len() || count == before.rest().len(),
        buf.take(count as int) == contents(before.message.held(), before.rest()).take(count as int),
        after.rest() == before.rest().skip(count as int),
{
    let message = before.message;
    let held = message.held();
    let rest = before.rest();
    law_scan_reads_payload(message.descriptors@, message.mapping(), before.cursor(), was.len());
    assert forall|i: int| 0 <= i < count implies #[trigger] buf[i] == contents(held, rest)[i] by {
        assert(held.contains((rest[i] as u64, buf[i])));
        let v = choose|v: u8| #[trigger] held.contains((rest[i] as u64, v));
        assert(held.contains((rest[i] as u64, v)));
    }
    assert(buf.take(count as int) =~= contents(held, rest).take(count as int));
}

/// A call of `consume` that succeeds: what the buffer held before and after,
/// and the number of bytes that were read.
pub struct Reading {
    pub was: Seq<u8>,
    pub buf: Seq<u8>,
    pub count: u32,
}

impl Reading {
    /// Is this a call on `before` that leaves `after`?
    pub open spec fn leads(self, before: Request, after: Request) -> bool {
        &&& self.was.len() <= u32::MAX
        &&& Request::consumed(before, after, self.was, self.buf, Ok(self.count))
    }
}

/// Does each request of `requests` come from the one before by the reading that
/// has the same place in `readings`?
pub open spec fn is_reading(requests: Seq<Request>, readings: Seq<Reading>) -> bool {
    &&& requests.len() == readings.len() + 1
    &&& forall|i: int| 0 <= i < requests.len() ==> (#[trigger] requests[i]).wf()
    &&& forall|i: int|
        0 <= i < readings.len() ==> (#[trigger] readings[i]).leads(requests[i], requests[i + 1])
}

/// The bytes that these readings get, one after the other.
pub open spec fn delivered(readings: Seq<Reading>) -> Seq<u8>
    decreases readings.len(),
{
    if readings.len() == 0 {
        Seq::empty()
    } else {
        delivered(readings.drop_last()) + readings.last().buf.take(readings.last().count as int)
    }
}

/// Where the guest leaves its memory alone, any run of calls gets the contents
/// of the payload, byte for byte and in order, and goes on behind them.
pub proof fn law_readings_give_contents(requests: Seq<Request>, readings: Seq<Reading>)
    requires
        is_reading(requests, readings),
        steady(requests.first().message.held(), requests.first().rest()),
    ensures
        ({
            let first = requests.first();
            let got = delivered(readings);
            &&& got.len() <= first.rest().len()
            &&& got == contents(first.message.held(), first.rest()).take(got.len() as int)
            &&& requests.last().message == first.message
            &&& requests.last().rest() == first.rest().skip(got.len() as int)
        }),
    decreases readings.len(),
{
    let first = requests.first();
    let held = first.message.held();
    let all = contents(held, first.rest());
    if readings.len() == 0 {
        assert(all.take(0) =~= Seq::empty());
        assert(first.rest().skip(0) =~= first.rest());
    } else {
        let n = readings.len() - 1;
        let earlier = readings.drop_last();
        let prior = requests.drop_last();
        assert forall|i: int| 0 <= i < earlier.len() implies (#[trigger] earlier[i]).leads(
            prior[i],
            prior[i + 1],
        ) by {
            assert(readings[i].leads(requests[i], requests[i + 1]));
        }
        law_readings_give_contents(prior, earlier);
        let before = requests[n];
        let after = requests[n + 1];
        let reading = readings[n];
        assert(reading.leads(before, after));
        let done = delivered(earlier).len() as int;
        lemma_contents_skip(held, first.rest(), done);
        law_consume_gives_contents(before, after, reading.was, reading.buf, reading.count);
        let count = reading.count as int;
        assert(delivered(readings) =~= all.take(done + count));
        assert(after.rest() =~= first.rest().skip(done + count));
    }
}

/// Where the guest leaves its memory alone, two calls get the bytes that one
/// call with a buffer of both sizes gets, and leave the request at the same
/// place: how a payload is cut into reads does not matter.
pub proof fn law_readings_join(
    before: Request,
    one: Reading,
    middle: Request,
    two: Reading,
    after: Request,
    was: Seq<u8>,
    buf: Seq<u8>,
    outcome: Result<u32>,
    both: Request,
)
    requires
        before.wf(),
        middle.wf(),
        one.leads(before, middle),
        two.leads(middle, after),
        Request::consumed(before, both, was, buf, outcome),
        was.len() == one.was.len() + two.was.len() <= u32::MAX,
        steady(before.message.held(), before.rest()),
    ensures
        one.count + two.count <= u32::MAX,
        outcome == Ok::<u32, Error>((one.count + two.count) as u32),
        buf.take(one.count + two.count) == one.buf.take(one.count as int) + two.buf.take(
            two.count as int,
        ),
        both.cursor() == after.cursor(),
{
    let message = before.message;
    law_scan_splits(
        message.descriptors@,
        message.mapping(),
        before.cursor(),
        one.was.len(),
        two.was.len(),
    );
    let sum = one.count + two.count;
    law_consume_gives_contents(before, middle, one.was, one.buf, one.count);
    law_consume_gives_contents(before, both, was, buf, sum as u32);
    let held = message.held();
    let all = contents(held, before.rest());
    lemma_contents_skip(held, before.rest(), one.count as int);
    law_consume_gives_contents(middle, after, two.was, two.buf, two.count);
    assert(buf.take(sum) =~= one.buf.take(one.count as int) + two.buf.take(two.count as int));
}

/// The stream of a new device offers these sample formats and no other.
pub proof fn law_default_formats(format: u8)
    requires
        format < 64,
    ensures
        has_bit(SUPPORTED_FORMATS, format) <==> format == VIRTIO_SND_PCM_FMT_U8 || format
            == VIRTIO_SND_PCM_FMT_S16 || format == VIRTIO_SND_PCM_FMT_S24 || format
            == VIRTIO_SND_PCM_FMT_S32,
{
    assert((((1u64 << 4u8) | (1u64 << 5u8) | (1u64 << 15u8) | (1u64 << 17u8)) >> format) & 1 == 1
        <==> format == 4 || format == 5 || format == 15 || format == 17) by (bit_vector)
        requires
            format < 64,
    ;
}

/// The stream of a new device offers these frame rates and no other.
pub proof fn law_default_rates(rate: u8)
    requires
        rate < 64,
    ensures
        has_bit(SUPPORTED_RATES, rate) <==> VIRTIO_SND_PCM_RATE_8000 <= rate
            <= VIRTIO_SND_PCM_RATE_48000,
{
    assert((((1u64 << 1u8) | (1u64 << 2u8) | (1u64 << 3u8) | (1u64 << 4u8) | (1u64 << 5u8) | (1u64
        << 6u8) | (1u64 << 7u8)) >> rate) & 1 == 1 <==> 1 <= rate <= 7) by (bit_vector)
        requires
            rate < 64,
    ;
}

} // verus!
