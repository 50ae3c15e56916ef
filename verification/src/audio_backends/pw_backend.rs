//! PipeWire backend device: what it keeps of each stream, what it asks of the
//! audio server, and the data on its way there.
//!
//! The connection to the server lies outside. Each operation here decides what
//! becomes of the stream and says what the server has to be asked for.

use crate::audio_backends::ringbuffer;
use crate::audio_backends::ringbuffer::SpaRingbuffer;
use crate::virtio_sound::{
    VIRTIO_SND_D_INPUT, VIRTIO_SND_D_OUTPUT, VIRTIO_SND_PCM_FMT_S16, VIRTIO_SND_PCM_FMT_S32,
    VIRTIO_SND_PCM_FMT_S8, VIRTIO_SND_PCM_FMT_U16, VIRTIO_SND_PCM_FMT_U32, VIRTIO_SND_PCM_FMT_U8,
    VIRTIO_SND_PCM_RATE_32000, VIRTIO_SND_PCM_RATE_44100, VIRTIO_SND_PCM_RATE_48000,
    VIRTIO_SND_PCM_RATE_64000, VIRTIO_SND_R_PCM_PREPARE, VIRTIO_SND_R_PCM_RELEASE,
    VIRTIO_SND_R_PCM_SET_PARAMS, VIRTIO_SND_R_PCM_START, VIRTIO_SND_R_PCM_STOP,
};
use crate::stream::PCMState;
use crate::{Error, PCMParams, Result};
use vstd::prelude::*;

verus! {

/// The size in bytes of the ring buffer of a stream.
pub const RINGBUFFER_SIZE: u32 = 0x40_0000;

/// What turns an index of a ring buffer into a place in it.
pub const RINGBUFFER_MASK: u32 = RINGBUFFER_SIZE - 1;

/// The sample formats of the audio server.
#[derive(Debug, Clone, Copy, PartialEq, Eq, Structural)]
pub enum AudioFormat {
    Unknown,
    S8,
    U8,
    S16,
    U16,
    S32,
    U32,
}

/// The speakers of the audio server.
#[derive(Debug, Clone, Copy, PartialEq, Eq, Structural)]
pub enum AudioChannel {
    Unknown,
    Mono,
    FrontLeft,
    FrontRight,
}

/// Which way the data of a stream flows.
#[derive(Debug, Clone, Copy, PartialEq, Eq, Structural)]
pub enum Direction {
    Output,
    Input,
}

/// The raw audio format that is offered to the audio server.
#[derive(Debug, Clone, Copy)]
pub struct AudioInfo {
    pub format: AudioFormat,
    pub rate: u32,
    pub flags: u32,
    pub channels: u32,
    pub position: [AudioChannel; 64],
}

/// What the audio server has to be asked for when a stream is prepared.
#[derive(Debug, Clone, Copy, PartialEq, Eq, Structural)]
pub enum PrepareAction {
    /// Connect a new stream.
    Connect(Direction),
    /// Offer the format to the stream that there is.
    UpdateParams,
    /// Nothing.
    Leave,
}

/// How a stream is prepared.
pub struct PreparePlan {
    pub info: AudioInfo,
    /// the latency that is asked of the server, as a number of frames over the
    /// frame rate
    pub latency: String,
    pub action: PrepareAction,
}

/// What is handed to the audio server in answer to a request for data.
#[derive(Debug, Clone, Copy, PartialEq, Eq, Structural)]
pub struct Chunk {
    pub offset: u32,
    pub stride: i32,
    pub size: u32,
}

/// The operations that change the state of a stream.
pub enum Command {
    SetParams,
    Prepare,
    Release,
    Start,
    Stop,
}

/// Is this a state of a stream? It is 0 until the parameters are set, and then
/// the last request that had an effect.
pub open spec fn is_state(state: u32) -> bool {
    ||| state == 0
    ||| state == VIRTIO_SND_R_PCM_SET_PARAMS
    ||| state == VIRTIO_SND_R_PCM_PREPARE
    ||| state == VIRTIO_SND_R_PCM_RELEASE
    ||| state == VIRTIO_SND_R_PCM_START
    ||| state == VIRTIO_SND_R_PCM_STOP
}

/// Does the audio server know the stream in this state?
pub open spec fn has_stream(state: u32) -> bool {
    ||| state == VIRTIO_SND_R_PCM_PREPARE
    ||| state == VIRTIO_SND_R_PCM_START
    ||| state == VIRTIO_SND_R_PCM_STOP
}

/// The state that a command leads to, or none where the command is refused for
/// want of a stream at the audio server.
pub open spec fn next_state(state: u32, command: Command) -> Option<u32> {
    match command {
        Command::SetParams => Some(
            if state == 0 {
                VIRTIO_SND_R_PCM_SET_PARAMS
            } else {
                state
            },
        ),
        Command::Prepare => Some(
            if state == VIRTIO_SND_R_PCM_SET_PARAMS || state == VIRTIO_SND_R_PCM_RELEASE {
                VIRTIO_SND_R_PCM_PREPARE
            } else {
                state
            },
        ),
        Command::Release => if has_stream(state) {
            Some(VIRTIO_SND_R_PCM_RELEASE)
        } else {
            None
        },
        Command::Start => if has_stream(state) {
            Some(VIRTIO_SND_R_PCM_START)
        } else {
            None
        },
        Command::Stop => if has_stream(state) {
            Some(VIRTIO_SND_R_PCM_STOP)
        } else {
            None
        },
    }
}

/// The server's name for a sample format of the driver.
pub open spec fn audio_format(format: u8) -> AudioFormat {
    if format == VIRTIO_SND_PCM_FMT_S8 {
        AudioFormat::S8
    } else if format == VIRTIO_SND_PCM_FMT_U8 {
        AudioFormat::U8
    } else if format == VIRTIO_SND_PCM_FMT_S16 {
        AudioFormat::S16
    } else if format == VIRTIO_SND_PCM_FMT_U16 {
        AudioFormat::U16
    } else if format == VIRTIO_SND_PCM_FMT_S32 {
        AudioFormat::S32
    } else if format == VIRTIO_SND_PCM_FMT_U32 {
        AudioFormat::U32
    } else {
        AudioFormat::Unknown
    }
}

/// The frames per second of a frame rate of the driver; those of 44100 stand
/// in for every rate that the backend does not know.
pub open spec fn frames_per_second(rate: u8) -> u32 {
    if rate == VIRTIO_SND_PCM_RATE_32000 {
        32000
    } else if rate == VIRTIO_SND_PCM_RATE_48000 {
        48000
    } else if rate == VIRTIO_SND_PCM_RATE_64000 {
        64000
    } else {
        44100
    }
}

/// The speaker of channel number `i` where there are `channels` of them.
pub open spec fn speaker(channels: u8, i: int) -> AudioChannel {
    if channels == 1 && i == 0 {
        AudioChannel::Mono
    } else if channels == 2 && i == 0 {
        AudioChannel::FrontLeft
    } else if channels == 2 && i == 1 {
        AudioChannel::FrontRight
    } else {
        AudioChannel::Unknown
    }
}

/// The bytes of a frame, with two bytes for each channel.
pub open spec fn frame_size(channels: int) -> int {
    channels * 2
}

/// How many bytes may wait in the ring buffer: the whole frames of 46440
/// microseconds.
pub open spec fn highwater(rate: int, channels: int) -> int {
    let wanted = 46440 * rate / 1000000 * frame_size(channels);
    if wanted < RINGBUFFER_SIZE {
        wanted
    } else {
        RINGBUFFER_SIZE as int
    }
}

/// The frames of 30 milliseconds.
pub open spec fn latency_frames(rate: int) -> int {
    rate * 30 / 1000
}

/// `n` in decimal.
pub open spec fn decimal(n: nat) -> Seq<char>
    decreases n,
{
    if n < 10 {
        seq![digit(n)]
    } else {
        decimal(n / 10).push(digit(n % 10))
    }
}

/// The decimal digit `d`.
pub open spec fn digit(d: nat) -> char {
    (('0' as nat) + d) as char
}

/// The latency of 30 milliseconds, as frames over frame rate.
pub open spec fn latency_text(rate: nat) -> Seq<char> {
    decimal(latency_frames(rate as int) as nat) + seq![' ', '/', ' '] + decimal(rate)
}

impl AudioInfo {
    /// The format that is offered for a stream with these parameters.
    pub open spec fn is_for(self, params: PCMParams) -> bool {
        &&& self.format == audio_format(params.format)
        &&& self.rate == frames_per_second(params.rate)
        &&& self.flags == 0
        &&& self.channels == params.channels
        &&& forall|i: int| 0 <= i < 64 ==> #[trigger] self.position@[i] == speaker(params.channels, i)
    }
}

fn audio_format_of(format: u8) -> (res: AudioFormat)
    ensures
        res == audio_format(format),
{
    if format == VIRTIO_SND_PCM_FMT_S8 {
        AudioFormat::S8
    } else if format == VIRTIO_SND_PCM_FMT_U8 {
        AudioFormat::U8
    } else if format == VIRTIO_SND_PCM_FMT_S16 {
        AudioFormat::S16
    } else if format == VIRTIO_SND_PCM_FMT_U16 {
        AudioFormat::U16
    } else if format == VIRTIO_SND_PCM_FMT_S32 {
        AudioFormat::S32
    } else if format == VIRTIO_SND_PCM_FMT_U32 {
        AudioFormat::U32
    } else {
        AudioFormat::Unknown
    }
}

fn frames_per_second_of(rate: u8) -> (res: u32)
    ensures
        res == frames_per_second(rate),
{
    if rate == VIRTIO_SND_PCM_RATE_32000 {
        32000
    } else if rate == VIRTIO_SND_PCM_RATE_44100 {
        44100
    } else if rate == VIRTIO_SND_PCM_RATE_48000 {
        48000
    } else if rate == VIRTIO_SND_PCM_RATE_64000 {
        64000
    } else {
        44100
    }
}

fn positions_of(channels: u8) -> (res: Option<[AudioChannel; 64]>)
    ensures
        res is Some <==> channels == 1 || channels == 2,
        res matches Some(position) ==> forall|i: int|
            0 <= i < 64 ==> #[trigger] position@[i] == speaker(channels, i),
{
    let mut position: [AudioChannel; 64] = [AudioChannel::Unknown; 64];
    if channels == 2 {
        position[0] = AudioChannel::FrontLeft;
        position[1] = AudioChannel::FrontRight;
        Some(position)
    } else if channels == 1 {
        position[0] = AudioChannel::Mono;
        Some(position)
    } else {
        None
    }
}

fn digit_text(d: u64) -> (text: &'static str)
    requires
        d < 10,
    ensures
        text@ == seq![digit(d as nat)],
{
    proof {
        reveal_strlit("0");
        reveal_strlit("1");
        reveal_strlit("2");
        reveal_strlit("3");
        reveal_strlit("4");
        reveal_strlit("5");
        reveal_strlit("6");
        reveal_strlit("7");
        reveal_strlit("8");
        reveal_strlit("9");
    }
    if d == 0 {
        "0"
    } else if d == 1 {
        "1"
    } else if d == 2 {
        "2"
    } else if d == 3 {
        "3"
    } else if d == 4 {
        "4"
    } else if d == 5 {
        "5"
    } else if d == 6 {
        "6"
    } else if d == 7 {
        "7"
    } else if d == 8 {
        "8"
    } else {
        "9"
    }
}

/// Writes `n` in decimal behind what `text` holds.
fn append_decimal(text: &mut String, n: u64)
    ensures
        final(text)@ == old(text)@ + decimal(n as nat),
    decreases n,
{
    if n >= 10 {
        append_decimal(text, n / 10);
    }
    text.append(digit_text(n % 10));
    assert(text@ =~= old(text)@ + decimal(n as nat));
}

/// The state of the backend: for each stream its parameters, its state,
/// whether the audio server knows it, and the data on its way there.
pub struct PwBackend {
    pub stream_params: Vec<PCMParams>,
    pub stream_states: Vec<u32>,
    /// the format with which each stream was connected, of those that the
    /// audio server knows
    pub stream_formats: Vec<Option<AudioInfo>>,
    pub stream_spa_ringbuffer: Vec<SpaRingbuffer>,
    pub stream_buffers: Vec<Vec<u8>>,
    /// how many bytes may wait in a ring buffer
    pub highwater_mark: u32,
}

impl PwBackend {
    /// There is one of everything for each stream, the audio server knows a
    /// stream where its state says so, and no ring buffer holds more than it
    /// has room for.
    pub open spec fn wf(self) -> bool {
        let n = self.stream_states@.len();
        &&& self.stream_params@.len() == n
        &&& self.stream_formats@.len() == n
        &&& self.stream_spa_ringbuffer@.len() == n
        &&& self.stream_buffers@.len() == n
        &&& self.highwater_mark <= RINGBUFFER_SIZE
        &&& forall|i: int|
            0 <= i < n ==> is_state(#[trigger] self.stream_states@[i])
                && self.stream_formats@[i] is Some == has_stream(self.stream_states@[i])
        &&& forall|i: int|
            0 <= i < n ==> (#[trigger] self.stream_formats@[i] matches Some(info)
                ==> info.channels == 1 || info.channels == 2)
        &&& forall|i: int|
            0 <= i < n ==> (#[trigger] self.stream_spa_ringbuffer@[i]).wf(RINGBUFFER_SIZE as int)
        &&& forall|i: int|
            0 <= i < n ==> (#[trigger] self.stream_buffers@[i])@.len() == RINGBUFFER_SIZE
    }

    /// Is there a stream with this id?
    pub open spec fn has(self, stream_id: u32) -> bool {
        stream_id < self.stream_states@.len()
    }

    /// Does the audio server know the stream with this id?
    pub open spec fn knows(self, stream_id: u32) -> bool {
        self.has(stream_id) && self.stream_formats@[stream_id as int] is Some
    }

    /// The format with which a stream that the audio server knows was connected.
    pub open spec fn format(self, stream_id: u32) -> AudioInfo {
        self.stream_formats@[stream_id as int]->0
    }

    /// The bytes of a stream that wait for the audio server, in order.
    pub open spec fn queue(self, stream_id: u32) -> Seq<u8> {
        self.ring(stream_id).queued(self.buffer(stream_id))
    }

    /// How many bytes of a stream wait for the audio server.
    pub open spec fn waiting(self, stream_id: u32) -> int {
        self.ring(stream_id).filled()
    }

    /// How many of `len` bytes a stream takes: as many as there is room for
    /// below the high-water mark. Of a length, the lower 32 bits count.
    pub open spec fn accepts(self, stream_id: u32, len: nat) -> int {
        let room = self.highwater_mark - self.waiting(stream_id);
        let low = len as int % 0x1_0000_0000;
        if low > room {
            room
        } else {
            low
        }
    }

    /// Does no more wait than the high-water mark lets, and does the write index
    /// go on counting when the stream takes what it can of `len` bytes?
    pub open spec fn has_room(self, stream_id: u32, len: nat) -> bool {
        &&& self.waiting(stream_id) <= self.highwater_mark
        &&& self.ring(stream_id).writeindex + self.accepts(stream_id, len) <= u32::MAX
    }

    /// How many bytes the audio server gets at most, where it asks for
    /// `requested` frames and has room for `maxsize` bytes. Of the former
    /// number, the lower 32 bits count.
    pub open spec fn asked(info: AudioInfo, requested: u64, maxsize: u32) -> int {
        let low = (requested * frame_size(info.channels as int)) % 0x1_0000_0000;
        if low < maxsize {
            low
        } else {
            maxsize as int
        }
    }

    /// The ring of a stream.
    pub open spec fn ring(self, stream_id: u32) -> SpaRingbuffer {
        self.stream_spa_ringbuffer@[stream_id as int]
    }

    /// The buffer that the ring of a stream lies in.
    pub open spec fn buffer(self, stream_id: u32) -> Seq<u8> {
        self.stream_buffers@[stream_id as int]@
    }

    /// Have these bytes been put behind those of the stream that waited? They
    /// lie in the ring from the write index on, which counts them, and the rest
    /// of the buffer is as it was.
    pub open spec fn took(
        before: PwBackend,
        after: PwBackend,
        stream_id: u32,
        bytes: Seq<u8>,
    ) -> bool {
        &&& after.queue(stream_id) == before.queue(stream_id) + bytes
        &&& after.ring(stream_id).readindex == before.ring(stream_id).readindex
        &&& after.ring(stream_id).writeindex == before.ring(stream_id).writeindex + bytes.len()
        &&& after.buffer(stream_id).len() == before.buffer(stream_id).len()
        &&& ringbuffer::wrote(
            before.buffer(stream_id),
            after.buffer(stream_id),
            RINGBUFFER_SIZE as int,
            before.ring(stream_id).writeindex as int % RINGBUFFER_SIZE as int,
            bytes,
            bytes.len() as int,
        )
    }

    /// Were these bytes the first of the stream that waited, and do only the
    /// others still wait? The read index counts them, and no buffer changes.
    pub open spec fn gave(
        before: PwBackend,
        after: PwBackend,
        stream_id: u32,
        bytes: Seq<u8>,
    ) -> bool {
        &&& before.queue(stream_id) == bytes + after.queue(stream_id)
        &&& after.ring(stream_id).readindex == before.ring(stream_id).readindex + bytes.len()
        &&& after.ring(stream_id).writeindex == before.ring(stream_id).writeindex
        &&& after.stream_buffers == before.stream_buffers
    }

    /// Is the data of this stream the same in the two?
    pub open spec fn kept(before: PwBackend, after: PwBackend, stream_id: u32) -> bool {
        &&& after.ring(stream_id) == before.ring(stream_id)
        &&& after.buffer(stream_id) == before.buffer(stream_id)
    }

    /// Has a stream that the audio server is running taken of `req` what there
    /// is room for, with all else left alone?
    pub open spec fn stored(
        before: PwBackend,
        after: PwBackend,
        stream_id: u32,
        req: Seq<u8>,
    ) -> bool {
        let taken = before.accepts(stream_id, req.len());
        &&& 0 <= taken <= req.len()
        &&& PwBackend::took(before, after, stream_id, req.take(taken))
        &&& after.waiting(stream_id) == before.waiting(stream_id) + taken
        &&& after.same_streams(before)
        &&& after.same_data_but(before, stream_id)
    }

    /// Have the two the same streams, in the same states?
    pub open spec fn same_streams(self, other: PwBackend) -> bool {
        &&& self.stream_params == other.stream_params
        &&& self.stream_states == other.stream_states
        &&& self.stream_formats == other.stream_formats
    }

    /// Do the two hold the same data for every stream but this one?
    pub open spec fn same_data_but(self, other: PwBackend, stream_id: u32) -> bool {
        &&& self.highwater_mark == other.highwater_mark
        &&& self.stream_spa_ringbuffer@.len() == other.stream_spa_ringbuffer@.len()
        &&& self.stream_buffers@.len() == other.stream_buffers@.len()
        &&& forall|i: int|
            0 <= i < self.stream_spa_ringbuffer@.len() && i != stream_id
                ==> #[trigger] self.stream_spa_ringbuffer@[i] == other.stream_spa_ringbuffer@[i]
        &&& forall|i: int|
            0 <= i < self.stream_buffers@.len() && i != stream_id
                ==> #[trigger] self.stream_buffers@[i] == other.stream_buffers@[i]
    }

    /// Has a command been carried out on a stream of `before` to give `after`,
    /// with the data left alone? `format` is the one with which the stream is
    /// connected afterwards, if it is.
    pub open spec fn commanded(
        before: PwBackend,
        after: PwBackend,
        stream_id: u32,
        command: Command,
        format: Option<AudioInfo>,
    ) -> bool {
        let state = next_state(before.stream_states@[stream_id as int], command);
        &&& state is Some
        &&& after.stream_states@ == before.stream_states@.update(stream_id as int, state->0)
        &&& after.stream_formats@ == before.stream_formats@.update(stream_id as int, format)
        &&& after.stream_spa_ringbuffer == before.stream_spa_ringbuffer
        &&& after.stream_buffers == before.stream_buffers
    }

    /// The backend before any stream has been set up. The audio server knows no
    /// stream and no data waits.
    pub fn new(nr_streams: usize) -> (backend: Self)
        ensures
            backend.wf(),
            backend.stream_states@.len() == nr_streams,
            backend.highwater_mark == 0,
            forall|i: int| 0 <= i < nr_streams ==> (#[trigger] backend.stream_params@[i]).is_default(),
            forall|i: int| 0 <= i < nr_streams ==> #[trigger] backend.stream_states@[i] == 0,
            forall|i: int| 0 <= i < nr_streams ==> #[trigger] backend.stream_formats@[i] is None,
            forall|i: int|
                0 <= i < nr_streams ==> #[trigger] backend.stream_spa_ringbuffer@[i] == (SpaRingbuffer {
                    readindex: 0,
                    writeindex: 0,
                }),
            forall|i: int|
                0 <= i < nr_streams ==> (#[trigger] backend.stream_buffers@[i])@ == Seq::new(
                    RINGBUFFER_SIZE as nat,
                    |j: int| 0u8,
                ),
    {
        let mut backend = PwBackend {
            stream_params: Vec::new(),
            stream_states: Vec::new(),
            stream_formats: Vec::new(),
            stream_spa_ringbuffer: Vec::new(),
            stream_buffers: Vec::new(),
            highwater_mark: 0,
        };
        let mut made: usize = 0;
        while made < nr_streams
            invariant
                made <= nr_streams,
                backend.wf(),
                backend.stream_states@.len() == made,
                backend.highwater_mark == 0,
                forall|i: int| 0 <= i < made ==> (#[trigger] backend.stream_params@[i]).is_default(),
                forall|i: int| 0 <= i < made ==> #[trigger] backend.stream_states@[i] == 0,
                forall|i: int| 0 <= i < made ==> #[trigger] backend.stream_formats@[i] is None,
                forall|i: int|
                    0 <= i < made ==> #[trigger] backend.stream_spa_ringbuffer@[i] == (SpaRingbuffer {
                        readindex: 0,
                        writeindex: 0,
                    }),
                forall|i: int|
                    0 <= i < made ==> (#[trigger] backend.stream_buffers@[i])@ == Seq::new(
                        RINGBUFFER_SIZE as nat,
                        |j: int| 0u8,
                    ),
            decreases nr_streams - made,
        {
            let buffer: Vec<u8> = vec![0u8; RINGBUFFER_SIZE as usize];
            assert(buffer@ =~= Seq::new(RINGBUFFER_SIZE as nat, |j: int| 0u8));
            backend.stream_params.push(PCMParams::default());
            backend.stream_states.push(0);
            backend.stream_formats.push(None);
            backend.stream_spa_ringbuffer.push(SpaRingbuffer { readindex: 0, writeindex: 0 });
            backend.stream_buffers.push(buffer);
            made += 1;
        }
        backend
    }

    /// The state of a stream.
    pub fn get_stream_state(&self, stream_id: u32) -> (state: Result<u32>)
        ensures
            state == (if self.has(stream_id) {
                Ok::<u32, Error>(self.stream_states@[stream_id as int])
            } else {
                Err::<u32, Error>(Error::StreamWithIdNotFound(stream_id))
            }),
    {
        if (stream_id as usize) < self.stream_states.len() {
            Ok(self.stream_states[stream_id as usize])
        } else {
            Err(Error::StreamWithIdNotFound(stream_id))
        }
    }

    /// Takes data of the driver into the ring buffer of a stream, as far as
    /// there is room, and gives the number of bytes that were taken. `streaming`
    /// says whether the audio server is running the stream: it takes nothing
    /// where it is not.
    pub fn write(&mut self, stream_id: u32, streaming: bool, req: &[u8]) -> (outcome: Result<u32>)
        requires
            old(self).wf(),
            old(self).has(stream_id),
            old(self).knows(stream_id) && streaming ==> old(self).has_room(stream_id, req@.len()),
        ensures
            final(self).wf(),
            !old(self).knows(stream_id) ==> {
                &&& outcome == Err::<u32, Error>(Error::StreamWithIdNotFound(stream_id))
                &&& *final(self) == *old(self)
            },
            old(self).knows(stream_id) && !streaming ==> {
                &&& outcome == Ok::<u32, Error>(0)
                &&& *final(self) == *old(self)
            },
            old(self).knows(stream_id) && streaming ==> {
                &&& outcome == Ok::<u32, Error>(old(self).accepts(stream_id, req@.len()) as u32)
                &&& PwBackend::stored(*old(self), *final(self), stream_id, req@)
            },
    {
        let id: usize = stream_id as usize;
        if self.stream_formats[id].is_none() {
            return Err(Error::StreamWithIdNotFound(stream_id));
        }
        if !streaming {
            return Ok(0);
        }
        let ghost ring = self.stream_spa_ringbuffer@[id as int];
        let ghost before = self.stream_buffers@[id as int]@;
        let (filled, index) = self.stream_spa_ringbuffer[id].get_write_index();
        let avail: u32 = self.highwater_mark - filled as u32;
        let long: u64 = req.len() as u64;
        assert(long as u32 == long % 0x1_0000_0000) by (bit_vector);
        let mut len: u32 = long as u32;
        if len > avail {
            len = avail;
        }
        assert(index & 0x3f_ffff == index % 0x40_0000) by (bit_vector);
        ringbuffer::write_data(
            &mut self.stream_buffers[id],
            RINGBUFFER_SIZE,
            index & RINGBUFFER_MASK,
            req,
            len,
        );
        self.stream_spa_ringbuffer[id].write_update(index + len);
        proof {
            ringbuffer::law_write_appends(
                ring,
                before,
                self.stream_buffers@[id as int]@,
                req@,
                len,
            );
        }
        Ok(len)
    }

    /// Takes data of a stream to the driver. Nothing is recorded yet, so there
    /// is none.
    pub fn read(&self, _stream_id: u32) -> (outcome: Result<()>)
        ensures
            outcome == Ok::<(), Error>(()),
    {
        Ok(())
    }

    /// Sets the parameters of a stream.
    pub fn set_param(&mut self, stream_id: u32, params: PCMParams) -> (outcome: Result<()>)
        requires
            old(self).wf(),
            old(self).has(stream_id),
        ensures
            final(self).wf(),
            outcome == Ok::<(), Error>(()),
            PwBackend::commanded(
                *old(self),
                *final(self),
                stream_id,
                Command::SetParams,
                old(self).stream_formats@[stream_id as int],
            ),
            final(self).stream_params@ == old(self).stream_params@.update(stream_id as int, params),
            final(self).highwater_mark == old(self).highwater_mark,
    {
        let id: usize = stream_id as usize;
        self.stream_params.set(id, params);
        if self.stream_states[id] == 0 {
            self.stream_states.set(id, VIRTIO_SND_R_PCM_SET_PARAMS);
        }
        assert(self.stream_states@ =~= old(self).stream_states@.update(
            id as int,
            next_state(old(self).stream_states@[id as int], Command::SetParams)->0,
        ));
        assert(self.stream_formats@ =~= old(self).stream_formats@.update(
            id as int,
            old(self).stream_formats@[id as int],
        ));
        Ok(())
    }

    /// Prepares a stream: fixes the audio format and the high-water mark, and
    /// says what the audio server has to be asked for.
    pub fn prepare(&mut self, stream_id: u32) -> (plan: Result<PreparePlan>)
        requires
            old(self).wf(),
            old(self).has(stream_id),
            ({
                let params = old(self).stream_params@[stream_id as int];
                let state = old(self).stream_states@[stream_id as int];
                &&& params.channels == 1 || params.channels == 2
                &&& state == VIRTIO_SND_R_PCM_SET_PARAMS || state == VIRTIO_SND_R_PCM_RELEASE
            }) ==> {
                ||| old(self).stream_params@[stream_id as int].direction == VIRTIO_SND_D_OUTPUT
                ||| old(self).stream_params@[stream_id as int].direction == VIRTIO_SND_D_INPUT
            },
        ensures
            final(self).wf(),
            ({
                let params = old(self).stream_params@[stream_id as int];
                let state = old(self).stream_states@[stream_id as int];
                if params.channels == 1 || params.channels == 2 {
                    &&& final(self).stream_params == old(self).stream_params
                    &&& final(self).highwater_mark == highwater(
                        frames_per_second(params.rate) as int,
                        params.channels as int,
                    )
                    &&& plan matches Ok(plan) && {
                        &&& PwBackend::commanded(
                            *old(self),
                            *final(self),
                            stream_id,
                            Command::Prepare,
                            if plan.action is Connect {
                                Some(plan.info)
                            } else {
                                old(self).stream_formats@[stream_id as int]
                            },
                        )
                        &&& plan.info.is_for(params)
                        &&& plan.latency@ == latency_text(frames_per_second(params.rate) as nat)
                        &&& plan.action == (if state == VIRTIO_SND_R_PCM_SET_PARAMS || state
                            == VIRTIO_SND_R_PCM_RELEASE {
                            PrepareAction::Connect(
                                if params.direction == VIRTIO_SND_D_OUTPUT {
                                    Direction::Output
                                } else {
                                    Direction::Input
                                },
                            )
                        } else if state == VIRTIO_SND_R_PCM_PREPARE {
                            PrepareAction::UpdateParams
                        } else {
                            PrepareAction::Leave
                        })
                    }
                } else {
                    &&& plan == Err::<PreparePlan, Error>(Error::ChannelNotSupported)
                    &&& *final(self) == *old(self)
                }
            }),
    {
        let id: usize = stream_id as usize;
        let params = self.stream_params[id].clone();
        let position = match positions_of(params.channels) {
            Some(position) => position,
            None => return Err(Error::ChannelNotSupported),
        };
        let info = AudioInfo {
            format: audio_format_of(params.format),
            rate: frames_per_second_of(params.rate),
            flags: 0,
            channels: params.channels as u32,
            position,
        };

        let buf_samples: u64 = 10000 * 4 * (info.rate as u64) * 3 / 4 / 1000000;
        assert(buf_samples == latency_frames(info.rate as int));
        let mut latency = String::new();
        append_decimal(&mut latency, buf_samples);
        latency.append(" / ");
        append_decimal(&mut latency, info.rate as u64);
        proof {
            reveal_strlit(" / ");
            assert(" / "@ =~= seq![' ', '/', ' ']);
            assert(latency@ =~= latency_text(info.rate as nat));
        }

        let frame_size: u32 = info.channels * 2;
        let wanted: u32 = 46440 * info.rate / 1000000 * frame_size;
        self.highwater_mark = if RINGBUFFER_SIZE < wanted {
            RINGBUFFER_SIZE
        } else {
            wanted
        };

        let state: u32 = self.stream_states[id];
        let action = if state == VIRTIO_SND_R_PCM_SET_PARAMS || state
            == VIRTIO_SND_R_PCM_RELEASE {
            let direction = if params.direction == VIRTIO_SND_D_OUTPUT {
                Direction::Output
            } else {
                Direction::Input
            };
            self.stream_formats.set(id, Some(info));
            self.stream_states.set(id, VIRTIO_SND_R_PCM_PREPARE);
            PrepareAction::Connect(direction)
        } else if state == VIRTIO_SND_R_PCM_PREPARE {
            PrepareAction::UpdateParams
        } else {
            PrepareAction::Leave
        };
        assert(self.stream_states@ =~= old(self).stream_states@.update(
            id as int,
            next_state(state, Command::Prepare)->0,
        ));
        assert(self.stream_formats@ =~= old(self).stream_formats@.update(
            id as int,
            self.stream_formats@[id as int],
        ));
        Ok(PreparePlan { info, latency, action })
    }

    /// Releases a stream: the audio server has to be asked to disconnect it.
    pub fn release(&mut self, stream_id: u32) -> (outcome: Result<()>)
        requires
            old(self).wf(),
        ensures
            final(self).wf(),
            PwBackend::answered(*old(self), *final(self), stream_id, Command::Release, outcome),
    {
        if self.is_connected(stream_id) {
            let id: usize = stream_id as usize;
            self.stream_formats.set(id, None);
            self.stream_states.set(id, VIRTIO_SND_R_PCM_RELEASE);
            Ok(())
        } else {
            Err(Error::StreamWithIdNotFound(stream_id))
        }
    }

    /// Starts a stream: the audio server has to be asked to activate it.
    pub fn start(&mut self, stream_id: u32) -> (outcome: Result<()>)
        requires
            old(self).wf(),
        ensures
            final(self).wf(),
            PwBackend::answered(*old(self), *final(self), stream_id, Command::Start, outcome),
    {
        if self.is_connected(stream_id) {
            self.stream_states.set(stream_id as usize, VIRTIO_SND_R_PCM_START);
            assert(self.stream_formats@ =~= old(self).stream_formats@.update(
                stream_id as int,
                old(self).stream_formats@[stream_id as int],
            ));
            Ok(())
        } else {
            Err(Error::StreamWithIdNotFound(stream_id))
        }
    }

    /// Stops a stream: the audio server has to be asked to deactivate it.
    pub fn stop(&mut self, stream_id: u32) -> (outcome: Result<()>)
        requires
            old(self).wf(),
        ensures
            final(self).wf(),
            PwBackend::answered(*old(self), *final(self), stream_id, Command::Stop, outcome),
    {
        if self.is_connected(stream_id) {
            self.stream_states.set(stream_id as usize, VIRTIO_SND_R_PCM_STOP);
            assert(self.stream_formats@ =~= old(self).stream_formats@.update(
                stream_id as int,
                old(self).stream_formats@[stream_id as int],
            ));
            Ok(())
        } else {
            Err(Error::StreamWithIdNotFound(stream_id))
        }
    }

    /// The outcome of a command on a stream that the audio server has to know:
    /// it is carried out, or refused with nothing changed.
    pub open spec fn answered(
        before: PwBackend,
        after: PwBackend,
        stream_id: u32,
        command: Command,
        outcome: Result<()>,
    ) -> bool {
        if before.knows(stream_id) {
            &&& outcome == Ok::<(), Error>(())
            &&& PwBackend::commanded(
                before,
                after,
                stream_id,
                command,
                if command is Release {
                    None
                } else {
                    before.stream_formats@[stream_id as int]
                },
            )
            &&& after.stream_params == before.stream_params
            &&& after.highwater_mark == before.highwater_mark
        } else {
            &&& outcome == Err::<(), Error>(Error::StreamWithIdNotFound(stream_id))
            &&& after == before
        }
    }

    fn is_connected(&self, stream_id: u32) -> (connected: bool)
        requires
            self.wf(),
        ensures
            connected == self.knows(stream_id),
    {
        (stream_id as usize) < self.stream_formats.len()
            && self.stream_formats[stream_id as usize].is_some()
    }

    /// Answers the audio server's request for data of a stream. The server asks
    /// for `requested` frames of the format with which the stream was connected,
    /// and has room for `maxsize` bytes in `data`. It gets the bytes that wait,
    /// as many as it asks for; where none wait, `data` stays as it is.
    pub fn process(
        &mut self,
        stream_id: u32,
        requested: u64,
        maxsize: u32,
        data: &mut [u8],
    ) -> (chunk: Chunk)
        requires
            old(self).wf(),
            old(self).knows(stream_id),
            0 < requested * frame_size(old(self).format(stream_id).channels as int) <= u64::MAX,
            old(data)@.len() == maxsize,
        ensures
            final(self).wf(),
            final(self).same_streams(*old(self)),
            final(self).same_data_but(*old(self), stream_id),
            final(data)@.len() == old(data)@.len(),
            chunk.offset == 0,
            chunk.stride == frame_size(old(self).format(stream_id).channels as int),
            ({
                let asked = PwBackend::asked(old(self).format(stream_id), requested, maxsize);
                let waiting = old(self).waiting(stream_id);
                let taken = if asked < waiting {
                    asked
                } else {
                    waiting
                };
                &&& chunk.size == (if waiting == 0 {
                    asked
                } else {
                    taken
                })
                &&& PwBackend::gave(*old(self), *final(self), stream_id, final(data)@.take(taken))
                &&& final(data)@.skip(taken) == old(data)@.skip(taken)
                &&& final(self).waiting(stream_id) == waiting - taken
            }),
    {
        let id: usize = stream_id as usize;
        let ghost ring = self.stream_spa_ringbuffer@[id as int];
        let ghost buffer = self.stream_buffers@[id as int]@;
        let info = self.stream_formats[id].unwrap();
        let frame_size: u32 = info.channels * 2;
        let req: u64 = requested * (frame_size as u64);
        assert(req as u32 == req % 0x1_0000_0000) by (bit_vector);
        let low: u32 = req as u32;
        let mut n_bytes: u32 = if low < maxsize {
            low
        } else {
            maxsize
        };

        // get no of available bytes to read data from buffer
        let (avail, index) = self.stream_spa_ringbuffer[id].get_read_index();
        if avail > 0 {
            if (avail as u32) < n_bytes {
                n_bytes = avail as u32;
            }
            assert(index & 0x3f_ffff == index % 0x40_0000) by (bit_vector);
            ringbuffer::read_data(
                &self.stream_buffers[id],
                RINGBUFFER_SIZE,
                index & RINGBUFFER_MASK,
                data,
                n_bytes,
            );
            self.stream_spa_ringbuffer[id].read_update(index + n_bytes);
            proof {
                ringbuffer::law_read_takes_first(ring, buffer, n_bytes);
            }
        }
        proof {
            let taken = if avail > 0 {
                n_bytes as int
            } else {
                0
            };
            let left = self.queue(stream_id);
            assert(left =~= old(self).queue(stream_id).skip(taken));
            assert(old(self).queue(stream_id) =~= data@.take(taken) + left);
            assert(data@.skip(taken) =~= old(data)@.skip(taken));
        }
        Chunk { offset: 0, stride: frame_size as i32, size: n_bytes }
    }
}

/// The state that a run of commands leads to, where refused ones change
/// nothing.
pub open spec fn run(state: u32, commands: Seq<Command>) -> u32
    decreases commands.len(),
{
    if commands.len() == 0 {
        state
    } else {
        let before = run(state, commands.drop_last());
        match next_state(before, commands.last()) {
            Some(next) => next,
            None => before,
        }
    }
}

/// No run of commands leads out of the states of a stream.
pub proof fn law_run_keeps_states(state: u32, commands: Seq<Command>)
    requires
        is_state(state),
    ensures
        is_state(run(state, commands)),
    decreases commands.len(),
{
    if commands.len() > 0 {
        law_run_keeps_states(state, commands.drop_last());
    }
}

/// A stream that the audio server does not know stays unknown to it, and every
/// start, stop and release of it is refused, as long as it is not prepared.
pub proof fn law_unprepared_is_refused(state: u32, commands: Seq<Command>)
    requires
        is_state(state),
        !has_stream(state),
        forall|i: int| 0 <= i < commands.len() ==> !(#[trigger] commands[i] is Prepare),
    ensures
        !has_stream(run(state, commands)),
        next_state(run(state, commands), Command::Start) is None,
        next_state(run(state, commands), Command::Stop) is None,
        next_state(run(state, commands), Command::Release) is None,
    decreases commands.len(),
{
    if commands.len() > 0 {
        assert(!(commands[commands.len() - 1] is Prepare));
        law_unprepared_is_refused(state, commands.drop_last());
    }
}

/// Has the backend carried out this command on a stream, or refused it with
/// nothing changed? Only where it is prepared for the first time, or again after
/// a release, does the stream get a format, and only a release takes it away.
pub open spec fn obeyed(
    before: PwBackend,
    after: PwBackend,
    stream_id: u32,
    command: Command,
) -> bool {
    let state = before.stream_states@[stream_id as int];
    let was = before.stream_formats@[stream_id as int];
    let format = after.stream_formats@[stream_id as int];
    after == before || {
        &&& PwBackend::commanded(before, after, stream_id, command, format)
        &&& match command {
            Command::Release => format is None,
            Command::Prepare => if has_stream(state) || state == 0 {
                format == was
            } else {
                format is Some
            },
            _ => format == was,
        }
    }
}

/// A stream keeps the format with which it was connected, whatever parameters
/// are set and however often it is prepared, started and stopped, until it is
/// released.
pub proof fn law_format_lasts(
    history: Seq<PwBackend>,
    stream_id: u32,
    commands: Seq<Command>,
)
    requires
        history.len() == commands.len() + 1,
        history.first().wf(),
        history.first().knows(stream_id),
        forall|i: int|
            0 <= i < commands.len() ==> obeyed(
                history[i],
                history[i + 1],
                stream_id,
                #[trigger] commands[i],
            ),
        forall|i: int| 0 <= i < commands.len() ==> !(#[trigger] commands[i] is Release),
    ensures
        history.last().knows(stream_id),
        history.last().format(stream_id) == history.first().format(stream_id),
        has_stream(history.last().stream_states@[stream_id as int]),
    decreases commands.len(),
{
    if commands.len() > 0 {
        let earlier = commands.drop_last();
        let before = history.drop_last();
        assert forall|i: int| 0 <= i < earlier.len() implies obeyed(
            before[i],
            before[i + 1],
            stream_id,
            #[trigger] earlier[i],
        ) && !(earlier[i] is Release) by {
            assert(obeyed(history[i], history[i + 1], stream_id, commands[i]));
        }
        law_format_lasts(before, stream_id, earlier);
        let last = commands.len() - 1;
        assert(obeyed(history[last], history[last + 1], stream_id, commands[last]));
    }
}

/// The states of the backend that go with a state of the command life cycle.
/// New parameters for a stream that is prepared, or released, leave it that in
/// the backend.
pub open spec fn goes_with(lifecycle: PCMState, state: u32) -> bool {
    match lifecycle {
        PCMState::SetParameters => state == VIRTIO_SND_R_PCM_SET_PARAMS || state
            == VIRTIO_SND_R_PCM_PREPARE || state == VIRTIO_SND_R_PCM_RELEASE,
        PCMState::Prepare => state == VIRTIO_SND_R_PCM_PREPARE,
        PCMState::Release => state == VIRTIO_SND_R_PCM_RELEASE,
        PCMState::Start => state == VIRTIO_SND_R_PCM_START,
        PCMState::Stop => state == VIRTIO_SND_R_PCM_STOP,
    }
}

/// The command that puts a stream into a state of the life cycle.
pub open spec fn command_for(next: PCMState) -> Command {
    match next {
        PCMState::SetParameters => Command::SetParams,
        PCMState::Prepare => Command::Prepare,
        PCMState::Release => Command::Release,
        PCMState::Start => Command::Start,
        PCMState::Stop => Command::Stop,
    }
}

/// Once the parameters of a stream have been set, the backend refuses no
/// command that the life cycle allows, and keeps step with it.
pub proof fn law_lifecycle_is_accepted(lifecycle: PCMState, state: u32, next: PCMState)
    requires
        goes_with(lifecycle, state),
        lifecycle.may_become(next),
    ensures
        next_state(state, command_for(next)) matches Some(after) && goes_with(next, after),
{
}

/// What an operation does to the data of a stream.
pub enum Transfer {
    /// These bytes are taken from the driver.
    Write(Seq<u8>),
    /// The audio server gets these bytes.
    Read(Seq<u8>),
    /// The data is left alone.
    Nothing,
}

impl Transfer {
    /// Is this what an operation that leads from `before` to `after` does to the
    /// data of the stream?
    pub open spec fn leads(self, before: PwBackend, after: PwBackend, stream_id: u32) -> bool {
        match self {
            Transfer::Write(bytes) => PwBackend::took(before, after, stream_id, bytes),
            Transfer::Read(bytes) => PwBackend::gave(before, after, stream_id, bytes),
            Transfer::Nothing => PwBackend::kept(before, after, stream_id),
        }
    }
}

/// Does each backend of `history` come from the one before by the transfer on
/// the stream that has the same place in `transfers`?
pub open spec fn is_history(
    history: Seq<PwBackend>,
    stream_id: u32,
    transfers: Seq<Transfer>,
) -> bool {
    &&& history.len() == transfers.len() + 1
    &&& forall|i: int|
        0 <= i < transfers.len() ==> (#[trigger] transfers[i]).leads(
            history[i],
            history[i + 1],
            stream_id,
        )
}

/// What these transfers take from the driver.
pub open spec fn sent(transfers: Seq<Transfer>) -> Seq<u8>
    decreases transfers.len(),
{
    if transfers.len() == 0 {
        Seq::empty()
    } else {
        let before = sent(transfers.drop_last());
        match transfers.last() {
            Transfer::Write(bytes) => before + bytes,
            _ => before,
        }
    }
}

/// What the audio server gets by these transfers.
pub open spec fn received(transfers: Seq<Transfer>) -> Seq<u8>
    decreases transfers.len(),
{
    if transfers.len() == 0 {
        Seq::empty()
    } else {
        let before = received(transfers.drop_last());
        match transfers.last() {
            Transfer::Read(bytes) => before + bytes,
            _ => before,
        }
    }
}

/// The history without its last operation is one too.
proof fn lemma_earlier_history(
    history: Seq<PwBackend>,
    stream_id: u32,
    transfers: Seq<Transfer>,
)
    requires
        is_history(history, stream_id, transfers),
        transfers.len() > 0,
    ensures
        is_history(history.drop_last(), stream_id, transfers.drop_last()),
        transfers.last().leads(history.drop_last().last(), history.last(), stream_id),
{
    let earlier = transfers.drop_last();
    let before = history.drop_last();
    assert forall|i: int| 0 <= i < earlier.len() implies (#[trigger] earlier[i]).leads(
        before[i],
        before[i + 1],
        stream_id,
    ) by {
        assert(transfers[i].leads(history[i], history[i + 1], stream_id));
    }
    let last = transfers.len() - 1;
    assert(transfers[last].leads(history[last], history[last + 1], stream_id));
}

/// The audio server gets exactly the bytes that the driver sent, in the order
/// of sending: what it has got, followed by what still waits, is what waited at
/// first, followed by what was taken from the driver.
pub proof fn law_first_in_first_out(
    history: Seq<PwBackend>,
    stream_id: u32,
    transfers: Seq<Transfer>,
)
    requires
        is_history(history, stream_id, transfers),
    ensures
        received(transfers) + history.last().queue(stream_id) == history.first().queue(stream_id)
            + sent(transfers),
    decreases transfers.len(),
{
    let first = history.first().queue(stream_id);
    if transfers.len() > 0 {
        let earlier = transfers.drop_last();
        lemma_earlier_history(history, stream_id, transfers);
        law_first_in_first_out(history.drop_last(), stream_id, earlier);
        let waits = history.drop_last().last().queue(stream_id);
        match transfers.last() {
            Transfer::Write(bytes) => {
                assert(received(earlier) + (waits + bytes) =~= (received(earlier) + waits) + bytes);
                assert(first + (sent(earlier) + bytes) =~= (first + sent(earlier)) + bytes);
            },
            Transfer::Read(bytes) => {
                let rest = history.last().queue(stream_id);
                assert((received(earlier) + bytes) + rest =~= received(earlier) + (bytes + rest));
            },
            Transfer::Nothing => {},
        }
    } else {
        assert(Seq::<u8>::empty() + first =~= first + Seq::<u8>::empty());
    }
}

/// The write index counts the bytes that were taken from the driver, and the
/// read index those that the audio server has got.
pub proof fn law_indices_count(
    history: Seq<PwBackend>,
    stream_id: u32,
    transfers: Seq<Transfer>,
)
    requires
        is_history(history, stream_id, transfers),
    ensures
        ({
            let first = history.first().ring(stream_id);
            let last = history.last().ring(stream_id);
            &&& last.writeindex == first.writeindex + sent(transfers).len()
            &&& last.readindex == first.readindex + received(transfers).len()
        }),
    decreases transfers.len(),
{
    if transfers.len() > 0 {
        lemma_earlier_history(history, stream_id, transfers);
        law_indices_count(history.drop_last(), stream_id, transfers.drop_last());
    }
}

/// Counted from a new backend on, the indices are the numbers of bytes that
/// were taken and handed on, and byte number `k` of those taken lies, until it
/// is handed on, at place `k` modulo the size of the ring: none is lost,
/// repeated or overwritten.
pub proof fn law_bytes_keep_their_places(
    history: Seq<PwBackend>,
    stream_id: u32,
    transfers: Seq<Transfer>,
)
    requires
        is_history(history, stream_id, transfers),
        history.first().ring(stream_id) == (SpaRingbuffer { readindex: 0, writeindex: 0 }),
        history.last().wf(),
        history.last().has(stream_id),
    ensures
        ({
            let ring = history.last().ring(stream_id);
            let buffer = history.last().buffer(stream_id);
            &&& ring.writeindex == sent(transfers).len()
            &&& ring.readindex == received(transfers).len()
            &&& ring.readindex <= ring.writeindex
            &&& forall|k: int|
                ring.readindex <= k < ring.writeindex ==> buffer[k % RINGBUFFER_SIZE as int]
                    == #[trigger] sent(transfers)[k]
        }),
{
    law_indices_count(history, stream_id, transfers);
    law_first_in_first_out(history, stream_id, transfers);
    let last = history.last();
    let ring = last.ring(stream_id);
    let buffer = last.buffer(stream_id);
    assert(ring.wf(RINGBUFFER_SIZE as int));
    assert(last.stream_buffers@[stream_id as int]@.len() == RINGBUFFER_SIZE);
    assert(history.first().queue(stream_id) =~= Seq::empty());
    assert(received(transfers) + last.queue(stream_id) =~= sent(transfers));
    assert forall|k: int| ring.readindex <= k < ring.writeindex implies buffer[k
        % RINGBUFFER_SIZE as int] == #[trigger] sent(transfers)[k] by {
        assert((received(transfers) + last.queue(stream_id))[k] == last.queue(stream_id)[k
            - ring.readindex]);
    }
}

/// After one write there is room for another, where the two together would have
/// had it: the second can be made.
pub proof fn law_write_leaves_room(
    before: PwBackend,
    middle: PwBackend,
    stream_id: u32,
    one: Seq<u8>,
    two: Seq<u8>,
)
    requires
        before.wf(),
        before.knows(stream_id),
        middle.wf(),
        one.len() + two.len() <= u32::MAX,
        before.has_room(stream_id, one.len() + two.len()),
        PwBackend::stored(before, middle, stream_id, one),
    ensures
        middle.knows(stream_id),
        middle.has_room(stream_id, two.len()),
        before.accepts(stream_id, one.len()) + middle.accepts(stream_id, two.len())
            == before.accepts(stream_id, one.len() + two.len()),
{
}

/// Two writes take as many bytes as one write of both, and leave the same ring
/// and the same buffer.
pub proof fn law_two_writes_are_one(
    before: PwBackend,
    middle: PwBackend,
    after: PwBackend,
    both: PwBackend,
    stream_id: u32,
    one: Seq<u8>,
    two: Seq<u8>,
)
    requires
        before.wf(),
        before.knows(stream_id),
        middle.wf(),
        after.wf(),
        both.wf(),
        one.len() + two.len() <= u32::MAX,
        before.has_room(stream_id, one.len() + two.len()),
        PwBackend::stored(before, middle, stream_id, one),
        PwBackend::stored(middle, after, stream_id, two),
        PwBackend::stored(before, both, stream_id, one + two),
    ensures
        before.accepts(stream_id, one.len()) + middle.accepts(stream_id, two.len())
            == before.accepts(stream_id, (one + two).len()),
        after.ring(stream_id) == both.ring(stream_id),
        after.buffer(stream_id) == both.buffer(stream_id),
        after.same_streams(both),
        after.same_data_but(both, stream_id),
{
    law_write_leaves_room(before, middle, stream_id, one, two);
    let first = one.take(before.accepts(stream_id, one.len()));
    let second = two.take(middle.accepts(stream_id, two.len()));
    let joined = (one + two).take(before.accepts(stream_id, (one + two).len()));
    assert(first + second =~= joined);
    assert(before.stream_buffers@[stream_id as int]@.len() == RINGBUFFER_SIZE);
    ringbuffer::law_writes_join(
        before.buffer(stream_id),
        middle.buffer(stream_id),
        after.buffer(stream_id),
        both.buffer(stream_id),
        before.ring(stream_id).writeindex as int,
        first,
        second,
    );
}

/// What a stream takes stays below the high-water mark, and so fits the ring
/// buffer.
pub proof fn law_write_stays_below_mark(backend: PwBackend, stream_id: u32, len: nat)
    requires
        backend.wf(),
        backend.has(stream_id),
        backend.waiting(stream_id) <= backend.highwater_mark,
    ensures
        backend.waiting(stream_id) + backend.accepts(stream_id, len) <= backend.highwater_mark
            <= RINGBUFFER_SIZE,
{
}

/// The high-water mark lets at least one frame wait, and is a whole number of
/// frames.
pub proof fn law_highwater_is_whole_frames(rate: u8, channels: int)
    requires
        channels == 1 || channels == 2,
    ensures
        0 < highwater(frames_per_second(rate) as int, channels) <= RINGBUFFER_SIZE,
        highwater(frames_per_second(rate) as int, channels) % frame_size(channels) == 0,
{
    let frames = 46440 * frames_per_second(rate) / 1000000;
    assert(0 < frames <= 2972);
    if channels == 1 {
        assert(frames * frame_size(channels) == frames * 2);
    } else {
        assert(frames * frame_size(channels) == frames * 4);
    }
}

} // verus!
