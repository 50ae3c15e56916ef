//! The logic of a vhost-user sound device.
//!
//! `stream` holds the life cycle of a PCM stream and the requests that carry
//! its data; `audio_backends` holds what the PipeWire backend decides and
//! buffers; `guest` is the boundary to the memory of the guest. `laws`, here and
//! under `audio_backends`, states what the operations promise.

pub mod audio_backends;
pub mod guest;
pub mod laws;
pub mod stream;
pub mod virtio_sound;

use crate::guest::le32_from_native;
use crate::virtio_sound::{
    VIRTIO_SND_PCM_FMT_S16, VIRTIO_SND_PCM_FMT_S24, VIRTIO_SND_PCM_FMT_S32, VIRTIO_SND_PCM_FMT_U8,
    VIRTIO_SND_PCM_RATE_11025, VIRTIO_SND_PCM_RATE_16000, VIRTIO_SND_PCM_RATE_22050,
    VIRTIO_SND_PCM_RATE_32000, VIRTIO_SND_PCM_RATE_44100, VIRTIO_SND_PCM_RATE_48000,
    VIRTIO_SND_PCM_RATE_8000,
};
use vm_memory::{GuestMemoryMmap, Le32, VolatileSlice};
use vstd::prelude::*;

verus! {

/// The sample formats that a stream offers, one bit for each.
pub const SUPPORTED_FORMATS: u64 = (1u64 << VIRTIO_SND_PCM_FMT_U8) | (1u64
    << VIRTIO_SND_PCM_FMT_S16) | (1u64 << VIRTIO_SND_PCM_FMT_S24) | (1u64
    << VIRTIO_SND_PCM_FMT_S32);

/// The frame rates that a stream offers, one bit for each.
pub const SUPPORTED_RATES: u64 = (1u64 << VIRTIO_SND_PCM_RATE_8000) | (1u64
    << VIRTIO_SND_PCM_RATE_11025) | (1u64 << VIRTIO_SND_PCM_RATE_16000) | (1u64
    << VIRTIO_SND_PCM_RATE_22050) | (1u64 << VIRTIO_SND_PCM_RATE_32000) | (1u64
    << VIRTIO_SND_PCM_RATE_44100) | (1u64 << VIRTIO_SND_PCM_RATE_48000);

#[verifier::external_type_specification]
#[verifier::external_body]
pub struct ExIoError(std::io::Error);

pub type Result<T> = std::result::Result<T, Error>;

/// Custom error types
#[derive(Debug)]
pub enum Error {
    /// Failed to handle event other than EPOLLIN event
    HandleEventNotEpollIn,
    /// Failed to handle unknown event
    HandleUnknownEvent,
    /// Failed to create a new EventFd
    EventFdCreate(std::io::Error),
    /// Request missing data buffer
    SoundReqMissingData,
    /// Audio backend not supported
    AudioBackendNotSupported,
    /// Number of channels not supported
    ChannelNotSupported,
    /// Descriptor not found
    DescriptorNotFound,
    /// Descriptor read failed
    DescriptorReadFailed,
    /// Descriptor write failed
    DescriptorWriteFailed,
    /// Insufficient descriptor size: required, found
    InsufficientDescriptorSize(usize, usize),
    /// Failed to send notification
    SendNotificationFailed,
    /// Stream with this id not found
    StreamWithIdNotFound(u32),
    /// Stream listener with this id not found
    StreamListenerWithIdNotFound(u32),
    /// Invalid descriptor count
    UnexpectedDescriptorCount(usize),
    /// Invalid descriptor size: expected, found
    UnexpectedDescriptorSize(usize, usize),
    /// Invalid descriptor size: expected at least, found
    UnexpectedMinimumDescriptorSize(usize, usize),
    /// Received unexpected readable descriptor at this index
    UnexpectedReadableDescriptor(usize),
    /// Received unexpected write only descriptor at this index
    UnexpectedWriteOnlyDescriptor(usize),
}

/// The parameters that the driver has set for a stream.
#[derive(Debug)]
pub struct PCMParams {
    pub features: Le32,
    /// size of hardware buffer in bytes
    pub buffer_bytes: Le32,
    /// size of hardware period in bytes
    pub period_bytes: Le32,
    pub channels: u8,
    pub format: u8,
    pub rate: u8,
    pub direction: u8,
}

impl PCMParams {
    /// Are all the parameters 0, as they are before the driver sets them?
    pub open spec fn is_default(self) -> bool {
        &&& guest::le32(self.features) == 0
        &&& guest::le32(self.buffer_bytes) == 0
        &&& guest::le32(self.period_bytes) == 0
        &&& self.channels == 0
        &&& self.format == 0
        &&& self.rate == 0
        &&& self.direction == 0
    }
}

impl Default for PCMParams {
    fn default() -> (params: Self)
        ensures
            params.is_default(),
    {
        PCMParams {
            features: le32_from_native(0),
            buffer_bytes: le32_from_native(0),
            period_bytes: le32_from_native(0),
            channels: 0,
            format: 0,
            rate: 0,
            direction: 0,
        }
    }
}

impl Clone for PCMParams {
    fn clone(&self) -> (params: Self)
        ensures
            params == *self,
    {
        PCMParams {
            features: self.features,
            buffer_bytes: self.buffer_bytes,
            period_bytes: self.period_bytes,
            channels: self.channels,
            format: self.format,
            rate: self.rate,
            direction: self.direction,
        }
    }
}

/// This structure is the public API through which an external program
/// is allowed to configure the backend.
#[derive(Debug)]
pub struct SoundConfig {
    /// vhost-user Unix domain socket
    socket: String,
    /// use multiple threads to handle the virtqueues
    multi_thread: bool,
    /// audio backend name
    audio_backend_name: String,
}

impl Clone for SoundConfig {
    fn clone(&self) -> (config: Self)
        ensures
            config.socket() == self.socket(),
            config.multi_thread() == self.multi_thread(),
            config.audio_backend_name() == self.audio_backend_name(),
    {
        SoundConfig {
            socket: self.socket.clone(),
            multi_thread: self.multi_thread,
            audio_backend_name: self.audio_backend_name.clone(),
        }
    }
}

impl SoundConfig {
    /// The path of the Unix domain socket.
    pub closed spec fn socket(self) -> Seq<char> {
        self.socket@
    }

    /// Are the virtqueues handled by several threads?
    pub closed spec fn multi_thread(self) -> bool {
        self.multi_thread
    }

    /// The name of the audio backend.
    pub closed spec fn audio_backend_name(self) -> Seq<char> {
        self.audio_backend_name@
    }

    /// Create a new instance of the SoundConfig struct, containing the
    /// parameters to be fed into the sound-backend server.
    pub fn new(socket: String, multi_thread: bool, audio_backend_name: String) -> (config: Self)
        ensures
            config.socket() == socket@,
            config.multi_thread() == multi_thread,
            config.audio_backend_name() == audio_backend_name@,
    {
        SoundConfig { socket, multi_thread, audio_backend_name }
    }

    /// Return the path of the unix domain socket which is listening to
    /// requests from the guest.
    pub fn get_socket_path(&self) -> (path: String)
        ensures
            path@ == self.socket(),
    {
        self.socket.clone()
    }
}

pub type SoundBitmap = ();

/// A request of the driver, with the memory that it hands over.
#[derive(Debug)]
pub struct SoundRequest<'a> {
    pub data_slice: Option<VolatileSlice<'a, SoundBitmap>>,
}

impl<'a> SoundRequest<'a> {
    /// The memory that the request hands over, where it hands over any.
    pub fn data_slice(&self) -> (slice: Option<&VolatileSlice<'a, SoundBitmap>>)
        ensures
            slice == (match self.data_slice {
                Some(slice) => Some(&slice),
                None => None,
            }),
    {
        self.data_slice.as_ref()
    }
}

/// One buffer of a descriptor chain: where it lies in the memory of the guest
/// and how long it is.
#[derive(Debug, Clone, Copy)]
pub struct Descriptor {
    pub addr: u64,
    pub len: u32,
}

/// A message of the driver on one of the data queues: its chain of
/// descriptors, and the memory that they point into.
#[derive(Debug)]
pub struct IOMessage {
    pub descriptors: Vec<Descriptor>,
    pub memory: GuestMemoryMmap<()>,
}

impl IOMessage {
    /// The guest addresses that lie in some region of the memory.
    pub open spec fn mapping(&self) -> Set<u64> {
        guest::mapped(self.memory)
    }

    /// The pairs of a guest address and a byte that the memory has held there.
    pub open spec fn held(&self) -> Set<(u64, u8)> {
        guest::held(self.memory)
    }
}

} // verus!
