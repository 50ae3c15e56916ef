//! Numbers that the virtio sound device shares with its driver.

use vstd::prelude::*;

verus! {

/// Data flows from the driver to the device.
pub const VIRTIO_SND_D_OUTPUT: u8 = 0;

/// Data flows from the device to the driver.
pub const VIRTIO_SND_D_INPUT: u8 = 1;

pub const VIRTIO_SND_R_PCM_SET_PARAMS: u32 = 0x0101;

pub const VIRTIO_SND_R_PCM_PREPARE: u32 = 0x0102;

pub const VIRTIO_SND_R_PCM_RELEASE: u32 = 0x0103;

pub const VIRTIO_SND_R_PCM_START: u32 = 0x0104;

pub const VIRTIO_SND_R_PCM_STOP: u32 = 0x0105;

pub const VIRTIO_SND_PCM_FMT_S8: u8 = 3;

pub const VIRTIO_SND_PCM_FMT_U8: u8 = 4;

pub const VIRTIO_SND_PCM_FMT_S16: u8 = 5;

pub const VIRTIO_SND_PCM_FMT_U16: u8 = 6;

pub const VIRTIO_SND_PCM_FMT_S24: u8 = 15;

pub const VIRTIO_SND_PCM_FMT_S32: u8 = 17;

pub const VIRTIO_SND_PCM_FMT_U32: u8 = 18;

pub const VIRTIO_SND_PCM_RATE_8000: u8 = 1;

pub const VIRTIO_SND_PCM_RATE_11025: u8 = 2;

pub const VIRTIO_SND_PCM_RATE_16000: u8 = 3;

pub const VIRTIO_SND_PCM_RATE_22050: u8 = 4;

pub const VIRTIO_SND_PCM_RATE_32000: u8 = 5;

pub const VIRTIO_SND_PCM_RATE_44100: u8 = 6;

pub const VIRTIO_SND_PCM_RATE_48000: u8 = 7;

pub const VIRTIO_SND_PCM_RATE_64000: u8 = 8;

} // verus!
