use vhost_user_sound::audio_backends::pw_backend::{
    AudioChannel, AudioFormat, Chunk, Direction, PrepareAction, PreparePlan, PwBackend,
    RINGBUFFER_MASK, RINGBUFFER_SIZE,
};
use vhost_user_sound::audio_backends::ringbuffer::SpaRingbuffer;
use vhost_user_sound::stream::PCMState;
use vhost_user_sound::virtio_sound::{
    VIRTIO_SND_D_INPUT, VIRTIO_SND_D_OUTPUT, VIRTIO_SND_PCM_FMT_S16, VIRTIO_SND_PCM_FMT_S32,
    VIRTIO_SND_PCM_FMT_S8, VIRTIO_SND_PCM_FMT_U16, VIRTIO_SND_PCM_FMT_U32, VIRTIO_SND_PCM_FMT_U8,
    VIRTIO_SND_PCM_RATE_32000, VIRTIO_SND_PCM_RATE_44100, VIRTIO_SND_PCM_RATE_48000,
    VIRTIO_SND_PCM_RATE_64000, VIRTIO_SND_R_PCM_PREPARE, VIRTIO_SND_R_PCM_RELEASE,
    VIRTIO_SND_R_PCM_SET_PARAMS, VIRTIO_SND_R_PCM_START, VIRTIO_SND_R_PCM_STOP,
};
use vhost_user_sound::{Error, PCMParams};

fn params(channels: u8, format: u8, rate: u8, direction: u8) -> PCMParams {
    PCMParams { channels, format, rate, direction, ..PCMParams::default() }
}

fn stereo() -> PCMParams {
    params(2, VIRTIO_SND_PCM_FMT_S16, VIRTIO_SND_PCM_RATE_44100, VIRTIO_SND_D_OUTPUT)
}

fn prepared() -> PwBackend {
    let mut backend = PwBackend::new(2);
    backend.set_param(0, stereo()).unwrap();
    backend.prepare(0).unwrap();
    backend
}

fn plan_for(params: PCMParams) -> (PreparePlan, u32) {
    let mut backend = PwBackend::new(1);
    backend.set_param(0, params).unwrap();
    let plan = backend.prepare(0).unwrap();
    (plan, backend.highwater_mark)
}

fn not_found<T>(outcome: Result<T, Error>, id: u32) -> bool {
    matches!(outcome, Err(Error::StreamWithIdNotFound(found)) if found == id)
}

#[test]
fn new_backend_knows_no_stream() {
    let backend = PwBackend::new(2);
    assert_eq!(backend.stream_states, vec![0, 0]);
    assert!(backend.stream_formats.iter().all(|format| format.is_none()));
    assert_eq!(backend.stream_params.len(), 2);
    assert_eq!(backend.stream_params[1].channels, 0);
    assert_eq!(backend.stream_spa_ringbuffer[1].get_read_index(), (0, 0));
    assert_eq!(backend.stream_buffers[1].len(), RINGBUFFER_SIZE as usize);
    assert!(backend.stream_buffers[0].iter().all(|&b| b == 0));
    assert_eq!(backend.highwater_mark, 0);
    assert_eq!((RINGBUFFER_SIZE, RINGBUFFER_MASK), (1 << 22, (1 << 22) - 1));
}

#[test]
fn states_are_told() {
    let backend = prepared();
    assert_eq!(backend.get_stream_state(0).unwrap(), VIRTIO_SND_R_PCM_PREPARE);
    assert_eq!(backend.get_stream_state(1).unwrap(), 0);
    assert!(not_found(backend.get_stream_state(2), 2));
}

#[test]
fn a_stream_goes_through_its_states() {
    let mut backend = PwBackend::new(1);
    backend.set_param(0, stereo()).unwrap();
    assert_eq!(backend.get_stream_state(0).unwrap(), VIRTIO_SND_R_PCM_SET_PARAMS);
    backend.set_param(0, stereo()).unwrap();
    assert_eq!(backend.get_stream_state(0).unwrap(), VIRTIO_SND_R_PCM_SET_PARAMS);
    backend.prepare(0).unwrap();
    assert_eq!(backend.get_stream_state(0).unwrap(), VIRTIO_SND_R_PCM_PREPARE);
    backend.set_param(0, stereo()).unwrap();
    assert_eq!(backend.get_stream_state(0).unwrap(), VIRTIO_SND_R_PCM_PREPARE);
    backend.start(0).unwrap();
    assert_eq!(backend.get_stream_state(0).unwrap(), VIRTIO_SND_R_PCM_START);
    backend.stop(0).unwrap();
    assert_eq!(backend.get_stream_state(0).unwrap(), VIRTIO_SND_R_PCM_STOP);
    backend.release(0).unwrap();
    assert_eq!(backend.get_stream_state(0).unwrap(), VIRTIO_SND_R_PCM_RELEASE);
    assert!(backend.stream_formats[0].is_none());
    assert_eq!(backend.prepare(0).unwrap().action, PrepareAction::Connect(Direction::Output));
    assert_eq!(backend.get_stream_state(0).unwrap(), VIRTIO_SND_R_PCM_PREPARE);
}

#[test]
fn commands_on_unknown_streams_are_refused() {
    let mut backend = PwBackend::new(1);
    for id in [0, 1, 77] {
        assert!(not_found(backend.start(id), id));
        assert!(not_found(backend.stop(id), id));
        assert!(not_found(backend.release(id), id));
    }
    backend.set_param(0, stereo()).unwrap();
    assert!(not_found(backend.start(0), 0));
    backend.prepare(0).unwrap();
    backend.release(0).unwrap();
    assert!(not_found(backend.release(0), 0));
    assert!(not_found(backend.start(0), 0));
    assert_eq!(backend.get_stream_state(0).unwrap(), VIRTIO_SND_R_PCM_RELEASE);
}

#[test]
fn the_backend_follows_the_life_cycle() {
    let mut state = PCMState::new();
    let mut backend = PwBackend::new(1);
    state.set_parameters().unwrap();
    backend.set_param(0, stereo()).unwrap();
    for _ in 0..2 {
        state.prepare().unwrap();
        backend.prepare(0).unwrap();
        state.set_parameters().unwrap();
        backend.set_param(0, stereo()).unwrap();
        state.prepare().unwrap();
        backend.prepare(0).unwrap();
        state.start().unwrap();
        backend.start(0).unwrap();
        state.stop().unwrap();
        backend.stop(0).unwrap();
        state.release().unwrap();
        backend.release(0).unwrap();
    }
}

#[test]
fn parameters_are_kept() {
    let mut backend = PwBackend::new(2);
    backend.set_param(1, params(1, 3, 8, 1)).unwrap();
    let kept = &backend.stream_params[1];
    assert_eq!((kept.channels, kept.format, kept.rate, kept.direction), (1, 3, 8, 1));
    assert_eq!(backend.stream_params[0].channels, 0);
    assert_eq!(backend.stream_states, vec![0, VIRTIO_SND_R_PCM_SET_PARAMS]);
}

#[test]
fn prepare_offers_the_format() {
    let (plan, mark) = plan_for(stereo());
    assert_eq!(plan.info.format, AudioFormat::S16);
    assert_eq!(plan.info.rate, 44100);
    assert_eq!(plan.info.flags, 0);
    assert_eq!(plan.info.channels, 2);
    assert_eq!(plan.info.position[0], AudioChannel::FrontLeft);
    assert_eq!(plan.info.position[1], AudioChannel::FrontRight);
    assert!(plan.info.position[2..].iter().all(|&p| p == AudioChannel::Unknown));
    assert_eq!(plan.latency, "1323 / 44100");
    assert_eq!(plan.action, PrepareAction::Connect(Direction::Output));
    assert_eq!(mark, 8192);
}

#[test]
fn prepare_offers_mono_input() {
    let (plan, mark) = plan_for(params(
        1,
        VIRTIO_SND_PCM_FMT_U8,
        VIRTIO_SND_PCM_RATE_64000,
        VIRTIO_SND_D_INPUT,
    ));
    assert_eq!(plan.info.channels, 1);
    assert_eq!(plan.info.position[0], AudioChannel::Mono);
    assert!(plan.info.position[1..].iter().all(|&p| p == AudioChannel::Unknown));
    assert_eq!(plan.latency, "1920 / 64000");
    assert_eq!(plan.action, PrepareAction::Connect(Direction::Input));
    assert_eq!(mark, 5944);
}

#[test]
fn formats_have_their_names() {
    for (format, name) in [
        (VIRTIO_SND_PCM_FMT_S8, AudioFormat::S8),
        (VIRTIO_SND_PCM_FMT_U8, AudioFormat::U8),
        (VIRTIO_SND_PCM_FMT_S16, AudioFormat::S16),
        (VIRTIO_SND_PCM_FMT_U16, AudioFormat::U16),
        (VIRTIO_SND_PCM_FMT_S32, AudioFormat::S32),
        (VIRTIO_SND_PCM_FMT_U32, AudioFormat::U32),
        (0, AudioFormat::Unknown),
        (255, AudioFormat::Unknown),
    ] {
        let (plan, _) = plan_for(params(1, format, VIRTIO_SND_PCM_RATE_44100, 0));
        assert_eq!(plan.info.format, name);
    }
}

#[test]
fn rates_have_their_frames() {
    for (rate, frames, latency, mark) in [
        (VIRTIO_SND_PCM_RATE_32000, 32000, "960 / 32000", 1486 * 4),
        (VIRTIO_SND_PCM_RATE_44100, 44100, "1323 / 44100", 2048 * 4),
        (VIRTIO_SND_PCM_RATE_48000, 48000, "1440 / 48000", 2229 * 4),
        (VIRTIO_SND_PCM_RATE_64000, 64000, "1920 / 64000", 2972 * 4),
        (0, 44100, "1323 / 44100", 2048 * 4),
    ] {
        let (plan, highwater) = plan_for(params(2, VIRTIO_SND_PCM_FMT_S16, rate, 0));
        assert_eq!(plan.info.rate, frames);
        assert_eq!(plan.latency, latency);
        assert_eq!(highwater, mark);
        assert_eq!(highwater % 4, 0);
    }
}

#[test]
fn other_channel_counts_are_refused() {
    for channels in [0, 3, 6, 255] {
        let mut backend = PwBackend::new(1);
        backend.set_param(0, params(channels, 5, 6, 9)).unwrap();
        assert!(matches!(backend.prepare(0), Err(Error::ChannelNotSupported)));
        assert_eq!(backend.get_stream_state(0).unwrap(), VIRTIO_SND_R_PCM_SET_PARAMS);
        assert_eq!(backend.highwater_mark, 0);
        assert!(not_found(backend.start(0), 0));
    }
}

#[test]
fn preparing_again_updates_the_stream() {
    let mut backend = prepared();
    backend
        .set_param(0, params(1, VIRTIO_SND_PCM_FMT_S32, VIRTIO_SND_PCM_RATE_48000, 9))
        .unwrap();
    let plan = backend.prepare(0).unwrap();
    assert_eq!(plan.action, PrepareAction::UpdateParams);
    assert_eq!(plan.info.format, AudioFormat::S32);
    assert_eq!(backend.highwater_mark, 2229 * 2);
    backend.start(0).unwrap();
    assert_eq!(backend.prepare(0).unwrap().action, PrepareAction::Leave);
    assert_eq!(backend.get_stream_state(0).unwrap(), VIRTIO_SND_R_PCM_START);
}

#[test]
fn preparing_without_parameters_leaves_the_server_alone() {
    let mut backend = PwBackend::new(1);
    backend.stream_params[0] = stereo();
    assert_eq!(backend.prepare(0).unwrap().action, PrepareAction::Leave);
    assert_eq!(backend.get_stream_state(0).unwrap(), 0);
    assert!(not_found(backend.start(0), 0));
}

#[test]
fn recording_gives_nothing() {
    let backend = PwBackend::new(1);
    assert!(backend.read(0).is_ok());
    assert!(backend.read(9).is_ok());
}

#[test]
fn writes_to_unknown_streams_are_refused() {
    let mut backend = PwBackend::new(2);
    assert!(not_found(backend.write(1, true, &[1, 2]), 1));
    assert_eq!(backend.stream_spa_ringbuffer[1].get_write_index(), (0, 0));
}

#[test]
fn a_stream_that_does_not_run_takes_nothing() {
    let mut backend = prepared();
    assert_eq!(backend.write(0, false, &[1, 2, 3]).unwrap(), 0);
    assert_eq!(backend.stream_spa_ringbuffer[0].get_write_index(), (0, 0));
}

#[test]
fn the_server_gets_what_was_written() {
    let mut backend = prepared();
    assert_eq!(backend.write(0, true, &[1, 2, 3, 4, 5, 6]).unwrap(), 6);
    assert_eq!(backend.write(0, true, &[7, 8]).unwrap(), 2);
    let mut data = [0xeeu8; 16];
    let chunk = backend.process(0, 1, 16, &mut data);
    assert_eq!(chunk, Chunk { offset: 0, stride: 4, size: 4 });
    assert_eq!(data[..4], [1, 2, 3, 4]);
    assert_eq!(data[4..], [0xee; 12]);
    let chunk = backend.process(0, 100, 16, &mut data);
    assert_eq!(chunk.size, 4);
    assert_eq!(data[..4], [5, 6, 7, 8]);
    assert_eq!(backend.stream_spa_ringbuffer[0].get_read_index(), (0, 8));
    assert_eq!(backend.stream_spa_ringbuffer[1].get_read_index(), (0, 0));
}

#[test]
fn writes_stop_at_the_high_water_mark() {
    let mut backend = prepared();
    let long = vec![3u8; 10000];
    assert_eq!(backend.write(0, true, &long).unwrap(), 8192);
    assert_eq!(backend.write(0, true, &long).unwrap(), 0);
    let mut data = vec![0u8; 400];
    assert_eq!(backend.process(0, 1000, 400, &mut data).size, 400);
    assert_eq!(data, vec![3u8; 400]);
    assert_eq!(backend.write(0, true, &long).unwrap(), 400);
}

#[test]
fn an_empty_queue_leaves_the_data_and_gives_its_size() {
    let mut backend = prepared();
    let mut data = [0xeeu8; 10];
    assert_eq!(backend.process(0, 2, 10, &mut data), Chunk { offset: 0, stride: 4, size: 8 });
    assert_eq!(backend.process(0, 9, 10, &mut data).size, 10);
    assert_eq!(data, [0xee; 10]);
}

#[test]
fn of_a_large_request_the_low_bits_count() {
    let mut backend = prepared();
    backend.write(0, true, &[1, 2, 3, 4, 5, 6, 7, 8, 9]).unwrap();
    let mut data = [0u8; 9];
    assert_eq!(backend.process(0, 0x4000_0001, 9, &mut data).size, 4);
    assert_eq!(data, [1, 2, 3, 4, 0, 0, 0, 0, 0]);
}

#[test]
fn mono_frames_have_two_bytes() {
    let mut backend = PwBackend::new(1);
    backend.set_param(0, params(1, 5, 6, 0)).unwrap();
    backend.prepare(0).unwrap();
    backend.write(0, true, &[1, 2, 3, 4]).unwrap();
    let mut data = [0u8; 4];
    assert_eq!(
        backend.process(0, 1, 4, &mut data),
        Chunk { offset: 0, stride: 2, size: 2 }
    );
}

#[test]
fn data_keeps_its_order_round_the_ring() {
    let mut backend = prepared();
    let mut sent: u32 = 0;
    let mut got: u32 = 0;
    while got < RINGBUFFER_SIZE + 50_000 {
        let bytes: Vec<u8> = (sent..sent + 5000).map(|n| (n % 251) as u8).collect();
        sent += backend.write(0, true, &bytes).unwrap();
        let mut data = vec![0u8; 4096];
        let size = backend.process(0, 900, 4096, &mut data).size;
        for &byte in &data[..size as usize] {
            assert_eq!(byte, (got % 251) as u8);
            got += 1;
        }
    }
    assert_eq!(backend.stream_spa_ringbuffer[0].get_read_index(), ((sent - got) as i32, got));
}

#[test]
fn the_first_write_lies_at_the_front_of_the_buffer() {
    let mut backend = PwBackend::new(1);
    backend.set_param(0, params(1, 5, 6, 0)).unwrap();
    backend.prepare(0).unwrap();
    backend.start(0).unwrap();
    assert_eq!(backend.write(0, true, &[7u8; 5000]).unwrap(), 4096);
    assert_eq!(
        backend.stream_spa_ringbuffer[0],
        SpaRingbuffer { readindex: 0, writeindex: 4096 }
    );
    assert!(backend.stream_buffers[0][..4096].iter().all(|&byte| byte == 7));
    assert!(backend.stream_buffers[0][4096..].iter().all(|&byte| byte == 0));
}

#[test]
fn two_writes_leave_what_one_does() {
    let mut one = prepared();
    let mut two = prepared();
    let bytes: Vec<u8> = (0..9000u32).map(|n| n as u8).collect();
    let whole = one.write(0, true, &bytes).unwrap();
    let first = two.write(0, true, &bytes[..5000]).unwrap();
    let second = two.write(0, true, &bytes[5000..]).unwrap();
    assert_eq!((whole, first, second), (8192, 5000, 3192));
    assert_eq!(one.stream_spa_ringbuffer, two.stream_spa_ringbuffer);
    assert_eq!(one.stream_buffers, two.stream_buffers);
}

#[test]
fn bytes_keep_their_places_until_they_are_read() {
    let mut backend = prepared();
    assert_eq!(backend.write(0, true, &[1, 2, 3, 4, 5, 6]).unwrap(), 6);
    let before = backend.stream_buffers[0].clone();
    let mut data = [0u8; 4];
    assert_eq!(backend.process(0, 1, 4, &mut data).size, 4);
    assert_eq!(
        backend.stream_spa_ringbuffer[0],
        SpaRingbuffer { readindex: 4, writeindex: 6 }
    );
    assert_eq!(backend.stream_buffers[0], before);
    assert_eq!(before[..7], [1, 2, 3, 4, 5, 6, 0]);
}

#[test]
fn the_server_is_answered_in_the_format_of_the_connection() {
    let mut backend = prepared();
    backend.set_param(0, params(1, VIRTIO_SND_PCM_FMT_S32, VIRTIO_SND_PCM_RATE_48000, 0)).unwrap();
    let plan = backend.prepare(0).unwrap();
    assert_eq!(plan.action, PrepareAction::UpdateParams);
    assert_eq!(plan.info.channels, 1);
    let format = backend.stream_formats[0].unwrap();
    assert_eq!((format.channels, format.rate, format.format), (2, 44100, AudioFormat::S16));
    backend.write(0, true, &[1, 2, 3, 4, 5, 6]).unwrap();
    let mut data = [0u8; 6];
    assert_eq!(backend.process(0, 1, 6, &mut data), Chunk { offset: 0, stride: 4, size: 4 });
    backend.release(0).unwrap();
    backend.prepare(0).unwrap();
    assert_eq!(backend.process(0, 1, 6, &mut data), Chunk { offset: 0, stride: 2, size: 2 });
}
