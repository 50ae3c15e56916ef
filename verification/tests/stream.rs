use vhost_user_sound::stream::{Error, PCMState, PcmParams, Stream};
use vhost_user_sound::virtio_sound::{
    VIRTIO_SND_D_OUTPUT, VIRTIO_SND_PCM_FMT_S16, VIRTIO_SND_PCM_RATE_44100,
};
use vhost_user_sound::{SUPPORTED_FORMATS, SUPPORTED_RATES};

const ALL: [PCMState; 5] = [
    PCMState::SetParameters,
    PCMState::Prepare,
    PCMState::Release,
    PCMState::Start,
    PCMState::Stop,
];

fn ask(state: &mut PCMState, next: PCMState) -> Result<(), Error> {
    match next {
        PCMState::SetParameters => state.set_parameters(),
        PCMState::Prepare => state.prepare(),
        PCMState::Release => state.release(),
        PCMState::Start => state.start(),
        PCMState::Stop => state.stop(),
    }
}

fn successors(state: PCMState) -> Vec<PCMState> {
    match state {
        PCMState::SetParameters => vec![PCMState::SetParameters, PCMState::Prepare],
        PCMState::Prepare => vec![
            PCMState::SetParameters,
            PCMState::Prepare,
            PCMState::Start,
            PCMState::Release,
        ],
        PCMState::Start => vec![PCMState::Stop],
        PCMState::Stop => vec![PCMState::Start, PCMState::Release],
        PCMState::Release => vec![PCMState::SetParameters, PCMState::Prepare],
    }
}

#[test]
fn every_transition_is_made_or_refused() {
    for from in ALL {
        for to in ALL {
            let mut state = from;
            let outcome = ask(&mut state, to);
            if successors(from).contains(&to) {
                assert_eq!(outcome, Ok(()));
                assert_eq!(state, to);
            } else {
                assert_eq!(outcome, Err(Error::InvalidStateTransition(from, to)));
                assert_eq!(state, from);
            }
        }
    }
}

#[test]
fn a_stream_goes_through_its_life() {
    let mut state = PCMState::new();
    assert_eq!(state, PCMState::SetParameters);
    state.set_parameters().unwrap();
    state.prepare().unwrap();
    state.start().unwrap();
    state.stop().unwrap();
    state.start().unwrap();
    state.stop().unwrap();
    state.release().unwrap();
    state.set_parameters().unwrap();
    assert_eq!(state, PCMState::SetParameters);
}

#[test]
fn a_released_stream_does_not_start_unprepared() {
    let mut state = PCMState::Release;
    assert!(state.start().is_err());
    state.set_parameters().unwrap();
    assert!(state.start().is_err());
    state.prepare().unwrap();
    assert!(state.start().is_ok());
}

#[test]
fn a_running_stream_only_stops() {
    for to in ALL {
        let mut state = PCMState::Start;
        assert_eq!(ask(&mut state, to).is_ok(), to == PCMState::Stop);
    }
}

#[test]
fn states_are_named_after_their_requests() {
    assert_eq!(PCMState::SetParameters.to_string(), "VIRTIO_SND_R_PCM_SET_PARAMS");
    assert_eq!(PCMState::Prepare.to_string(), "VIRTIO_SND_R_PCM_PREPARE");
    assert_eq!(PCMState::Release.to_string(), "VIRTIO_SND_R_PCM_RELEASE");
    assert_eq!(PCMState::Start.to_string(), "VIRTIO_SND_R_PCM_START");
    assert_eq!(PCMState::Stop.to_string(), "VIRTIO_SND_R_PCM_STOP");
}

#[test]
fn default_stream() {
    let stream = Stream::default();
    assert_eq!(stream.id, 0);
    assert_eq!(stream.direction, VIRTIO_SND_D_OUTPUT);
    assert_eq!(u64::from(stream.formats), SUPPORTED_FORMATS);
    assert_eq!(u64::from(stream.rates), SUPPORTED_RATES);
    assert_eq!((stream.channels_min, stream.channels_max), (1, 6));
    assert_eq!(stream.state, PCMState::SetParameters);
    assert!(stream.buffers.is_empty());
    assert_eq!(u32::from(stream.params.buffer_bytes), 8192);
}

#[test]
fn default_parameters() {
    let params = PcmParams::default();
    assert_eq!(u32::from(params.buffer_bytes), 8192);
    assert_eq!(u32::from(params.period_bytes), 4096);
    assert_eq!(u32::from(params.features), 0);
    assert_eq!(params.channels, 1);
    assert_eq!(params.format, VIRTIO_SND_PCM_FMT_S16);
    assert_eq!(params.rate, VIRTIO_SND_PCM_RATE_44100);
}

#[test]
fn a_stream_offers_the_formats_whose_bits_are_set() {
    let mut stream = Stream::default();
    stream.formats = 0x8000_0000_0000_0021u64.into();
    for format in 0..64u8 {
        assert_eq!(stream.supports_format(format), [0, 5, 63].contains(&format));
    }
}

#[test]
fn a_stream_offers_the_rates_whose_bits_are_set() {
    let mut stream = Stream::default();
    stream.rates = 0x0000_0001_0000_0006u64.into();
    for rate in 0..64u8 {
        assert_eq!(stream.supports_rate(rate), [1, 2, 32].contains(&rate));
    }
}

#[test]
fn default_formats_and_rates() {
    let stream = Stream::default();
    for number in 0..64u8 {
        assert_eq!(stream.supports_format(number), [4, 5, 15, 17].contains(&number));
        assert_eq!(stream.supports_rate(number), (1..=7).contains(&number));
    }
}
