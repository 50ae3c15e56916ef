use vhost_user_sound::{PCMParams, SoundConfig, SoundRequest};
use vm_memory::VolatileSlice;

#[test]
fn config_gives_back_the_socket_path() {
    let config = SoundConfig::new("/tmp/snd.sock".to_string(), true, "pipewire".to_string());
    assert_eq!(config.get_socket_path(), "/tmp/snd.sock");
    assert_eq!(config.clone().get_socket_path(), "/tmp/snd.sock");
}

#[test]
fn config_keeps_an_empty_path() {
    let config = SoundConfig::new(String::new(), false, "null".to_string());
    assert_eq!(config.get_socket_path(), "");
}

#[test]
fn request_without_data_has_no_slice() {
    let request = SoundRequest { data_slice: None };
    assert!(request.data_slice().is_none());
}

#[test]
fn request_gives_its_slice() {
    let mut bytes = [7u8; 12];
    let request = SoundRequest { data_slice: Some(VolatileSlice::from(&mut bytes[..])) };
    let slice = request.data_slice().unwrap();
    assert_eq!(slice.len(), 12);
    let mut copy = [0u8; 12];
    slice.copy_to(&mut copy[..]);
    assert_eq!(copy, [7u8; 12]);
}

#[test]
fn unset_parameters_are_zero() {
    let params = PCMParams::default();
    assert_eq!(u32::from(params.features), 0);
    assert_eq!(u32::from(params.buffer_bytes), 0);
    assert_eq!(u32::from(params.period_bytes), 0);
    assert_eq!((params.channels, params.format, params.rate, params.direction), (0, 0, 0, 0));
}

#[test]
fn cloned_parameters_are_the_same() {
    let params = PCMParams {
        features: 1.into(),
        buffer_bytes: 0x1234.into(),
        period_bytes: 0x56.into(),
        channels: 2,
        format: 5,
        rate: 7,
        direction: 1,
    };
    let copy = params.clone();
    assert_eq!(u32::from(copy.features), 1);
    assert_eq!(u32::from(copy.buffer_bytes), 0x1234);
    assert_eq!(u32::from(copy.period_bytes), 0x56);
    assert_eq!((copy.channels, copy.format, copy.rate, copy.direction), (2, 5, 7, 1));
}
