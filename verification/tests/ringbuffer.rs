use vhost_user_sound::audio_backends::ringbuffer::{read_data, write_data, SpaRingbuffer};

#[test]
fn indices_tell_how_much_waits() {
    let ring = SpaRingbuffer { readindex: 3, writeindex: 10 };
    assert_eq!(ring.get_read_index(), (7, 3));
    assert_eq!(ring.get_write_index(), (7, 10));
}

#[test]
fn the_difference_of_the_indices_is_signed() {
    let behind = SpaRingbuffer { readindex: 10, writeindex: 3 };
    assert_eq!(behind.get_read_index(), (-7, 10));
    assert_eq!(behind.get_write_index(), (-7, 3));
    let around = SpaRingbuffer { readindex: u32::MAX, writeindex: 5 };
    assert_eq!(around.get_read_index(), (6, u32::MAX));
    let half = SpaRingbuffer { readindex: 0, writeindex: 0x8000_0000 };
    assert_eq!(half.get_write_index(), (i32::MIN, 0x8000_0000));
}

#[test]
fn updates_move_one_index() {
    let mut ring = SpaRingbuffer { readindex: 1, writeindex: 2 };
    ring.write_update(9);
    assert_eq!(ring, SpaRingbuffer { readindex: 1, writeindex: 9 });
    ring.read_update(4);
    assert_eq!(ring, SpaRingbuffer { readindex: 4, writeindex: 9 });
}

#[test]
fn writes_go_round_the_ring() {
    let mut buffer = [0u8; 10];
    write_data(&mut buffer, 8, 6, &[1, 2, 3, 4, 5], 4);
    assert_eq!(buffer, [3, 4, 0, 0, 0, 0, 1, 2, 0, 0]);
}

#[test]
fn reads_go_round_the_ring() {
    let buffer = [10u8, 11, 12, 13, 14, 15, 16, 17, 18];
    let mut data = [0u8; 6];
    read_data(&buffer, 8, 5, &mut data, 5);
    assert_eq!(data, [15, 16, 17, 10, 11, 0]);
}

#[test]
fn a_read_gives_back_a_write() {
    for offset in 0..8u32 {
        for len in 0..=8u32 {
            let mut buffer = [0xeeu8; 8];
            let sent = [1u8, 2, 3, 4, 5, 6, 7, 8];
            write_data(&mut buffer, 8, offset, &sent, len);
            let mut got = [0u8; 8];
            read_data(&buffer, 8, offset, &mut got, len);
            assert_eq!(got[..len as usize], sent[..len as usize]);
            assert_eq!(buffer.iter().filter(|&&b| b == 0xee).count(), 8 - len as usize);
        }
    }
}
