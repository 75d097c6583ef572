use fproc::binary::StreamPeerBuffer;
use fproc::errors::CodecError;

fn loaded(bytes: &[u8]) -> StreamPeerBuffer {
    let mut buf = StreamPeerBuffer::new();
    buf.set_data_array(bytes.to_vec());
    buf
}

#[test]
fn fixed_width_exact_bytes() {
    let mut buf = StreamPeerBuffer::new();
    buf.put_u8(0xAB);
    buf.put_u16(0x1234);
    buf.put_u32(0xDEADBEEF);
    buf.put_u64(0x0102030405060708);
    let out = buf.into_data();
    assert_eq!(
        out,
        vec![
            0xAB, 0x12, 0x34, 0xDE, 0xAD, 0xBE, 0xEF, 0x01, 0x02, 0x03, 0x04, 0x05, 0x06, 0x07,
            0x08
        ]
    );
}

#[test]
fn unsigned_round_trips() {
    for v in [0u8, 1, 127, 128, 255] {
        let mut buf = StreamPeerBuffer::new();
        buf.put_u8(v);
        let data = buf.into_data();
        let mut rd = StreamPeerBuffer::new();
        rd.set_data_array(data);
        assert_eq!(rd.get_u8().unwrap(), v);
    }
    for v in [0u16, 1, 255, 256, 0x7FFF, 0xFFFF] {
        let mut buf = StreamPeerBuffer::new();
        buf.put_u16(v);
        let mut rd = StreamPeerBuffer::new();
        rd.set_data_array(buf.into_data());
        assert_eq!(rd.get_u16().unwrap(), v);
    }
    for v in [0u32, 1, 0xFFFF, 0x10000, 0xFFFF_FFFF] {
        let mut buf = StreamPeerBuffer::new();
        buf.put_u32(v);
        let mut rd = StreamPeerBuffer::new();
        rd.set_data_array(buf.into_data());
        assert_eq!(rd.get_u32().unwrap(), v);
    }
    for v in [0u64, 1, 0xFFFF_FFFF, 0x1_0000_0000, u64::MAX] {
        let mut buf = StreamPeerBuffer::new();
        buf.put_u64(v);
        let mut rd = StreamPeerBuffer::new();
        rd.set_data_array(buf.into_data());
        assert_eq!(rd.get_u64().unwrap(), v);
    }
}

#[test]
fn signed_round_trips() {
    for v in [i8::MIN, -1, 0, 1, i8::MAX] {
        let mut buf = StreamPeerBuffer::new();
        buf.put_8(v);
        let mut rd = StreamPeerBuffer::new();
        rd.set_data_array(buf.into_data());
        assert_eq!(rd.get_8().unwrap(), v);
    }
    for v in [i16::MIN, -1, 0, 1, i16::MAX] {
        let mut buf = StreamPeerBuffer::new();
        buf.put_16(v);
        let mut rd = StreamPeerBuffer::new();
        rd.set_data_array(buf.into_data());
        assert_eq!(rd.get_16().unwrap(), v);
    }
    for v in [i32::MIN, -1, 0, 1, i32::MAX] {
        let mut buf = StreamPeerBuffer::new();
        buf.put_32(v);
        let mut rd = StreamPeerBuffer::new();
        rd.set_data_array(buf.into_data());
        assert_eq!(rd.get_32().unwrap(), v);
    }
    for v in [i64::MIN, -1, 0, 1, i64::MAX] {
        let mut buf = StreamPeerBuffer::new();
        buf.put_64(v);
        let mut rd = StreamPeerBuffer::new();
        rd.set_data_array(buf.into_data());
        assert_eq!(rd.get_64().unwrap(), v);
    }
}

#[test]
fn negative_values_use_twos_complement_bytes() {
    let mut buf = StreamPeerBuffer::new();
    buf.put_16(-2);
    assert_eq!(buf.into_data(), vec![0xFF, 0xFE]);
}

#[test]
fn short_reads_underflow_without_reading_out_of_bounds() {
    let mut rd = loaded(&[]);
    assert_eq!(rd.get_u8(), Err(CodecError::Underflow));

    let mut rd = loaded(&[1, 2, 3]);
    assert_eq!(rd.get_u32(), Err(CodecError::Underflow));
    // the failed read consumed nothing
    assert_eq!(rd.get_u16(), Ok(0x0102));

    let mut rd = loaded(&[0; 7]);
    assert_eq!(rd.get_u64(), Err(CodecError::Underflow));
    let mut rd = loaded(&[0]);
    assert_eq!(rd.get_u16(), Err(CodecError::Underflow));
    let mut rd = loaded(&[0; 3]);
    assert_eq!(rd.get_32(), Err(CodecError::Underflow));
    let mut rd = loaded(&[]);
    assert_eq!(rd.get_8(), Err(CodecError::Underflow));
    let mut rd = loaded(&[0]);
    assert_eq!(rd.get_16(), Err(CodecError::Underflow));
    let mut rd = loaded(&[0; 7]);
    assert_eq!(rd.get_64(), Err(CodecError::Underflow));
}

#[test]
fn peeking_consumes_nothing() {
    let mut rd = loaded(&[10, 20, 30]);
    assert_eq!(rd.peek(0), Some(10));
    assert_eq!(rd.peek(2), Some(30));
    assert_eq!(rd.peek(3), None);
    assert_eq!(rd.position(), 0);
    assert_eq!(rd.remaining(), 3);
    rd.advance(2);
    assert_eq!(rd.peek(0), Some(30));
    assert_eq!(rd.remaining(), 1);
    rd.rewind(1);
    assert_eq!(rd.get_u8(), Ok(20));
}

#[test]
fn reload_resets_the_cursor() {
    let mut buf = StreamPeerBuffer::new();
    buf.put_u16(7);
    buf.set_data_array(vec![9]);
    assert_eq!(buf.get_u8(), Ok(9));
    assert_eq!(buf.get_u8(), Err(CodecError::Underflow));
}

#[test]
fn var_int_zero_is_one_zero_byte() {
    let mut buf = StreamPeerBuffer::new();
    buf.put_var_int(0);
    assert_eq!(buf.into_data(), vec![0]);
}

#[test]
fn var_int_known_encodings() {
    let mut buf = StreamPeerBuffer::new();
    buf.put_var_int(127);
    assert_eq!(buf.into_data(), vec![0x7F]);

    let mut buf = StreamPeerBuffer::new();
    buf.put_var_int(128);
    assert_eq!(buf.into_data(), vec![0x80, 0x01]);

    let mut buf = StreamPeerBuffer::new();
    buf.put_var_int(300);
    assert_eq!(buf.into_data(), vec![0xAC, 0x02]);
}

#[test]
fn var_int_round_trips_with_length_bounds() {
    for v in [0u32, 1, 127, 128, 300, 16383, 16384, 0xFFFF, 0x12345678, u32::MAX] {
        let mut buf = StreamPeerBuffer::new();
        buf.put_var_int(v);
        let data = buf.into_data();
        assert!((1..=5).contains(&data.len()));
        if v == 0 {
            assert_eq!(data.len(), 1);
        }
        let mut rd = StreamPeerBuffer::new();
        rd.set_data_array(data);
        assert_eq!(rd.get_var_int().unwrap(), v);
    }
}

#[test]
fn var_long_round_trips_with_length_bounds() {
    for v in [0u64, 1, 127, 128, 0xFFFF_FFFF, 0x1_0000_0000, u64::MAX] {
        let mut buf = StreamPeerBuffer::new();
        buf.put_var_long(v);
        let data = buf.into_data();
        assert!((1..=10).contains(&data.len()));
        if v == 0 {
            assert_eq!(data.len(), 1);
        }
        let mut rd = StreamPeerBuffer::new();
        rd.set_data_array(data);
        assert_eq!(rd.get_var_long().unwrap(), v);
    }
    let mut buf = StreamPeerBuffer::new();
    buf.put_var_long(u64::MAX);
    assert_eq!(buf.into_data().len(), 10);
}

#[test]
fn var_int_overflow_never_a_silently_wrong_value() {
    // five continuation-flagged bytes call for a sixth: overflow
    let mut rd = loaded(&[0x80, 0x80, 0x80, 0x80, 0x80, 0x01]);
    assert_eq!(rd.get_var_int(), Err(CodecError::Overflow));

    let mut rd = loaded(&[0xFF, 0xFF, 0xFF, 0xFF, 0xFF]);
    assert_eq!(rd.get_var_int(), Err(CodecError::Overflow));
}

#[test]
fn var_int_truncated_input_underflows() {
    let mut rd = loaded(&[0x80, 0x80]);
    assert_eq!(rd.get_var_int(), Err(CodecError::Underflow));
    let mut rd = loaded(&[]);
    assert_eq!(rd.get_var_int(), Err(CodecError::Underflow));
}

#[test]
fn var_long_overflow_at_eleventh_byte() {
    let mut rd = loaded(&[0x80; 10]);
    assert_eq!(rd.get_var_long(), Err(CodecError::Overflow));
    // ten bytes with a terminator still decode
    let mut rd = loaded(&[0x80, 0x80, 0x80, 0x80, 0x80, 0x80, 0x80, 0x80, 0x80, 0x01]);
    assert_eq!(rd.get_var_long().unwrap(), 1u64 << 63);
}
