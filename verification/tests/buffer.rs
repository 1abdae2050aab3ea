use dns_resolver::message::byte_packet_buffer::{BytePacketBuffer, BytePacketBufferError};

#[test]
fn new_buffer_is_zeroed_with_cursor_at_start() {
    let buffer = BytePacketBuffer::new();
    assert_eq!(buffer.pos(), 0);
    assert!(buffer.buf.iter().all(|b| *b == 0));
    assert_eq!(buffer.buf.len(), 512);
}

#[test]
fn step_moves_up_to_the_end_and_not_past_it() {
    let mut buffer = BytePacketBuffer::new();
    assert_eq!(buffer.step(500), Ok(()));
    assert_eq!(buffer.pos(), 500);
    assert_eq!(buffer.step(12), Ok(()));
    assert_eq!(buffer.pos(), 512);
    assert_eq!(buffer.step(1), Err(BytePacketBufferError::UnexpectedEof));
    assert_eq!(buffer.pos(), 512);
    assert_eq!(buffer.step(0), Ok(()));
    assert_eq!(buffer.step(usize::MAX), Err(BytePacketBufferError::UnexpectedEof));
    assert_eq!(buffer.pos(), 512);
}

#[test]
fn seek_accepts_the_end_and_rejects_past_it() {
    let mut buffer = BytePacketBuffer::new();
    assert_eq!(buffer.seek(512), Ok(()));
    assert_eq!(buffer.pos(), 512);
    assert_eq!(buffer.seek(513), Err(BytePacketBufferError::UnexpectedEof));
    assert_eq!(buffer.pos(), 512);
    assert_eq!(buffer.seek(7), Ok(()));
    assert_eq!(buffer.pos(), 7);
}

#[test]
fn get_byte_peeks_without_moving() {
    let mut buffer = BytePacketBuffer::new();
    buffer.buf[511] = 0xAB;
    buffer.pos = 3;
    assert_eq!(buffer.get_byte(511), Ok(0xAB));
    assert_eq!(buffer.get_byte(512), Err(BytePacketBufferError::UnexpectedEof));
    assert_eq!(buffer.pos(), 3);
}

#[test]
fn get_byte_range_reaches_the_last_octet() {
    let mut buffer = BytePacketBuffer::new();
    buffer.buf[510] = 1;
    buffer.buf[511] = 2;
    assert_eq!(buffer.get_byte_range(510, 2), Ok(&[1u8, 2u8][..]));
    assert_eq!(buffer.get_byte_range(512, 0), Ok(&[][..]));
    assert_eq!(buffer.get_byte_range(510, 3), Err(BytePacketBufferError::UnexpectedEof));
    assert_eq!(buffer.get_byte_range(513, 0), Err(BytePacketBufferError::UnexpectedEof));
    assert_eq!(buffer.get_byte_range(1, usize::MAX), Err(BytePacketBufferError::UnexpectedEof));
    assert_eq!(buffer.pos(), 0);
}

#[test]
fn integers_are_big_endian() {
    let mut buffer = BytePacketBuffer::new();
    assert_eq!(buffer.write_u8(0x7F), Ok(()));
    assert_eq!(buffer.write_u16(0xBEEF), Ok(()));
    assert_eq!(buffer.write_u32(0x0102_0304), Ok(()));
    assert_eq!(buffer.write_u128(0x0011_2233_4455_6677_8899_AABB_CCDD_EEFF), Ok(()));
    assert_eq!(buffer.pos(), 23);
    assert_eq!(
        &buffer.buf[0..23],
        &[
            0x7F, 0xBE, 0xEF, 0x01, 0x02, 0x03, 0x04, 0x00, 0x11, 0x22, 0x33, 0x44, 0x55, 0x66,
            0x77, 0x88, 0x99, 0xAA, 0xBB, 0xCC, 0xDD, 0xEE, 0xFF
        ][..]
    );
    buffer.pos = 0;
    assert_eq!(buffer.read_u8(), Ok(0x7F));
    assert_eq!(buffer.read_u16(), Ok(0xBEEF));
    assert_eq!(buffer.read_u32(), Ok(0x0102_0304));
    assert_eq!(buffer.read_u128(), Ok(0x0011_2233_4455_6677_8899_AABB_CCDD_EEFF));
    assert_eq!(buffer.pos(), 23);
}

#[test]
fn extreme_integers_round_trip() {
    let mut buffer = BytePacketBuffer::new();
    assert_eq!(buffer.write_u16(u16::MAX), Ok(()));
    assert_eq!(buffer.write_u32(u32::MAX), Ok(()));
    assert_eq!(buffer.write_u128(u128::MAX), Ok(()));
    assert_eq!(buffer.write_u128(1), Ok(()));
    buffer.pos = 0;
    assert_eq!(buffer.read_u16(), Ok(u16::MAX));
    assert_eq!(buffer.read_u32(), Ok(u32::MAX));
    assert_eq!(buffer.read_u128(), Ok(u128::MAX));
    assert_eq!(buffer.read_u128(), Ok(1));
}

#[test]
fn reads_past_the_end_fail_and_leave_the_cursor() {
    let mut buffer = BytePacketBuffer::new();
    buffer.pos = 511;
    assert_eq!(buffer.read_u16(), Err(BytePacketBufferError::UnexpectedEof));
    assert_eq!(buffer.pos(), 511);
    assert_eq!(buffer.read_u32(), Err(BytePacketBufferError::UnexpectedEof));
    assert_eq!(buffer.read_u128(), Err(BytePacketBufferError::UnexpectedEof));
    assert_eq!(buffer.pos(), 511);
    assert_eq!(buffer.read_u8(), Ok(0));
    assert_eq!(buffer.pos(), 512);
    assert_eq!(buffer.read_u8(), Err(BytePacketBufferError::UnexpectedEof));
    assert_eq!(buffer.pos(), 512);
    assert_eq!(buffer.read_bytes(1), Err(BytePacketBufferError::UnexpectedEof));
    assert_eq!(buffer.read_bytes(0), Ok(vec![]));
}

#[test]
fn writes_past_the_end_fail_and_write_nothing() {
    let mut buffer = BytePacketBuffer::new();
    buffer.pos = 510;
    assert_eq!(buffer.write_u32(0xFFFF_FFFF), Err(BytePacketBufferError::Overflow));
    assert_eq!(buffer.write_u128(u128::MAX), Err(BytePacketBufferError::Overflow));
    assert_eq!(buffer.write_bytes(&[1, 2, 3]), Err(BytePacketBufferError::Overflow));
    assert_eq!(buffer.pos(), 510);
    assert!(buffer.buf.iter().all(|b| *b == 0));
    assert_eq!(buffer.write_u16(0x0102), Ok(()));
    assert_eq!(buffer.pos(), 512);
    assert_eq!(buffer.write_u8(9), Err(BytePacketBufferError::Overflow));
    assert_eq!(buffer.write_u16(9), Err(BytePacketBufferError::Overflow));
    assert_eq!(&buffer.buf[510..512], &[1u8, 2u8][..]);
}

#[test]
fn cursor_stays_in_bounds_over_a_mixed_run() {
    let mut buffer = BytePacketBuffer::new();
    let mut name = String::new();
    for round in 0..300usize {
        let _ = buffer.write_u32(round as u32);
        assert!(buffer.pos() <= 512);
        let _ = buffer.step(round % 7);
        assert!(buffer.pos() <= 512);
        let _ = buffer.write_qname("a.bc.def");
        assert!(buffer.pos() <= 512);
        let _ = buffer.read_u128();
        assert!(buffer.pos() <= 512);
        let _ = buffer.read_qname(&mut name);
        assert!(buffer.pos() <= 512);
        if round % 50 == 49 {
            let _ = buffer.seek(round);
            assert!(buffer.pos() <= 512);
        }
    }
}

#[test]
fn an_out_of_bounds_cursor_is_met_with_errors() {
    let mut buffer = BytePacketBuffer::new();
    buffer.pos = 1000;
    assert_eq!(buffer.read_u8(), Err(BytePacketBufferError::UnexpectedEof));
    assert_eq!(buffer.read_u16(), Err(BytePacketBufferError::UnexpectedEof));
    assert_eq!(buffer.write_u8(1), Err(BytePacketBufferError::Overflow));
    assert_eq!(buffer.write_qname("a"), Err(BytePacketBufferError::Overflow));
    let mut name = String::new();
    assert_eq!(buffer.read_qname(&mut name), Err(BytePacketBufferError::UnexpectedEof));
    assert_eq!(buffer.step(0), Err(BytePacketBufferError::UnexpectedEof));
    assert_eq!(buffer.pos(), 1000);
}
