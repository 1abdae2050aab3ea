use dns_resolver::message::byte_packet_buffer::{BytePacketBuffer, BytePacketBufferError};
use dns_resolver::message::header::{
    AAFlag, ADFlag, CDFlag, DNSHeaderSection, OpCode, QRFlag, RAFlag, RCode, RDFlag, TCFlag,
    ZFlag,
};

fn sample() -> DNSHeaderSection {
    DNSHeaderSection {
        id: 0xBEEF,
        qr: QRFlag::Response,
        opcode: OpCode::Notify,
        aa: AAFlag::Authoritative,
        tc: TCFlag::NonTruncated,
        rd: RDFlag::Desired,
        ra: RAFlag::Available,
        z: ZFlag::Unused,
        ad: ADFlag::Authenticated,
        cd: CDFlag::Enabled,
        rcode: RCode::NXDomain,
        qdcount: 1,
        ancount: 0x0203,
        nscount: 0,
        arcount: 0xFFFF,
    }
}

#[test]
fn new_header_is_a_blank_query() {
    let h = DNSHeaderSection::new();
    assert_eq!(h.id, 0);
    assert_eq!(h.qr, QRFlag::Query);
    assert_eq!(h.opcode, OpCode::Query);
    assert_eq!(h.aa, AAFlag::NonAuthoritative);
    assert_eq!(h.tc, TCFlag::NonTruncated);
    assert_eq!(h.rd, RDFlag::NonDesired);
    assert_eq!(h.ra, RAFlag::NonAvailable);
    assert_eq!(h.z, ZFlag::Unused);
    assert_eq!(h.ad, ADFlag::NonAuthenticated);
    assert_eq!(h.cd, CDFlag::Disabled);
    assert_eq!(h.rcode, RCode::NoError);
    assert_eq!((h.qdcount, h.ancount, h.nscount, h.arcount), (0, 0, 0, 0));
}

#[test]
fn header_layout_is_bit_exact() {
    let mut buffer = BytePacketBuffer::new();
    assert_eq!(sample().write(&mut buffer), Ok(()));
    assert_eq!(buffer.pos(), 12);
    // QR=1 opcode=4 AA=1 TC=0 RD=1 -> 1_0100_1_0_1; RA=1 Z=0 AD=1 CD=0 rcode=3 -> 1_0_1_0_0011.
    assert_eq!(
        &buffer.buf[0..12],
        &[0xBE, 0xEF, 0b1010_0101, 0b1010_0011, 0x00, 0x01, 0x02, 0x03, 0x00, 0x00, 0xFF, 0xFF][..]
    );
}

#[test]
fn blank_header_sets_only_the_cd_bit() {
    let mut buffer = BytePacketBuffer::new();
    assert_eq!(DNSHeaderSection::new().write(&mut buffer), Ok(()));
    assert_eq!(&buffer.buf[0..12], &[0, 0, 0x00, 0x10, 0, 0, 0, 0, 0, 0, 0, 0][..]);
}

#[test]
fn header_round_trips() {
    let mut buffer = BytePacketBuffer::new();
    buffer.pos = 33;
    assert_eq!(sample().write(&mut buffer), Ok(()));
    buffer.pos = 33;
    let mut back = DNSHeaderSection::new();
    assert_eq!(back.read(&mut buffer), Ok(()));
    assert_eq!(back, sample());
    assert_eq!(buffer.pos(), 45);
}

#[test]
fn every_flag_round_trips() {
    let opcodes = [OpCode::Query, OpCode::IQuery, OpCode::Status, OpCode::Notify, OpCode::Update];
    let rcodes = [
        RCode::NoError,
        RCode::FormErr,
        RCode::ServFail,
        RCode::NXDomain,
        RCode::NotImp,
        RCode::Refused,
        RCode::YXDomain,
        RCode::YXRRSet,
        RCode::NXRRSet,
        RCode::NotAuth,
        RCode::NotZone,
    ];
    for bits in 0..128u8 {
        for opcode in opcodes.iter() {
            for rcode in rcodes.iter() {
                let h = DNSHeaderSection {
                    id: bits as u16 * 300,
                    qr: if bits & 1 != 0 { QRFlag::Response } else { QRFlag::Query },
                    opcode: *opcode,
                    aa: if bits & 2 != 0 { AAFlag::Authoritative } else { AAFlag::NonAuthoritative },
                    tc: if bits & 4 != 0 { TCFlag::Truncated } else { TCFlag::NonTruncated },
                    rd: if bits & 8 != 0 { RDFlag::Desired } else { RDFlag::NonDesired },
                    ra: if bits & 16 != 0 { RAFlag::Available } else { RAFlag::NonAvailable },
                    z: ZFlag::Unused,
                    ad: if bits & 32 != 0 { ADFlag::Authenticated } else { ADFlag::NonAuthenticated },
                    cd: if bits & 64 != 0 { CDFlag::Disabled } else { CDFlag::Enabled },
                    rcode: *rcode,
                    qdcount: 1,
                    ancount: 2,
                    nscount: 3,
                    arcount: 4,
                };
                let mut buffer = BytePacketBuffer::new();
                assert_eq!(h.write(&mut buffer), Ok(()));
                buffer.pos = 0;
                let mut back = DNSHeaderSection::new();
                assert_eq!(back.read(&mut buffer), Ok(()));
                assert_eq!(back, h);
            }
        }
    }
}

#[test]
fn unknown_opcode_is_a_parse_error() {
    for code in [3u8, 6, 7, 15] {
        let mut buffer = BytePacketBuffer::new();
        buffer.buf[2] = code << 3;
        let mut h = sample();
        assert_eq!(h.read(&mut buffer), Err(BytePacketBufferError::UnknownOpCode));
        assert_eq!(h, sample());
        assert_eq!(buffer.pos(), 0);
    }
}

#[test]
fn unknown_rcode_is_a_parse_error() {
    for code in 11u8..16 {
        let mut buffer = BytePacketBuffer::new();
        buffer.buf[3] = code;
        let mut h = sample();
        assert_eq!(h.read(&mut buffer), Err(BytePacketBufferError::UnknownRCode));
        assert_eq!(h, sample());
        assert_eq!(buffer.pos(), 0);
    }
}

#[test]
fn reserved_bit_is_a_parse_error() {
    let mut buffer = BytePacketBuffer::new();
    buffer.buf[3] = 0x40;
    let mut h = DNSHeaderSection::new();
    assert_eq!(h.read(&mut buffer), Err(BytePacketBufferError::ReservedBitSet));
    assert_eq!(buffer.pos(), 0);
    // An unknown opcode is reported first, an unknown response code second.
    buffer.buf[2] = 3 << 3;
    buffer.buf[3] = 0x4F;
    assert_eq!(h.read(&mut buffer), Err(BytePacketBufferError::UnknownOpCode));
    buffer.buf[2] = 0;
    assert_eq!(h.read(&mut buffer), Err(BytePacketBufferError::UnknownRCode));
}

#[test]
fn header_needs_twelve_octets() {
    let mut buffer = BytePacketBuffer::new();
    buffer.pos = 501;
    let mut h = DNSHeaderSection::new();
    assert_eq!(h.read(&mut buffer), Err(BytePacketBufferError::UnexpectedEof));
    assert_eq!(sample().write(&mut buffer), Err(BytePacketBufferError::Overflow));
    assert_eq!(buffer.pos(), 501);
    assert!(buffer.buf.iter().all(|b| *b == 0));
    buffer.pos = 500;
    assert_eq!(sample().write(&mut buffer), Ok(()));
    assert_eq!(buffer.pos(), 512);
    buffer.pos = 500;
    assert_eq!(h.read(&mut buffer), Ok(()));
    assert_eq!(h, sample());
}

#[test]
fn codes_map_both_ways() {
    for code in 0u8..=255 {
        match OpCode::from_u8(code) {
            Some(op) => assert_eq!(OpCode::to_u8(&op), code),
            None => assert!(code == 3 || code > 5),
        }
        match RCode::from_u8(code) {
            Some(rc) => assert_eq!(RCode::to_u8(&rc), code),
            None => assert!(code > 10),
        }
        assert_eq!(ZFlag::from_u8(code), if code == 0 { Some(ZFlag::Unused) } else { None });
        assert_eq!(QRFlag::from_u8(code).is_some(), code < 2);
        assert_eq!(AAFlag::from_u8(code).is_some(), code < 2);
        assert_eq!(TCFlag::from_u8(code).is_some(), code < 2);
        assert_eq!(RDFlag::from_u8(code).is_some(), code < 2);
        assert_eq!(RAFlag::from_u8(code).is_some(), code < 2);
        assert_eq!(ADFlag::from_u8(code).is_some(), code < 2);
        assert_eq!(CDFlag::from_u8(code).is_some(), code < 2);
    }
    assert_eq!(OpCode::from_u8(4), Some(OpCode::Notify));
    assert_eq!(RCode::from_u8(3), Some(RCode::NXDomain));
    assert_eq!(QRFlag::from_u8(1), Some(QRFlag::Response));
    assert_eq!(AAFlag::from_u8(1), Some(AAFlag::Authoritative));
    assert_eq!(TCFlag::from_u8(1), Some(TCFlag::Truncated));
    assert_eq!(RDFlag::from_u8(1), Some(RDFlag::Desired));
    assert_eq!(RAFlag::from_u8(1), Some(RAFlag::Available));
    assert_eq!(ADFlag::from_u8(1), Some(ADFlag::Authenticated));
    assert_eq!(CDFlag::from_u8(0), Some(CDFlag::Enabled));
    assert_eq!(CDFlag::from_u8(1), Some(CDFlag::Disabled));
    assert_eq!(CDFlag::to_u8(&CDFlag::Disabled), 1);
    assert_eq!(QRFlag::to_u8(&QRFlag::Query), 0);
}
