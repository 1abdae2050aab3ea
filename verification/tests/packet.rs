use dns_resolver::message::byte_packet_buffer::{BytePacketBuffer, BytePacketBufferError};
use dns_resolver::message::header::{DNSHeaderSection, QRFlag, RAFlag, RCode, RDFlag};
use dns_resolver::message::packet::{
    find_glue, find_question_problem, find_record_problem, read_questions, read_records,
    write_questions, write_records,
};
use dns_resolver::message::records::{
    DNSARecord, DNSCAARecord, DNSMXRecord, DNSNSRecord, DNSRecord, DNSRecordPreamble,
    DNSTXTRecord, DNSUNKNOWNRecord,
};
use dns_resolver::message::{
    DNSAdditionalSection, DNSAnswerSection, DNSAuthoritySection, DNSPacket, DNSQuestion,
    DNSQuestionSection, QRClass, QRType,
};

fn put(buffer: &mut BytePacketBuffer, at: usize, bytes: &[u8]) {
    for (i, b) in bytes.iter().enumerate() {
        buffer.buf[at + i] = *b;
    }
}

fn a(name: &str, address: u32) -> DNSRecord {
    DNSRecord::A(DNSARecord::new(name.to_string(), QRClass::IN, 3600, address))
}

fn ns(owner: &str, target: &str) -> DNSRecord {
    DNSRecord::NS(DNSNSRecord::new(owner.to_string(), QRClass::IN, 3600, target.to_string()))
}

fn measured(record: DNSRecord) -> DNSRecord {
    let mut buffer = BytePacketBuffer::new();
    record.write(&mut buffer).unwrap();
    buffer.pos = 0;
    DNSRecord::read(&mut buffer).unwrap()
}

#[test]
fn new_packet_is_empty() {
    let p = DNSPacket::new();
    assert_eq!(p.header, DNSHeaderSection::new());
    assert!(p.question.questions.is_empty());
    assert!(p.answer.answers.is_empty());
    assert!(p.authority.records.is_empty());
    assert!(p.additional.records.is_empty());
    assert_eq!(DNSQuestionSection::new().questions.len(), 0);
    assert_eq!(DNSAnswerSection::new().answers.len(), 0);
    assert_eq!(DNSAuthoritySection::new().records.len(), 0);
    assert_eq!(DNSAdditionalSection::new().records.len(), 0);
}

#[test]
fn sections_grow_at_the_end() {
    let mut questions = DNSQuestionSection::new();
    questions.add_question(DNSQuestion::new("a".to_string(), QRType::A, QRClass::IN));
    questions.add_question(DNSQuestion::new("b".to_string(), QRType::NS, QRClass::IN));
    assert_eq!(questions.questions[1].qname, "b");
    let mut answers = DNSAnswerSection::new();
    answers.add_answer(a("x", 1));
    answers.add_answer(a("y", 2));
    assert_eq!(answers.answers, vec![a("x", 1), a("y", 2)]);
    let mut authority = DNSAuthoritySection::new();
    authority.add_record(ns("x", "y"));
    assert_eq!(authority.records, vec![ns("x", "y")]);
    let mut additional = DNSAdditionalSection::new();
    additional.add_record(a("x", 1));
    additional.add_record(ns("x", "y"));
    assert_eq!(additional.records, vec![a("x", 1), ns("x", "y")]);
}

#[test]
fn upstream_answer_is_decoded() {
    // id=0xBEEF, a response, one question, one answer: example.com A 93.184.216.34, TTL 3600.
    let mut buffer = BytePacketBuffer::new();
    put(
        &mut buffer,
        0,
        b"\xbe\xef\x80\x00\x00\x01\x00\x01\x00\x00\x00\x00\
          \x07example\x03com\x00\x00\x01\x00\x01\
          \xc0\x0c\x00\x01\x00\x01\x00\x00\x0e\x10\x00\x04\x5d\xb8\xd8\x22",
    );
    let packet = DNSPacket::from_buffer(&mut buffer).unwrap();
    assert_eq!(buffer.pos(), 45);
    assert_eq!(packet.header.id, 0xBEEF);
    assert_eq!(packet.header.qr, QRFlag::Response);
    assert_eq!(packet.header.rcode, RCode::NoError);
    assert_eq!(packet.header.qdcount, 1);
    assert_eq!(packet.header.ancount, 1);
    assert_eq!(
        packet.question.questions,
        vec![DNSQuestion::new("example.com".to_string(), QRType::A, QRClass::IN)]
    );
    assert_eq!(packet.answer.answers, vec![a("example.com", 0x5DB8_D822)]);
    assert!(packet.authority.records.is_empty());
    assert!(packet.additional.records.is_empty());
    assert_eq!(packet.get_random_a(), Some(0x5DB8_D822));
}

#[test]
fn write_sets_the_counts() {
    let mut packet = DNSPacket::new();
    packet.header.id = 7;
    packet.header.qdcount = 99;
    packet.header.arcount = 99;
    packet.question.add_question(DNSQuestion::new("q".to_string(), QRType::A, QRClass::IN));
    packet.answer.add_answer(a("q", 1));
    packet.answer.add_answer(a("q", 2));
    packet.authority.add_record(ns("q", "n1"));
    packet.authority.add_record(ns("q", "n2"));
    packet.authority.add_record(ns("q", "n3"));
    let mut buffer = BytePacketBuffer::new();
    assert_eq!(packet.write(&mut buffer), Ok(()));
    assert_eq!((packet.header.qdcount, packet.header.ancount), (1, 2));
    assert_eq!((packet.header.nscount, packet.header.arcount), (3, 0));
    assert_eq!(&buffer.buf[4..12], &[0, 1, 0, 2, 0, 3, 0, 0][..]);
    let end = buffer.pos();
    buffer.pos = 0;
    let back = DNSPacket::from_buffer(&mut buffer).unwrap();
    assert_eq!(buffer.pos(), end);
    assert_eq!(back.question.questions.len(), 1);
    assert_eq!(back.answer.answers.len(), 2);
    assert_eq!(back.authority.records.len(), 3);
    assert_eq!(back.additional.records.len(), 0);
    assert_eq!(back.header, packet.header);
}

#[test]
fn message_round_trips() {
    let mut packet = DNSPacket::new();
    packet.header.id = 0x1234;
    packet.header.qr = QRFlag::Response;
    packet.header.rd = RDFlag::Desired;
    packet.header.ra = RAFlag::Available;
    packet.header.rcode = RCode::Refused;
    packet.question.add_question(DNSQuestion::new("example.org".to_string(), QRType::MX, QRClass::IN));
    packet.question.add_question(DNSQuestion::new("other.example".to_string(), QRType::UNKNOWN(999), QRClass::ANY));
    packet.answer.add_answer(DNSRecord::MX(DNSMXRecord::new("example.org".to_string(), QRClass::IN, 60, 5, "mx.example.org".to_string())));
    packet.answer.add_answer(DNSRecord::TXT(DNSTXTRecord::new("example.org".to_string(), QRClass::IN, 60, vec![0, 255, 10])));
    packet.authority.add_record(ns("org", "a0.org.afilias-nst.info"));
    packet.additional.add_record(a("a0.org.afilias-nst.info", 0xC713_3801));
    packet.additional.add_record(DNSRecord::CAA(DNSCAARecord::new("example.org".to_string(), QRClass::IN, 1, 0, b"iodef".to_vec(), vec![1, 2, 3])));
    packet.additional.add_record(DNSRecord::UNKNOWN(DNSUNKNOWNRecord::new("example.org".to_string(), 41, QRClass::CH, 0)));
    let mut buffer = BytePacketBuffer::new();
    assert_eq!(packet.write(&mut buffer), Ok(()));
    let end = buffer.pos();
    buffer.pos = 0;
    let back = DNSPacket::from_buffer(&mut buffer).unwrap();
    assert_eq!(buffer.pos(), end);
    assert_eq!(back.header, packet.header);
    assert_eq!(back.question, packet.question);
    let expect = |records: Vec<DNSRecord>| -> Vec<DNSRecord> { records.into_iter().map(measured).collect() };
    assert_eq!(back.answer.answers, expect(packet.answer.answers));
    assert_eq!(back.authority.records, expect(packet.authority.records));
    assert_eq!(back.additional.records, expect(packet.additional.records));
    // Written once more, the message gives the same octets.
    let mut second = BytePacketBuffer::new();
    let mut again = back;
    assert_eq!(again.write(&mut second), Ok(()));
    assert_eq!(&second.buf[..], &buffer.buf[..]);
    assert_eq!(second.pos(), end);
}

#[test]
fn a_count_beyond_the_octets_is_an_error() {
    let mut buffer = BytePacketBuffer::new();
    // The header counts two questions, the datagram holds one, and zeroes follow.
    put(&mut buffer, 0, b"\x00\x01\x00\x00\x00\x02\x00\x00\x00\x00\x00\x00\x01q\x00\x00\x01\x00\x01");
    // The zeroes read as the root name with type 0 and class 0.
    assert_eq!(DNSPacket::from_buffer(&mut buffer), Err(BytePacketBufferError::UnknownClass));
    assert_eq!(buffer.pos(), 0);
    // Questions that are counted to the end of the buffer and beyond.
    let mut full = BytePacketBuffer::new();
    put(&mut full, 0, b"\x00\x01\x00\x00\xff\xff\x00\x00\x00\x00\x00\x00");
    for at in (12..512).step_by(5) {
        put(&mut full, at, b"\x00\x00\x01\x00\x01");
    }
    assert_eq!(DNSPacket::from_buffer(&mut full), Err(BytePacketBufferError::UnexpectedEof));
    assert_eq!(full.pos(), 0);
    // One answer is counted, and its address is cut off by the end of the buffer.
    let mut cut = BytePacketBuffer::new();
    put(&mut cut, 488, b"\x00\x01\x00\x00\x00\x00\x00\x01\x00\x00\x00\x00");
    put(&mut cut, 500, b"\x00\x00\x01\x00\x01\x00\x00\x00\x00\x00\x04\x01");
    cut.pos = 488;
    assert_eq!(DNSPacket::from_buffer(&mut cut), Err(BytePacketBufferError::UnexpectedEof));
    assert_eq!(cut.pos(), 488);
    // With the whole record inside the buffer, the message is read.
    let mut whole = BytePacketBuffer::new();
    put(&mut whole, 485, b"\x00\x01\x00\x00\x00\x00\x00\x01\x00\x00\x00\x00");
    put(&mut whole, 497, b"\x00\x00\x01\x00\x01\x00\x00\x00\x00\x00\x04\x01\x02\x03\x04");
    whole.pos = 485;
    let read = DNSPacket::from_buffer(&mut whole).unwrap();
    assert_eq!(whole.pos(), 512);
    assert_eq!(read.answer.answers, vec![DNSRecord::A(DNSARecord::new(String::new(), QRClass::IN, 0, 0x0102_0304))]);
}

#[test]
fn sections_of_more_items_than_octets_do_not_fit() {
    let mut packet = DNSPacket::new();
    for _ in 0..70_000u32 {
        packet.question.add_question(DNSQuestion::new(String::new(), QRType::A, QRClass::IN));
    }
    let mut buffer = BytePacketBuffer::new();
    assert_eq!(packet.write(&mut buffer), Err(BytePacketBufferError::Overflow));
    assert_eq!(buffer.pos(), 0);
    assert_eq!(packet.header.qdcount, 0);
    let mut other = DNSPacket::new();
    for _ in 0..66_000u32 {
        other.additional.add_record(DNSRecord::UNKNOWN(DNSUNKNOWNRecord::new(String::new(), 9, QRClass::IN, 0)));
    }
    assert_eq!(other.write(&mut buffer), Err(BytePacketBufferError::Overflow));
    assert!(buffer.buf.iter().all(|b| *b == 0));
}

#[test]
fn header_errors_surface_from_the_packet() {
    let mut buffer = BytePacketBuffer::new();
    buffer.buf[2] = 0x78;
    assert_eq!(DNSPacket::from_buffer(&mut buffer), Err(BytePacketBufferError::UnknownOpCode));
    buffer.buf[2] = 0;
    buffer.buf[3] = 0x0F;
    assert_eq!(DNSPacket::from_buffer(&mut buffer), Err(BytePacketBufferError::UnknownRCode));
    buffer.buf[3] = 0x40;
    assert_eq!(DNSPacket::from_buffer(&mut buffer), Err(BytePacketBufferError::ReservedBitSet));
    buffer.buf[3] = 0;
    buffer.pos = 505;
    assert_eq!(DNSPacket::from_buffer(&mut buffer), Err(BytePacketBufferError::UnexpectedEof));
    assert_eq!(buffer.pos(), 505);
    buffer.pos = 0;
    assert_eq!(DNSPacket::from_buffer(&mut buffer), Ok(DNSPacket {
        header: DNSHeaderSection { cd: dns_resolver::message::header::CDFlag::Enabled, ..DNSHeaderSection::new() },
        question: DNSQuestionSection::new(),
        answer: DNSAnswerSection::new(),
        authority: DNSAuthoritySection::new(),
        additional: DNSAdditionalSection::new(),
    }));
    assert_eq!(buffer.pos(), 12);
}

#[test]
fn a_message_that_does_not_fit_is_not_written() {
    let mut packet = DNSPacket::new();
    for i in 0..40u32 {
        packet.answer.add_answer(a("example.com", i));
    }
    // 12 + 40 * 27 = 1092 octets.
    let mut buffer = BytePacketBuffer::new();
    assert_eq!(packet.write(&mut buffer), Err(BytePacketBufferError::Overflow));
    assert_eq!(buffer.pos(), 0);
    assert!(buffer.buf.iter().all(|b| *b == 0));
    assert_eq!(packet.header.ancount, 0);
    // 12 + 18 * 27 = 498 octets fit, 12 + 19 * 27 = 525 do not.
    packet.answer.answers.truncate(19);
    assert_eq!(packet.write(&mut buffer), Err(BytePacketBufferError::Overflow));
    assert!(buffer.buf.iter().all(|b| *b == 0));
    packet.answer.answers.truncate(18);
    assert_eq!(packet.write(&mut buffer), Ok(()));
    assert_eq!(buffer.pos(), 498);
    assert_eq!(packet.header.ancount, 18);
}

#[test]
fn a_bad_name_anywhere_is_reported_before_a_lack_of_room() {
    let mut packet = DNSPacket::new();
    for i in 0..40u32 {
        packet.answer.add_answer(a("example.com", i));
    }
    packet.additional.add_record(ns("ok", &"x".repeat(64)));
    let mut buffer = BytePacketBuffer::new();
    assert_eq!(packet.write(&mut buffer), Err(BytePacketBufferError::InvalidDomainNameFormat));
    assert_eq!(buffer.pos(), 0);
    assert!(buffer.buf.iter().all(|b| *b == 0));
    assert_eq!(packet.header, DNSHeaderSection::new());
    packet.additional.records.clear();
    packet.answer.answers.clear();
    packet.question.add_question(DNSQuestion::new("x".repeat(64), QRType::A, QRClass::IN));
    packet.answer.add_answer(DNSRecord::CAA(DNSCAARecord::new("e".to_string(), QRClass::IN, 1, 0, vec![0; 300], vec![])));
    assert_eq!(packet.write(&mut buffer), Err(BytePacketBufferError::InvalidDomainNameFormat));
    packet.question.questions.clear();
    assert_eq!(packet.write(&mut buffer), Err(BytePacketBufferError::InvalidTagLength));
    assert_eq!(find_question_problem(&packet.question.questions), None);
    assert_eq!(find_record_problem(&packet.answer.answers), Some(BytePacketBufferError::InvalidTagLength));
    assert_eq!(find_record_problem(&packet.authority.records), None);
}

#[test]
fn lists_are_read_and_written_in_order() {
    let questions = vec![
        DNSQuestion::new("a".to_string(), QRType::A, QRClass::IN),
        DNSQuestion::new("b".to_string(), QRType::NS, QRClass::CH),
    ];
    let records = vec![a("a", 1), ns("b", "c"), a("d", 2)];
    let mut buffer = BytePacketBuffer::new();
    assert_eq!(write_questions(&questions, &mut buffer), Ok(()));
    let mid = buffer.pos();
    assert_eq!(mid, 14);
    assert_eq!(write_records(&records, &mut buffer), Ok(()));
    let end = buffer.pos();
    buffer.pos = 0;
    assert_eq!(read_questions(&mut buffer, 2), Ok(questions));
    assert_eq!(buffer.pos(), mid);
    assert_eq!(read_records(&mut buffer, 0), Ok(vec![]));
    assert_eq!(buffer.pos(), mid);
    let expected: Vec<DNSRecord> = records.into_iter().map(measured).collect();
    assert_eq!(read_records(&mut buffer, 3), Ok(expected));
    assert_eq!(buffer.pos(), end);
    let many: Vec<DNSRecord> = (0..60).map(|i| a("name", i)).collect();
    buffer.pos = 100;
    assert_eq!(write_records(&many, &mut buffer), Err(BytePacketBufferError::Overflow));
    assert_eq!(buffer.pos(), 100);
}

#[test]
fn first_a_skips_other_records() {
    let mut packet = DNSPacket::new();
    assert_eq!(packet.get_random_a(), None);
    packet.answer.add_answer(ns("example.org", "ns.example.org"));
    packet.answer.add_answer(DNSRecord::TXT(DNSTXTRecord::new("example.org".to_string(), QRClass::IN, 1, vec![1])));
    assert_eq!(packet.get_random_a(), None);
    packet.answer.add_answer(a("example.org", 0x0102_0304));
    packet.answer.add_answer(a("example.org", 0x0506_0708));
    assert_eq!(packet.get_random_a(), Some(0x0102_0304));
    // A records elsewhere do not count.
    let mut other = DNSPacket::new();
    other.additional.add_record(a("example.org", 1));
    other.authority.add_record(a("example.org", 2));
    assert_eq!(other.get_random_a(), None);
}

fn referral() -> DNSPacket {
    let mut packet = DNSPacket::new();
    packet.authority.add_record(ns("example.org", "a.iana-servers.net"));
    packet.authority.add_record(a("example.org", 9));
    packet.authority.add_record(ns("ample.org", "wrong.example"));
    packet.authority.add_record(ns("Org", "b.iana-servers.net"));
    packet.authority.add_record(ns("example.com", "c.iana-servers.net"));
    packet.authority.add_record(ns("www.example.org", "d.iana-servers.net"));
    packet.authority.add_record(ns("deep.www.example.org", "e.iana-servers.net"));
    packet.authority.add_record(ns("", "root.example"));
    packet.additional.add_record(ns("b.iana-servers.net", "not-an-address.example"));
    packet.additional.add_record(a("c.iana-servers.net", 3));
    packet.additional.add_record(a("b.iana-servers.net", 0xC72B_8735));
    packet.additional.add_record(a("b.iana-servers.net", 4));
    packet.additional.add_record(a("d.iana-servers.net", 5));
    packet
}

#[test]
fn name_servers_are_those_of_parent_domains() {
    let packet = referral();
    let pair = |o: &str, t: &str| (o.to_string(), t.to_string());
    assert_eq!(
        packet.get_ns("WWW.example.org"),
        vec![
            pair("example.org", "a.iana-servers.net"),
            pair("Org", "b.iana-servers.net"),
            pair("www.example.org", "d.iana-servers.net"),
            pair("", "root.example"),
        ]
    );
    assert_eq!(
        packet.get_ns("example.com"),
        vec![pair("example.com", "c.iana-servers.net"), pair("", "root.example")]
    );
    assert_eq!(packet.get_ns(""), vec![pair("", "root.example")]);
    assert_eq!(DNSPacket::new().get_ns("example.org"), vec![]);
}

#[test]
fn resolved_and_unresolved_name_servers() {
    let packet = referral();
    // a has no address, b has one: b is the first resolved, a the first unresolved.
    assert_eq!(packet.get_resolved_ns("www.example.org"), Some(0xC72B_8735));
    assert_eq!(packet.get_unresolved_ns("www.example.org"), Some("a.iana-servers.net".to_string()));
    assert_eq!(packet.get_resolved_ns("example.com"), Some(3));
    assert_eq!(packet.get_unresolved_ns("example.com"), Some("root.example".to_string()));
    assert_eq!(packet.get_resolved_ns("net"), None);
    assert_eq!(packet.get_unresolved_ns("net"), Some("root.example".to_string()));
    let empty = DNSPacket::new();
    assert_eq!(empty.get_resolved_ns("example.org"), None);
    assert_eq!(empty.get_unresolved_ns("example.org"), None);
    let mut glued = DNSPacket::new();
    glued.authority.add_record(ns("org", "n.example"));
    glued.additional.add_record(a("n.example", 8));
    assert_eq!(glued.get_resolved_ns("x.org"), Some(8));
    assert_eq!(glued.get_unresolved_ns("x.org"), None);
    // The owner of the address must be the target, letter for letter.
    glued.additional.records.clear();
    glued.additional.add_record(a("N.example", 8));
    assert_eq!(glued.get_resolved_ns("x.org"), None);
    assert_eq!(glued.get_unresolved_ns("x.org"), Some("n.example".to_string()));
    let host = "n.example".to_string();
    assert_eq!(find_glue(&host, &glued.additional.records), None);
    assert_eq!(find_glue(&"N.example".to_string(), &glued.additional.records), Some(8));
    assert_eq!(find_glue(&host, &vec![]), None);
}

#[test]
fn parsed_preamble_holds_the_length_read() {
    let mut buffer = BytePacketBuffer::new();
    // An A record whose length field says 9; four octets are read all the same.
    put(&mut buffer, 0, b"\x01e\x00\x00\x01\x00\x01\x00\x00\x00\x01\x00\x09\x01\x02\x03\x04");
    let expected = DNSARecord {
        preamble: DNSRecordPreamble::new("e".to_string(), QRType::A, QRClass::IN, 1, 9),
        rdata: 0x0102_0304,
    };
    assert_eq!(DNSRecord::read(&mut buffer), Ok(DNSRecord::A(expected)));
    assert_eq!(buffer.pos(), 17);
}
