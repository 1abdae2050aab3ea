use dns_resolver::message::byte_packet_buffer::{BytePacketBuffer, BytePacketBufferError};
use dns_resolver::message::header::{CDFlag, DNSHeaderSection, QRFlag, RAFlag, RCode, RDFlag};
use dns_resolver::message::records::{DNSARecord, DNSNSRecord, DNSRecord, DNSTXTRecord};
use dns_resolver::message::{DNSPacket, DNSQuestion, QRClass, QRType};
use dns_resolver::server::{
    answer, build_query, generate_packet_id, read_request, refusal, Lookup, Request, Resolution,
    ResolveError, Step, BOOTSTRAP_SERVER, DNS_PORT, MAX_ROUND_TRIPS,
};

fn put(buffer: &mut BytePacketBuffer, at: usize, bytes: &[u8]) {
    for (i, b) in bytes.iter().enumerate() {
        buffer.buf[at + i] = *b;
    }
}

fn a(name: &str, address: u32) -> DNSRecord {
    DNSRecord::A(DNSARecord::new(name.to_string(), QRClass::IN, 3600, address))
}

fn ns(owner: &str, target: &str) -> DNSRecord {
    DNSRecord::NS(DNSNSRecord::new(owner.to_string(), QRClass::IN, 3600, target.to_string()))
}

fn response(rcode: RCode) -> DNSPacket {
    let mut packet = DNSPacket::new();
    packet.header.qr = QRFlag::Response;
    packet.header.rcode = rcode;
    packet
}

fn answered(name: &str, address: u32) -> DNSPacket {
    let mut packet = response(RCode::NoError);
    packet.answer.add_answer(a(name, address));
    packet
}

fn referral(zone: &str, server: &str, glue: Option<u32>) -> DNSPacket {
    let mut packet = response(RCode::NoError);
    packet.authority.add_record(ns(zone, server));
    if let Some(address) = glue {
        packet.additional.add_record(a(server, address));
    }
    packet
}

fn asked(step: Step) -> Resolution {
    match step {
        Step::Ask(next) => next,
        other => panic!("expected a query, got {:?}", other),
    }
}

/// Sends a packet through the wire, as it would reach the other side.
fn over_the_wire(mut packet: DNSPacket) -> DNSPacket {
    let mut buffer = BytePacketBuffer::new();
    assert_eq!(packet.write(&mut buffer), Ok(()));
    buffer.pos = 0;
    DNSPacket::from_buffer(&mut buffer).unwrap()
}

#[test]
fn constants_are_the_documented_ones() {
    assert_eq!(MAX_ROUND_TRIPS, 16);
    assert_eq!(DNS_PORT, 53);
    assert_eq!(BOOTSTRAP_SERVER, u32::from_be_bytes([1, 1, 1, 1]));
}

#[test]
fn packet_id_is_the_stirred_seed() {
    assert_eq!(generate_packet_id(0), 0);
    // 1 ^ (1 << 21) = 0x200001; no bit reaches 35; then ^ (<< 4) = 0x2200011; mod 65535 = 0x231.
    assert_eq!(generate_packet_id(1), 0x0231);
    let reference = |seed: u64| -> u16 {
        let mut rng = seed ^ (seed << 21);
        rng ^= rng >> 35;
        rng ^= rng << 4;
        (rng % 65535) as u16
    };
    for seed in [2u64, 1_700_000_000_000_000, u64::MAX, 0x8000_0000_0000_0000, 65535, 65536] {
        assert_eq!(generate_packet_id(seed), reference(seed));
        assert!(generate_packet_id(seed) < 65535);
    }
    assert_ne!(generate_packet_id(1_700_000_000_000_000), generate_packet_id(1_700_000_000_000_001));
}

#[test]
fn queries_do_not_ask_for_recursion() {
    let mut query = build_query(0xBEEF, "example.com", QRType::A, QRClass::IN);
    assert_eq!(query.header, DNSHeaderSection { id: 0xBEEF, qdcount: 1, ..DNSHeaderSection::new() });
    assert_eq!(query.header.rd, RDFlag::NonDesired);
    assert_eq!(query.header.qr, QRFlag::Query);
    assert_eq!(query.question.questions, vec![DNSQuestion::new("example.com".to_string(), QRType::A, QRClass::IN)]);
    assert!(query.answer.answers.is_empty());
    assert!(query.authority.records.is_empty());
    assert!(query.additional.records.is_empty());
    let mut buffer = BytePacketBuffer::new();
    assert_eq!(query.write(&mut buffer), Ok(()));
    assert_eq!(buffer.pos(), 29);
    assert_eq!(
        &buffer.buf[0..29],
        b"\xbe\xef\x00\x10\x00\x01\x00\x00\x00\x00\x00\x00\x07example\x03com\x00\x00\x01\x00\x01"
    );
}

#[test]
fn a_resolution_starts_at_the_bootstrap_server() {
    let r = Resolution::start("example.com".to_string(), QRType::MX, 0x0808_0808);
    assert_eq!(r.current, Lookup { qname: "example.com".to_string(), qtype: QRType::MX, server: 0x0808_0808 });
    assert_eq!(r.round_trips, 1);
    assert_eq!(r.bootstrap, 0x0808_0808);
    assert!(r.waiting.is_empty());
}

#[test]
fn an_answer_ends_the_resolution() {
    let r = Resolution::start("example.com".to_string(), QRType::A, BOOTSTRAP_SERVER);
    let reply = answered("example.com", 0x5DB8_D822);
    assert_eq!(r.on_response(answered("example.com", 0x5DB8_D822)), Step::Done(reply));
}

#[test]
fn an_answer_with_an_error_code_is_no_answer() {
    // Answers are there, but the code is ServFail, and nothing leads on: the response is returned as it is.
    let r = Resolution::start("example.com".to_string(), QRType::A, BOOTSTRAP_SERVER);
    let mut reply = answered("example.com", 1);
    reply.header.rcode = RCode::ServFail;
    let mut same = answered("example.com", 1);
    same.header.rcode = RCode::ServFail;
    assert_eq!(r.on_response(reply), Step::Done(same));
    // With a referral beside them, the referral is followed.
    let r = Resolution::start("example.com".to_string(), QRType::A, BOOTSTRAP_SERVER);
    let mut reply = answered("example.com", 1);
    reply.header.rcode = RCode::Refused;
    reply.authority.add_record(ns("com", "n.example"));
    reply.additional.add_record(a("n.example", 77));
    let next = asked(r.on_response(reply));
    assert_eq!(next.current.server, 77);
}

#[test]
fn nxdomain_ends_the_resolution() {
    let r = Resolution::start("nope.example".to_string(), QRType::A, BOOTSTRAP_SERVER);
    let mut reply = response(RCode::NXDomain);
    reply.authority.add_record(ns("example", "n.example"));
    reply.additional.add_record(a("n.example", 77));
    let mut same = response(RCode::NXDomain);
    same.authority.add_record(ns("example", "n.example"));
    same.additional.add_record(a("n.example", 77));
    assert_eq!(r.on_response(reply), Step::Done(same));
}

#[test]
fn a_glued_referral_is_chased() {
    let r = Resolution::start("www.example.org".to_string(), QRType::A, BOOTSTRAP_SERVER);
    let first = referral("example.org", "a.iana-servers.net", Some(0xC72B_8735));
    let next = asked(r.on_response(over_the_wire(first)));
    // The same question goes to 199.43.135.53.
    assert_eq!(
        next.current,
        Lookup { qname: "www.example.org".to_string(), qtype: QRType::A, server: u32::from_be_bytes([199, 43, 135, 53]) }
    );
    assert_eq!(next.round_trips, 2);
    assert!(next.waiting.is_empty());
    let reply = over_the_wire(answered("www.example.org", 0x5DB8_D822));
    match next.on_response(over_the_wire(answered("www.example.org", 0x5DB8_D822))) {
        Step::Done(result) => {
            assert_eq!(result, reply);
            assert_eq!(result.get_random_a(), Some(u32::from_be_bytes([93, 184, 216, 34])));
        }
        other => panic!("unexpected {:?}", other),
    }
}

#[test]
fn an_unglued_referral_looks_the_server_up_first() {
    let r = Resolution::start("www.example.org".to_string(), QRType::TXT, BOOTSTRAP_SERVER);
    let first = referral("example.org", "b.iana-servers.net", None);
    let kept = referral("example.org", "b.iana-servers.net", None);
    let sub = asked(r.on_response(first));
    // The address of the name server is asked of the bootstrap server.
    assert_eq!(sub.current, Lookup { qname: "b.iana-servers.net".to_string(), qtype: QRType::A, server: BOOTSTRAP_SERVER });
    assert_eq!(sub.round_trips, 2);
    assert_eq!(sub.waiting.len(), 1);
    assert_eq!(sub.waiting[0].lookup, Lookup { qname: "www.example.org".to_string(), qtype: QRType::TXT, server: BOOTSTRAP_SERVER });
    assert_eq!(sub.waiting[0].response, kept);
    // With the address found, the first question goes to that server.
    let retry = asked(sub.on_response(answered("b.iana-servers.net", 0xC72B_8535)));
    assert_eq!(retry.current, Lookup { qname: "www.example.org".to_string(), qtype: QRType::TXT, server: 0xC72B_8535 });
    assert_eq!(retry.round_trips, 3);
    assert!(retry.waiting.is_empty());
    let mut done = response(RCode::NoError);
    done.answer.add_answer(DNSRecord::TXT(DNSTXTRecord::new("www.example.org".to_string(), QRClass::IN, 1, b"hi".to_vec())));
    let mut same = response(RCode::NoError);
    same.answer.add_answer(DNSRecord::TXT(DNSTXTRecord::new("www.example.org".to_string(), QRClass::IN, 1, b"hi".to_vec())));
    assert_eq!(retry.on_response(done), Step::Done(same));
    assert!(3 <= MAX_ROUND_TRIPS);
}

#[test]
fn without_an_address_for_the_server_the_referral_is_the_result() {
    let r = Resolution::start("www.example.org".to_string(), QRType::A, BOOTSTRAP_SERVER);
    let sub = asked(r.on_response(referral("example.org", "b.iana-servers.net", None)));
    // The name server does not exist.
    let result = sub.on_response(response(RCode::NXDomain));
    assert_eq!(result, Step::Done(referral("example.org", "b.iana-servers.net", None)));
    // An answer that holds no address does no better.
    let r = Resolution::start("www.example.org".to_string(), QRType::A, BOOTSTRAP_SERVER);
    let sub = asked(r.on_response(referral("example.org", "b.iana-servers.net", None)));
    let mut cname_only = response(RCode::NoError);
    cname_only.answer.add_answer(ns("b.iana-servers.net", "elsewhere.example"));
    assert_eq!(sub.on_response(cname_only), Step::Done(referral("example.org", "b.iana-servers.net", None)));
}

#[test]
fn a_response_that_leads_nowhere_is_the_result() {
    let r = Resolution::start("www.example.org".to_string(), QRType::A, BOOTSTRAP_SERVER);
    assert_eq!(r.on_response(response(RCode::NoError)), Step::Done(response(RCode::NoError)));
    let r = Resolution::start("www.example.org".to_string(), QRType::A, BOOTSTRAP_SERVER);
    assert_eq!(r.on_response(response(RCode::Refused)), Step::Done(response(RCode::Refused)));
    // Name servers of another zone do not lead on.
    let r = Resolution::start("www.example.org".to_string(), QRType::A, BOOTSTRAP_SERVER);
    let other = referral("example.com", "n.example.com", Some(1));
    assert_eq!(r.on_response(other), Step::Done(referral("example.com", "n.example.com", Some(1))));
}

#[test]
fn nested_lookups_unwind_in_order() {
    let r = Resolution::start("www.a.example".to_string(), QRType::A, 10);
    let r = asked(r.on_response(referral("a.example", "ns.b.example", None)));
    let r = asked(r.on_response(referral("b.example", "ns.c.example", None)));
    assert_eq!(r.current.qname, "ns.c.example");
    assert_eq!(r.waiting.len(), 2);
    assert_eq!(r.round_trips, 3);
    let r = asked(r.on_response(answered("ns.c.example", 30)));
    assert_eq!(r.current, Lookup { qname: "ns.b.example".to_string(), qtype: QRType::A, server: 30 });
    assert_eq!(r.waiting.len(), 1);
    let r = asked(r.on_response(answered("ns.b.example", 20)));
    assert_eq!(r.current, Lookup { qname: "www.a.example".to_string(), qtype: QRType::A, server: 20 });
    assert_eq!(r.waiting.len(), 0);
    assert_eq!(r.round_trips, 5);
    assert_eq!(r.on_response(answered("www.a.example", 1)), Step::Done(answered("www.a.example", 1)));
}

#[test]
fn a_failed_nested_lookup_falls_back_through_all_that_wait() {
    let r = Resolution::start("www.a.example".to_string(), QRType::A, 10);
    let r = asked(r.on_response(referral("a.example", "ns.b.example", None)));
    let r = asked(r.on_response(referral("b.example", "ns.c.example", None)));
    // ns.c.example does not exist: the lookup of ns.b.example ends with its referral, which holds no
    // address, so the first lookup ends with its own referral.
    assert_eq!(
        r.on_response(response(RCode::NXDomain)),
        Step::Done(referral("a.example", "ns.b.example", None))
    );
}

#[test]
fn a_referral_loop_stops_at_sixteen_queries() {
    let mut r = Resolution::start("www.example.org".to_string(), QRType::A, BOOTSTRAP_SERVER);
    let mut sent = 1;
    loop {
        assert_eq!(r.round_trips, sent);
        assert!(sent <= MAX_ROUND_TRIPS);
        // Each server refers to the next address.
        match r.on_response(referral("org", "n.example", Some(1000 + sent as u32))) {
            Step::Ask(next) => {
                assert_eq!(next.current.server, 1000 + sent as u32);
                r = next;
                sent += 1;
            }
            Step::Failed(e) => {
                assert_eq!(e, ResolveError::IterationCapExceeded);
                break;
            }
            Step::Done(_) => panic!("a loop has no end"),
        }
    }
    assert_eq!(sent, 16);
}

#[test]
fn nested_lookups_share_the_sixteen_queries() {
    let mut r = Resolution::start("www.example.org".to_string(), QRType::A, BOOTSTRAP_SERVER);
    let mut sent = 1;
    loop {
        assert!(r.waiting.len() < r.round_trips);
        // Each server names one more server without an address.
        let host = format!("ns{}.example", sent);
        match r.on_response(referral("", &host, None)) {
            Step::Ask(next) => {
                assert_eq!(next.current.qname, host);
                assert_eq!(next.waiting.len(), sent);
                r = next;
                sent += 1;
            }
            Step::Failed(e) => {
                assert_eq!(e, ResolveError::IterationCapExceeded);
                break;
            }
            Step::Done(_) => panic!("a loop has no end"),
        }
    }
    assert_eq!(sent, 16);
}

#[test]
fn the_cap_also_stops_a_retry_after_a_nested_lookup() {
    let mut r = Resolution::start("www.example.org".to_string(), QRType::A, BOOTSTRAP_SERVER);
    r = asked(r.on_response(referral("org", "ns.example", None)));
    for i in 0..14u32 {
        r = asked(r.on_response(referral("example", "glue.example", Some(i))));
    }
    assert_eq!(r.round_trips, 16);
    assert_eq!(r.waiting.len(), 1);
    // The address is found, but the query that would use it is one too many.
    assert_eq!(r.on_response(answered("ns.example", 5)), Step::Failed(ResolveError::IterationCapExceeded));
}

#[test]
fn refusal_is_a_format_error_without_sections() {
    let packet = refusal(0x1234);
    assert_eq!(
        packet.header,
        DNSHeaderSection {
            id: 0x1234,
            qr: QRFlag::Response,
            rd: RDFlag::Desired,
            ra: RAFlag::Available,
            rcode: RCode::FormErr,
            ..DNSHeaderSection::new()
        }
    );
    assert!(packet.question.questions.is_empty());
    assert!(packet.answer.answers.is_empty());
    assert!(packet.authority.records.is_empty());
    assert!(packet.additional.records.is_empty());
}

#[test]
fn a_request_without_a_question_is_refused() {
    // id=0x0A0B, qdcount=0, no question octets.
    let mut buffer = BytePacketBuffer::new();
    put(&mut buffer, 0, b"\x0a\x0b\x01\x00\x00\x00\x00\x00\x00\x00\x00\x00");
    let request = read_request(&mut buffer);
    let mut reply = match request {
        Request::Refuse(reply) => reply,
        other => panic!("unexpected {:?}", other),
    };
    assert_eq!(reply.header.id, 0x0A0B);
    assert_eq!(reply.header.qr, QRFlag::Response);
    assert_eq!(reply.header.rcode, RCode::FormErr);
    assert!(reply.question.questions.is_empty());
    assert!(reply.answer.answers.is_empty());
    assert!(reply.authority.records.is_empty());
    assert!(reply.additional.records.is_empty());
    let mut out = BytePacketBuffer::new();
    assert_eq!(reply.write(&mut out), Ok(()));
    assert_eq!(out.pos(), 12);
    // QR=1 RD=1 | RA=1 CD=1 rcode=1.
    assert_eq!(&out.buf[0..12], b"\x0a\x0b\x81\x91\x00\x00\x00\x00\x00\x00\x00\x00");
}

#[test]
fn a_request_that_cannot_be_read_is_refused_with_its_first_octets() {
    let mut buffer = BytePacketBuffer::new();
    // One question is counted, and its name is a pointer to itself.
    put(&mut buffer, 0, b"\xca\xfe\x01\x00\x00\x01\x00\x00\x00\x00\x00\x00\xc0\x0c");
    assert_eq!(DNSPacket::from_buffer(&mut buffer), Err(BytePacketBufferError::ExceededJumpLimit));
    assert_eq!(read_request(&mut buffer), Request::Refuse(refusal(0xCAFE)));
    assert_eq!(buffer.pos(), 0);
    // An opcode that is not assigned.
    put(&mut buffer, 0, b"\xca\xff\x78\x00");
    assert_eq!(read_request(&mut buffer), Request::Refuse(refusal(0xCAFF)));
    // No octets at all under the cursor.
    buffer.pos = 511;
    assert_eq!(read_request(&mut buffer), Request::Refuse(refusal(0)));
    assert_eq!(buffer.pos(), 511);
}

#[test]
fn a_request_is_resolved_for_its_first_question() {
    let mut query = build_query(0xBEEF, "Example.COM", QRType::A, QRClass::IN);
    query.question.add_question(DNSQuestion::new("second.example".to_string(), QRType::MX, QRClass::IN));
    let mut buffer = BytePacketBuffer::new();
    assert_eq!(query.write(&mut buffer), Ok(()));
    let end = buffer.pos();
    buffer.pos = 0;
    assert_eq!(
        read_request(&mut buffer),
        Request::Resolve { id: 0xBEEF, question: DNSQuestion::new("example.com".to_string(), QRType::A, QRClass::IN) }
    );
    assert_eq!(buffer.pos(), end);
}

#[test]
fn the_answer_mirrors_the_result() {
    let question = DNSQuestion::new("example.com".to_string(), QRType::A, QRClass::IN);
    let mut result = answered("example.com", 0x5DB8_D822);
    result.header.id = 0x7777;
    result.header.aa = dns_resolver::message::header::AAFlag::Authoritative;
    result.question.add_question(DNSQuestion::new("upstream.question".to_string(), QRType::A, QRClass::IN));
    result.authority.add_record(ns("com", "n.example"));
    result.additional.add_record(a("n.example", 9));
    let mut reply = answer(0xBEEF, question, Ok(result));
    assert_eq!(
        reply.header,
        DNSHeaderSection {
            id: 0xBEEF,
            qr: QRFlag::Response,
            rd: RDFlag::Desired,
            ra: RAFlag::Available,
            rcode: RCode::NoError,
            ..DNSHeaderSection::new()
        }
    );
    assert_eq!(reply.question.questions, vec![DNSQuestion::new("example.com".to_string(), QRType::A, QRClass::IN)]);
    assert_eq!(reply.answer.answers, vec![a("example.com", 0x5DB8_D822)]);
    assert_eq!(reply.authority.records, vec![ns("com", "n.example")]);
    assert_eq!(reply.additional.records, vec![a("n.example", 9)]);
    let mut out = BytePacketBuffer::new();
    assert_eq!(reply.write(&mut out), Ok(()));
    assert_eq!(&out.buf[0..12], b"\xbe\xef\x81\x90\x00\x01\x00\x01\x00\x01\x00\x01");
    assert_eq!(reply.header.cd, CDFlag::Disabled);
}

#[test]
fn nxdomain_passes_through_to_the_client() {
    let question = DNSQuestion::new("nope.example".to_string(), QRType::A, QRClass::IN);
    let r = Resolution::start("nope.example".to_string(), QRType::A, BOOTSTRAP_SERVER);
    let result = match r.on_response(response(RCode::NXDomain)) {
        Step::Done(result) => result,
        other => panic!("unexpected {:?}", other),
    };
    let reply = answer(5, question, Ok(result));
    assert_eq!(reply.header.rcode, RCode::NXDomain);
    assert_eq!(reply.header.id, 5);
    assert_eq!(reply.header.qr, QRFlag::Response);
    assert!(reply.answer.answers.is_empty());
    assert_eq!(reply.question.questions, vec![DNSQuestion::new("nope.example".to_string(), QRType::A, QRClass::IN)]);
}

#[test]
fn a_failed_resolution_is_a_server_failure() {
    for e in [ResolveError::IterationCapExceeded, ResolveError::Transport, ResolveError::Codec(BytePacketBufferError::UnexpectedEof)] {
        let question = DNSQuestion::new("example.com".to_string(), QRType::A, QRClass::IN);
        let reply = answer(0xBEEF, question, Err(e));
        assert_eq!(
            reply.header,
            DNSHeaderSection {
                id: 0xBEEF,
                qr: QRFlag::Response,
                rd: RDFlag::Desired,
                ra: RAFlag::Available,
                rcode: RCode::ServFail,
                ..DNSHeaderSection::new()
            }
        );
        assert!(reply.question.questions.is_empty());
        assert!(reply.answer.answers.is_empty());
        assert!(reply.authority.records.is_empty());
        assert!(reply.additional.records.is_empty());
    }
}

#[test]
fn a_client_query_is_answered_end_to_end() {
    // The client asks for example.com A IN with id 0xBEEF and without recursion.
    let mut datagram = BytePacketBuffer::new();
    put(&mut datagram, 0, b"\xbe\xef\x00\x00\x00\x01\x00\x00\x00\x00\x00\x00\x07example\x03com\x00\x00\x01\x00\x01");
    let (id, question) = match read_request(&mut datagram) {
        Request::Resolve { id, question } => (id, question),
        other => panic!("unexpected {:?}", other),
    };
    assert_eq!(id, 0xBEEF);
    let resolution = Resolution::start(question.qname.clone(), question.qtype, BOOTSTRAP_SERVER);
    // The query that goes upstream.
    let mut query = build_query(generate_packet_id(42), &resolution.current.qname, resolution.current.qtype, QRClass::IN);
    let mut sent = BytePacketBuffer::new();
    assert_eq!(query.write(&mut sent), Ok(()));
    assert_eq!(sent.buf[2] & 0x01, 0);
    assert_eq!(resolution.current.server, BOOTSTRAP_SERVER);
    // The upstream answer, as octets.
    let mut received = BytePacketBuffer::new();
    put(
        &mut received,
        0,
        b"\xbe\xef\x80\x00\x00\x01\x00\x01\x00\x00\x00\x00\
          \x07example\x03com\x00\x00\x01\x00\x01\
          \xc0\x0c\x00\x01\x00\x01\x00\x00\x0e\x10\x00\x04\x5d\xb8\xd8\x22",
    );
    let upstream = DNSPacket::from_buffer(&mut received).unwrap();
    let result = match resolution.on_response(upstream) {
        Step::Done(result) => result,
        other => panic!("unexpected {:?}", other),
    };
    let mut reply = answer(id, question, Ok(result));
    let mut out = BytePacketBuffer::new();
    assert_eq!(reply.write(&mut out), Ok(()));
    out.pos = 0;
    let seen = DNSPacket::from_buffer(&mut out).unwrap();
    assert_eq!(seen.header.id, 0xBEEF);
    assert_eq!(seen.header.qr, QRFlag::Response);
    assert_eq!(seen.header.ra, RAFlag::Available);
    assert_eq!(seen.header.rcode, RCode::NoError);
    assert_eq!(seen.question.questions, vec![DNSQuestion::new("example.com".to_string(), QRType::A, QRClass::IN)]);
    assert_eq!(seen.answer.answers, vec![a("example.com", u32::from_be_bytes([93, 184, 216, 34]))]);
}
