use dns_resolver::message::byte_packet_buffer::{BytePacketBuffer, BytePacketBufferError};
use dns_resolver::message::name::{
    is_writable, label_to_text, lower_bytes, lower_labels, same_bytes, split_labels, to_lower,
    within,
};

fn put(buffer: &mut BytePacketBuffer, at: usize, bytes: &[u8]) {
    for (i, b) in bytes.iter().enumerate() {
        buffer.buf[at + i] = *b;
    }
}

#[test]
fn name_compression_follows_one_pointer() {
    let mut buffer = BytePacketBuffer::new();
    put(&mut buffer, 12, b"\x03ns1\x07example\x03com\x00");
    put(&mut buffer, 45, &[0xC0, 0x0C]);
    buffer.pos = 45;
    let mut name = String::new();
    assert_eq!(buffer.read_qname(&mut name), Ok(()));
    assert_eq!(name, "ns1.example.com");
    assert_eq!(buffer.pos(), 47);
}

#[test]
fn pointer_loop_is_rejected() {
    let mut buffer = BytePacketBuffer::new();
    put(&mut buffer, 12, &[0xC0, 0x0C]);
    buffer.pos = 12;
    let mut name = String::new();
    assert_eq!(buffer.read_qname(&mut name), Err(BytePacketBufferError::ExceededJumpLimit));
    assert!(buffer.pos() <= 14);
    assert_eq!(buffer.pos(), 12);
    assert_eq!(name, "");
}

#[test]
fn labels_before_a_pointer_are_kept() {
    let mut buffer = BytePacketBuffer::new();
    put(&mut buffer, 20, b"\x07example\x03com\x00");
    put(&mut buffer, 40, b"\x03www\xC0\x14");
    buffer.pos = 40;
    let mut name = String::from("x=");
    assert_eq!(buffer.read_qname(&mut name), Ok(()));
    assert_eq!(name, "x=www.example.com");
    assert_eq!(buffer.pos(), 46);
}

#[test]
fn five_pointers_are_followed_and_six_are_not() {
    // A chain of pointers: the one at 2 * k leads to 2 * (k + 1); a name stands at 100.
    let mut buffer = BytePacketBuffer::new();
    put(&mut buffer, 100, b"\x01a\x00");
    for k in 0..6usize {
        let target = if k == 5 { 100 } else { 2 * (k + 1) };
        put(&mut buffer, 2 * k, &[0xC0, target as u8]);
    }
    // From offset 2 on, five pointers lie on the way.
    buffer.pos = 2;
    let mut name = String::new();
    assert_eq!(buffer.read_qname(&mut name), Ok(()));
    assert_eq!(name, "a");
    assert_eq!(buffer.pos(), 4);
    // From offset 0 on, six do.
    buffer.pos = 0;
    let mut other = String::new();
    assert_eq!(buffer.read_qname(&mut other), Err(BytePacketBufferError::ExceededJumpLimit));
    assert_eq!(other, "");
    assert_eq!(buffer.pos(), 0);
}

#[test]
fn pointer_outside_the_buffer_is_malformed() {
    let mut buffer = BytePacketBuffer::new();
    // Offset 0x0200 = 512 is the first one past the end.
    put(&mut buffer, 0, &[0xC2, 0x00]);
    let mut name = String::new();
    assert_eq!(buffer.read_qname(&mut name), Err(BytePacketBufferError::MalformedPointer));
    assert_eq!(buffer.pos(), 0);
    // Offset 0x01FF = 511 is inside; the octet there is zero and ends the name.
    put(&mut buffer, 0, &[0xC1, 0xFF]);
    assert_eq!(buffer.read_qname(&mut name), Ok(()));
    assert_eq!(name, "");
    assert_eq!(buffer.pos(), 2);
    // The largest offset that a pointer can hold.
    put(&mut buffer, 0, &[0xFF, 0xFF]);
    buffer.pos = 0;
    assert_eq!(buffer.read_qname(&mut name), Err(BytePacketBufferError::MalformedPointer));
}

#[test]
fn names_that_run_off_the_end_are_cut_short() {
    let mut buffer = BytePacketBuffer::new();
    // A label that claims more octets than are left.
    put(&mut buffer, 508, &[0x05, b'a', b'b', b'c']);
    buffer.pos = 508;
    let mut name = String::new();
    assert_eq!(buffer.read_qname(&mut name), Err(BytePacketBufferError::UnexpectedEof));
    assert_eq!(name, "");
    // A label that ends with the buffer, with no room for the closing octet.
    put(&mut buffer, 508, &[0x03, b'a', b'b', b'c']);
    assert_eq!(buffer.read_qname(&mut name), Err(BytePacketBufferError::UnexpectedEof));
    // A pointer whose second octet is missing.
    put(&mut buffer, 511, &[0xC0]);
    buffer.pos = 511;
    assert_eq!(buffer.read_qname(&mut name), Err(BytePacketBufferError::UnexpectedEof));
    assert_eq!(buffer.pos(), 511);
}

#[test]
fn name_ends_with_the_buffer() {
    let mut buffer = BytePacketBuffer::new();
    put(&mut buffer, 507, b"\x03abc\x00");
    buffer.pos = 507;
    let mut name = String::new();
    assert_eq!(buffer.read_qname(&mut name), Ok(()));
    assert_eq!(name, "abc");
    assert_eq!(buffer.pos(), 512);
}

#[test]
fn long_length_octets_below_the_pointer_tag_are_labels() {
    let mut buffer = BytePacketBuffer::new();
    buffer.buf[0] = 70;
    for i in 0..70 {
        buffer.buf[1 + i] = b'x';
    }
    let mut name = String::new();
    assert_eq!(buffer.read_qname(&mut name), Ok(()));
    assert_eq!(name, "x".repeat(70));
    assert_eq!(buffer.pos(), 72);
}

#[test]
fn name_round_trip_lowercases() {
    let mut buffer = BytePacketBuffer::new();
    assert_eq!(buffer.write_qname("WWW.Example-1.COM"), Ok(()));
    assert_eq!(buffer.pos(), 19);
    assert_eq!(&buffer.buf[0..19], b"\x03WWW\x09Example-1\x03COM\x00");
    buffer.pos = 0;
    let mut name = String::new();
    assert_eq!(buffer.read_qname(&mut name), Ok(()));
    assert_eq!(name, "www.example-1.com");
    assert_eq!(buffer.pos(), 19);
}

#[test]
fn longest_name_round_trips() {
    // Four labels of 63, 63, 63 and 61 octets: 255 octets on the wire.
    let labels = ["a".repeat(63), "B".repeat(63), "c-9".repeat(21), "d".repeat(61)];
    let name = labels.join(".");
    let mut buffer = BytePacketBuffer::new();
    buffer.pos = 100;
    assert_eq!(buffer.write_qname(&name), Ok(()));
    assert_eq!(buffer.pos(), 355);
    buffer.pos = 100;
    let mut back = String::new();
    assert_eq!(buffer.read_qname(&mut back), Ok(()));
    assert_eq!(back, name.to_ascii_lowercase());
    assert_eq!(buffer.pos(), 355);
}

#[test]
fn empty_labels_are_left_out() {
    let mut buffer = BytePacketBuffer::new();
    assert_eq!(buffer.write_qname("example.com."), Ok(()));
    assert_eq!(&buffer.buf[0..13], b"\x07example\x03com\x00");
    assert_eq!(buffer.pos(), 13);
    let mut other = BytePacketBuffer::new();
    assert_eq!(other.write_qname("..a...b."), Ok(()));
    assert_eq!(&other.buf[0..5], b"\x01a\x01b\x00");
    assert_eq!(other.pos(), 5);
    other.pos = 0;
    let mut back = String::new();
    assert_eq!(other.read_qname(&mut back), Ok(()));
    assert_eq!(back, "a.b");
}

#[test]
fn the_root_name_is_a_single_zero_octet() {
    let mut buffer = BytePacketBuffer::new();
    buffer.buf[0] = 0xFF;
    assert_eq!(buffer.write_qname(""), Ok(()));
    assert_eq!(buffer.pos(), 1);
    assert_eq!(buffer.buf[0], 0);
    assert_eq!(buffer.write_qname("."), Ok(()));
    assert_eq!(buffer.pos(), 2);
    buffer.pos = 0;
    let mut name = String::new();
    assert_eq!(buffer.read_qname(&mut name), Ok(()));
    assert_eq!(name, "");
    assert_eq!(buffer.pos(), 1);
}

#[test]
fn label_of_64_octets_is_rejected_on_write() {
    let mut buffer = BytePacketBuffer::new();
    buffer.pos = 5;
    let name = format!("ok.{}.com", "x".repeat(64));
    assert_eq!(buffer.write_qname(&name), Err(BytePacketBufferError::InvalidDomainNameFormat));
    assert_eq!(buffer.pos(), 5);
    assert!(buffer.buf.iter().all(|b| *b == 0));
    let fine = format!("ok.{}.com", "x".repeat(63));
    assert_eq!(buffer.write_qname(&fine), Ok(()));
    assert_eq!(buffer.pos(), 5 + 3 + 64 + 4 + 1);
    assert!(!is_writable(&name));
    assert!(is_writable(&fine));
    assert!(is_writable(""));
}

#[test]
fn a_bad_label_is_reported_before_a_lack_of_room() {
    let mut buffer = BytePacketBuffer::new();
    buffer.pos = 511;
    let name = format!("a.{}", "x".repeat(64));
    assert_eq!(buffer.write_qname(&name), Err(BytePacketBufferError::InvalidDomainNameFormat));
    assert_eq!(buffer.write_qname("a"), Err(BytePacketBufferError::Overflow));
    assert_eq!(buffer.pos(), 511);
    assert_eq!(buffer.write_qname(""), Ok(()));
    assert_eq!(buffer.pos(), 512);
}

#[test]
fn a_name_that_does_not_fit_is_not_written() {
    let mut buffer = BytePacketBuffer::new();
    buffer.pos = 500;
    assert_eq!(buffer.write_qname("example.com"), Err(BytePacketBufferError::Overflow));
    assert_eq!(buffer.pos(), 500);
    assert!(buffer.buf.iter().all(|b| *b == 0));
    buffer.pos = 499;
    assert_eq!(buffer.write_qname("example.com"), Ok(()));
    assert_eq!(buffer.pos(), 512);
}

#[test]
fn labels_are_split_at_dots() {
    assert_eq!(split_labels(b"www.example.com"), vec![b"www".to_vec(), b"example".to_vec(), b"com".to_vec()]);
    assert_eq!(split_labels(b""), Vec::<Vec<u8>>::new());
    assert_eq!(split_labels(b"..."), Vec::<Vec<u8>>::new());
    assert_eq!(split_labels(b".a..b"), vec![b"a".to_vec(), b"b".to_vec()]);
    assert_eq!(split_labels(b"single"), vec![b"single".to_vec()]);
    assert_eq!(lower_labels("WWW.Example.COM."), vec![b"www".to_vec(), b"example".to_vec(), b"com".to_vec()]);
}

#[test]
fn lower_case_touches_ascii_capitals_only() {
    assert_eq!(to_lower(b'A'), b'a');
    assert_eq!(to_lower(b'Z'), b'z');
    assert_eq!(to_lower(b'@'), b'@');
    assert_eq!(to_lower(b'['), b'[');
    assert_eq!(to_lower(b'a'), b'a');
    assert_eq!(to_lower(0xC9), 0xC9);
    assert_eq!(lower_bytes(b"Hello-World.9"), b"hello-world.9".to_vec());
    assert!(same_bytes(b"abc", b"abc"));
    assert!(!same_bytes(b"abc", b"abd"));
    assert!(!same_bytes(b"abc", b"ab"));
    assert!(same_bytes(b"", b""));
}

#[test]
fn label_text_reads_utf8_and_marks_what_is_not() {
    assert_eq!(label_to_text(b"MiXed-09"), "mixed-09");
    // Valid UTF-8 is kept: "é" is C3 A9.
    assert_eq!(label_to_text(&[b'c', b'a', b'f', 0xC3, 0xA9]), "caf\u{e9}");
    // A lone continuation octet is not valid UTF-8.
    assert_eq!(label_to_text(&[b'a', 0x80, b'B']), "a\u{fffd}b");
    assert_eq!(label_to_text(&[]), "");
}

#[test]
fn a_label_that_is_not_ascii_is_read() {
    let mut buffer = BytePacketBuffer::new();
    put(&mut buffer, 0, &[0x02, 0xC3, 0xA9, 0x01, 0xFF, 0x00]);
    let mut name = String::new();
    assert_eq!(buffer.read_qname(&mut name), Ok(()));
    assert_eq!(name, "\u{e9}.\u{fffd}");
    assert_eq!(buffer.pos(), 6);
}

#[test]
fn parent_domains_match_by_whole_labels() {
    assert!(within("www.example.org", "example.org"));
    assert!(within("www.example.org", "org"));
    assert!(within("www.example.org", "www.example.org"));
    assert!(within("www.example.org", ""));
    assert!(within("www.example.org", "."));
    assert!(within("WWW.Example.ORG", "example.org."));
    assert!(within("www.example.org", "EXAMPLE.Org"));
    // A match of letters that is no match of labels.
    assert!(!within("www.example.org", "ample.org"));
    assert!(!within("www.example.org", "xample.org"));
    assert!(!within("www.example.org", "rg"));
    assert!(!within("example.org", "www.example.org"));
    assert!(!within("www.example.org", "example.com"));
    assert!(!within("www.example.org", "www.example"));
    assert!(!within("", "org"));
    assert!(within("", ""));
}
