//! What is written is read back: for names, for questions, for records and
//! for whole messages.

use super::byte_packet_buffer::{
    be_bytes, carries, lemma_be_bytes_len, lemma_be_value_of_bytes, lemma_pow256_values,
    BUFFER_SIZE, BytePacketBuffer, BytePacketBufferError,
};
use super::name::{
    first_dot, label_text, labels_of, labels_wire, lemma_first_dot_bounds, lower, lower_all,
    name_at, name_bytes, name_ok, name_text, name_wire, DOT, MAX_JUMPS, MAX_LABEL, POINTER_TAG,
    NameWalk,
};
use super::header::{
    flags_high, flags_low, header_at, header_wire, HEADER_SIZE, AAFlag, ADFlag, CDFlag,
    DNSHeaderSection, OpCode, QRFlag, RAFlag, RCode, RDFlag, TCFlag,
};
use super::packet::{
    counted, lemma_header_wire_len, lemma_questions_wire_long, lemma_records_wire_long, packet_at,
    packet_problem, packet_wire, questions_at, questions_problem, questions_wire, records_at,
    records_problem, records_wire, PacketModel,
};
use super::records::{
    caa_at, lemma_record_wire_len, mx_at, rdata_at, rdata_problem, rdata_wire, record_at,
    record_problem, record_wire, soa_at, srv_at, text_at, PreambleModel, RData, RecordModel,
};
use super::{
    question_at, question_problem, question_wire, u128_at, u16_at, u32_at, QRType, QuestionModel,
};
use vstd::prelude::*;
use vstd::utf8::*;

verus! {

/// `wire` stands at `p` in `buf`.
#[verifier::opaque]
pub open spec fn holds_at(buf: Seq<u8>, p: int, wire: Seq<u8>) -> bool {
    &&& 0 <= p
    &&& p + wire.len() <= buf.len()
    &&& buf.subrange(p, p + wire.len()) == wire
}

/// Where `a + b` stands, `a` stands, and `b` behind it.
pub proof fn lemma_holds_split(buf: Seq<u8>, p: int, a: Seq<u8>, b: Seq<u8>)
    requires
        holds_at(buf, p, a + b),
    ensures
        holds_at(buf, p, a),
        holds_at(buf, p + a.len(), b),
{
    reveal(holds_at);
    let whole = buf.subrange(p, p + (a + b).len());
    assert(buf.subrange(p, p + a.len()) =~= whole.subrange(0, a.len() as int));
    assert(whole.subrange(0, a.len() as int) =~= a);
    assert(buf.subrange(p + a.len(), p + a.len() + b.len()) =~= whole.subrange(
        a.len() as int,
        (a + b).len() as int,
    ));
    assert(whole.subrange(a.len() as int, (a + b).len() as int) =~= b);
}

/// The octets of `s` as characters.
pub open spec fn as_text(s: Seq<u8>) -> Seq<char> {
    Seq::new(s.len(), |i: int| s[i] as char)
}

/// Every octet of `s` is an ASCII character.
pub open spec fn is_ascii_bytes(s: Seq<u8>) -> bool {
    forall|i: int| 0 <= i < s.len() ==> #[trigger] s[i] < 0x80
}

/// The ASCII lower-case form of a character.
pub open spec fn lower_char(c: char) -> char {
    if 'A' <= c <= 'Z' {
        ((c as u8) + 0x20) as char
    } else {
        c
    }
}

/// The ASCII lower-case form of a text.
pub open spec fn lower_text(name: Seq<char>) -> Seq<char> {
    Seq::new(name.len(), |i: int| lower_char(name[i]))
}

/// Labels joined by dots.
pub open spec fn dotted(labels: Seq<Seq<u8>>) -> Seq<u8>
    decreases labels.len(),
{
    if labels.len() == 0 {
        Seq::empty()
    } else if labels.len() == 1 {
        labels[0]
    } else {
        dotted(labels.drop_last()) + seq![DOT] + labels.last()
    }
}

/// A letter, a digit, a hyphen or a dot.
pub open spec fn is_name_char(c: char) -> bool {
    ('a' <= c <= 'z') || ('A' <= c <= 'Z') || ('0' <= c <= '9') || c == '-' || c == '.'
}

/// A name of letters, digits and hyphens in labels that dots separate, none
/// of them empty: no dot stands first or last, and no two stand side by side.
pub open spec fn is_hostname(name: Seq<char>) -> bool {
    &&& forall|i: int| 0 <= i < name.len() ==> is_name_char(#[trigger] name[i])
    &&& name.len() > 0 ==> name[0] != '.' && name.last() != '.'
    &&& forall|i: int|
        0 <= i < name.len() - 1 ==> !(#[trigger] name[i] == '.' && name[i + 1] == '.')
}

/// No dot stands first or last in `s`, and no two stand side by side.
pub open spec fn no_empty_label(s: Seq<u8>) -> bool {
    &&& s.len() > 0 ==> s[0] != DOT && s.last() != DOT
    &&& forall|i: int| 0 <= i < s.len() - 1 ==> !(#[trigger] s[i] == DOT && s[i + 1] == DOT)
}

/// ASCII text is encoded as its characters, one octet each.
pub proof fn lemma_ascii_bytes(name: Seq<char>)
    requires
        is_ascii_chars(name),
    ensures
        name_bytes(name) == Seq::new(name.len(), |i: int| name[i] as u8),
        is_ascii_bytes(name_bytes(name)),
        as_text(name_bytes(name)) == name,
{
    is_ascii_chars_encode_utf8(name);
    assert(name_bytes(name) =~= Seq::new(name.len(), |i: int| name[i] as u8));
    assert(as_text(name_bytes(name)) =~= name);
}

/// ASCII octets are valid UTF-8 for their characters.
pub proof fn lemma_ascii_text(s: Seq<u8>)
    requires
        is_ascii_bytes(s),
    ensures
        valid_utf8(s),
        decode_utf8(s) == as_text(s),
{
    let chars = as_text(s);
    assert(is_ascii_chars(chars));
    is_ascii_chars_encode_utf8(chars);
    assert(encode_utf8(chars) =~= s);
    encode_utf8_valid_utf8(chars);
    encode_utf8_decode_utf8(chars);
}

/// The text of an ASCII label is its lower-case characters.
pub proof fn lemma_ascii_label_text(label: Seq<u8>)
    requires
        is_ascii_bytes(label),
    ensures
        label_text(label) == as_text(lower_all(label)),
{
    assert(is_ascii_bytes(lower_all(label)));
    lemma_ascii_text(lower_all(label));
}

/// The labels of a name are not empty and hold no dot, and labels of ASCII
/// names are ASCII.
pub proof fn lemma_labels_plain(s: Seq<u8>)
    ensures
        forall|i: int| 0 <= i < labels_of(s).len() ==> (#[trigger] labels_of(s)[i]).len() >= 1,
        is_ascii_bytes(s) ==> forall|i: int|
            0 <= i < labels_of(s).len() ==> is_ascii_bytes(#[trigger] labels_of(s)[i]),
    decreases s.len(),
{
    if s.len() > 0 {
        let k = first_dot(s);
        lemma_first_dot_bounds(s);
        if k < s.len() {
            lemma_labels_plain(s.skip((k + 1) as int));
        }
        let rest = if k < s.len() {
            labels_of(s.skip((k + 1) as int))
        } else {
            Seq::<Seq<u8>>::empty()
        };
        assert forall|i: int| 0 <= i < labels_of(s).len() implies (#[trigger] labels_of(
            s,
        )[i]).len() >= 1 by {
            if k > 0 && i > 0 {
                assert(labels_of(s)[i] == rest[i - 1]);
            }
        }
        if is_ascii_bytes(s) {
            if k < s.len() {
                assert(is_ascii_bytes(s.skip((k + 1) as int)));
            }
            assert forall|i: int| 0 <= i < labels_of(s).len() implies is_ascii_bytes(
                #[trigger] labels_of(s)[i],
            ) by {
                if k > 0 && i > 0 {
                    assert(labels_of(s)[i] == rest[i - 1]);
                } else if k > 0 {
                    assert(labels_of(s)[0] == s.take(k as int));
                } else {
                    assert(labels_of(s)[i] == rest[i]);
                }
            }
        }
    }
}

/// Labels joined by dots, from the first label on.
pub proof fn lemma_dotted_front(head: Seq<u8>, tail: Seq<Seq<u8>>)
    ensures
        dotted(seq![head] + tail) == if tail.len() == 0 {
            head
        } else {
            head + seq![DOT] + dotted(tail)
        },
    decreases tail.len(),
{
    let all = seq![head] + tail;
    if tail.len() == 0 {
        assert(all =~= seq![head]);
    } else if tail.len() == 1 {
        assert(all.drop_last() =~= seq![head]);
        assert(tail[0] == tail.last());
        assert(dotted(seq![head]) == head);
    } else {
        assert(all.drop_last() =~= seq![head] + tail.drop_last());
        lemma_dotted_front(head, tail.drop_last());
        assert(dotted(all) =~= head + seq![DOT] + dotted(tail));
    }
}

/// A name without empty labels is its labels joined by dots.
pub proof fn lemma_dotted_labels(s: Seq<u8>)
    requires
        no_empty_label(s),
    ensures
        dotted(labels_of(s)) == s,
    decreases s.len(),
{
    if s.len() > 0 {
        let k = first_dot(s);
        lemma_first_dot_bounds(s);
        if k == s.len() {
            assert(s.take(k as int) =~= s);
            assert(labels_of(s) =~= seq![s]);
        } else {
            let rest = s.skip((k + 1) as int);
            assert(k < s.len() - 1);
            assert(rest[0] == s[(k + 1) as int]);
            assert(rest.last() == s.last());
            assert forall|i: int| 0 <= i < rest.len() - 1 implies !(#[trigger] rest[i] == DOT
                && rest[i + 1] == DOT) by {
                assert(rest[i] == s[(k + 1 + i) as int]);
                assert(rest[i + 1] == s[(k + 1 + i + 1) as int]);
            }
            lemma_dotted_labels(rest);
            lemma_dotted_front(s.take(k as int), labels_of(rest));
            lemma_labels_plain(rest);
            assert(labels_of(rest).len() > 0) by {
                if labels_of(rest).len() == 0 {
                    assert(dotted(labels_of(rest)) =~= Seq::<u8>::empty());
                }
            }
            assert(s.take(k as int) + seq![DOT] + rest =~= s);
        }
    }
}

/// The text of ASCII labels is the lower-case text of the labels joined by
/// dots.
pub proof fn lemma_name_text_ascii(labels: Seq<Seq<u8>>)
    requires
        forall|i: int| 0 <= i < labels.len() ==> is_ascii_bytes(#[trigger] labels[i]),
    ensures
        name_text(labels) == as_text(lower_all(dotted(labels))),
    decreases labels.len(),
{
    if labels.len() == 0 {
        assert(name_text(labels) =~= as_text(lower_all(dotted(labels))));
    } else if labels.len() == 1 {
        lemma_ascii_label_text(labels[0]);
    } else {
        let init = labels.drop_last();
        assert forall|i: int| 0 <= i < init.len() implies is_ascii_bytes(#[trigger] init[i]) by {
            assert(init[i] == labels[i]);
        }
        lemma_name_text_ascii(init);
        lemma_ascii_label_text(labels.last());
        assert(seq!['.'] =~= as_text(lower_all(seq![DOT])));
        assert(as_text(lower_all(dotted(init) + seq![DOT] + labels.last())) =~= as_text(
            lower_all(dotted(init)),
        ) + as_text(lower_all(seq![DOT])) + as_text(lower_all(labels.last())));
    }
}

/// ASCII labels joined by dots are ASCII.
pub proof fn lemma_dotted_ascii(labels: Seq<Seq<u8>>)
    requires
        forall|i: int| 0 <= i < labels.len() ==> is_ascii_bytes(#[trigger] labels[i]),
    ensures
        is_ascii_bytes(dotted(labels)),
    decreases labels.len(),
{
    if labels.len() > 1 {
        let init = labels.drop_last();
        assert forall|i: int| 0 <= i < init.len() implies is_ascii_bytes(#[trigger] init[i]) by {
            assert(init[i] == labels[i]);
        }
        lemma_dotted_ascii(init);
        assert(is_ascii_bytes(labels.last()));
    } else if labels.len() == 1 {
        assert(is_ascii_bytes(labels[0]));
    }
}

/// A name whose labels are ASCII on the wire is read as ASCII text without
/// capital letters.
pub proof fn law_ascii_name_read_lowercase(labels: Seq<Seq<u8>>)
    requires
        forall|i: int| 0 <= i < labels.len() ==> is_ascii_bytes(#[trigger] labels[i]),
    ensures
        is_ascii_chars(name_text(labels)),
        forall|i: int| 0 <= i < name_text(labels).len() ==> !('A' <= #[trigger] name_text(
            labels,
        )[i] <= 'Z'),
{
    lemma_name_text_ascii(labels);
    lemma_dotted_ascii(labels);
    let joined = dotted(labels);
    let text = name_text(labels);
    assert forall|i: int| 0 <= i < text.len() implies '\0' <= #[trigger] text[i] <= '\u{7f}' && !(
    'A' <= text[i] <= 'Z') by {
        assert(joined[i] < 0x80);
        assert(text[i] == lower(joined[i]) as char);
    }
}

/// The walk over labels written one behind the other and closed by a zero
/// octet meets these labels, follows no pointer, and ends behind the zero
/// octet.
pub proof fn lemma_walk_written(buf: Seq<u8>, p: int, labels: Seq<Seq<u8>>, jumps: nat)
    requires
        holds_at(buf, p, labels_wire(labels).push(0u8)),
        forall|i: int| 0 <= i < labels.len() ==> 1 <= (#[trigger] labels[i]).len() <= MAX_LABEL,
    ensures
        name_at(buf, p, jumps) == Ok::<NameWalk, BytePacketBufferError>(
            NameWalk { labels, end: p + labels_wire(labels).len() + 1 },
        ),
    decreases labels.len(),
{
    reveal(holds_at);
    let wire = labels_wire(labels).push(0u8);
    if labels.len() == 0 {
        assert(buf[p] == buf.subrange(p, p + wire.len())[0]);
        assert(labels =~= Seq::<Seq<u8>>::empty());
    } else {
        let head = seq![labels[0].len() as u8] + labels[0];
        let rest = labels.drop_first();
        let tail = labels_wire(rest).push(0u8);
        assert(wire =~= head + tail);
        lemma_holds_split(buf, p, head, tail);
        assert(buf[p] == buf.subrange(p, p + head.len())[0]);
        assert(buf[p] == labels[0].len());
        let next = p + 1 + labels[0].len();
        assert(buf.subrange(p + 1, next) =~= buf.subrange(p, p + head.len()).subrange(
            1,
            head.len() as int,
        ));
        assert(head.subrange(1, head.len() as int) =~= labels[0]);
        assert forall|i: int| 0 <= i < rest.len() implies 1 <= (#[trigger] rest[i]).len()
            <= MAX_LABEL by {
            assert(rest[i] == labels[i + 1]);
        }
        lemma_walk_written(buf, next, rest, jumps);
        assert(seq![labels[0]] + rest =~= labels);
    }
}

/// The text that a name is read back as: the text of its labels, joined by
/// dots.
pub open spec fn read_back_name(name: Seq<char>) -> Seq<char> {
    name_text(labels_of(name_bytes(name)))
}

/// A name that was written is read back where it stands: the walk meets its
/// labels and ends behind it.
pub proof fn lemma_name_written(buf: Seq<u8>, p: int, name: Seq<char>)
    requires
        name_ok(name),
        holds_at(buf, p, name_wire(name_bytes(name))),
    ensures
        name_at(buf, p, 0) == Ok::<NameWalk, BytePacketBufferError>(
            NameWalk {
                labels: labels_of(name_bytes(name)),
                end: p + name_wire(name_bytes(name)).len(),
            },
        ),
{
    reveal(holds_at);
    let labels = labels_of(name_bytes(name));
    lemma_labels_plain(name_bytes(name));
    lemma_walk_written(buf, p, labels, 0);
}

/// A hostname is read back as itself in lower case.
pub proof fn lemma_hostname_read_back(name: Seq<char>)
    requires
        is_hostname(name),
    ensures
        read_back_name(name) == lower_text(name),
{
    assert(is_ascii_chars(name)) by {
        assert forall|i: int| 0 <= i < name.len() implies '\0' <= #[trigger] name[i]
            <= '\u{7f}' by {
            assert(is_name_char(name[i]));
        }
    }
    lemma_ascii_bytes(name);
    let s = name_bytes(name);
    assert(no_empty_label(s)) by {
        assert forall|i: int| 0 <= i < s.len() - 1 implies !(#[trigger] s[i] == DOT && s[i + 1]
            == DOT) by {
            assert(!(name[i] == '.' && name[i + 1] == '.'));
        }
    }
    lemma_labels_plain(s);
    lemma_name_text_ascii(labels_of(s));
    lemma_dotted_labels(s);
    assert(as_text(lower_all(s)) =~= lower_text(name));
}

/// A hostname that was written is read back where it stands, as itself in
/// lower case.
pub proof fn lemma_hostname_written(buf: Seq<u8>, p: int, name: Seq<char>)
    requires
        is_hostname(name),
        name_ok(name),
        holds_at(buf, p, name_wire(name_bytes(name))),
    ensures
        name_at(buf, p, 0) is Ok,
        name_text(name_at(buf, p, 0)->Ok_0.labels) == lower_text(name),
        name_at(buf, p, 0)->Ok_0.end == p + name_wire(name_bytes(name)).len(),
{
    lemma_name_written(buf, p, name);
    lemma_hostname_read_back(name);
}

/// A name that was written is read back as text where it stands.
pub proof fn lemma_text_written(buf: Seq<u8>, p: int, name: Seq<char>)
    requires
        name_ok(name),
        holds_at(buf, p, name_wire(name_bytes(name))),
    ensures
        text_at(buf, p) == Ok::<(Seq<char>, int), BytePacketBufferError>(
            (read_back_name(name), p + name_wire(name_bytes(name)).len()),
        ),
{
    reveal(holds_at);
    lemma_name_written(buf, p, name);
}

/// A number of two octets that was written is read back where it stands.
pub proof fn lemma_u16_written(buf: Seq<u8>, p: int, v: u16)
    requires
        holds_at(buf, p, be_bytes(v as nat, 2)),
    ensures
        u16_at(buf, p) == v,
{
    reveal(holds_at);
    lemma_be_bytes_len(v as nat, 2);
    lemma_pow256_values();
    lemma_be_value_of_bytes(v as nat, 2);
}

/// A number of four octets that was written is read back where it stands.
pub proof fn lemma_u32_written(buf: Seq<u8>, p: int, v: u32)
    requires
        holds_at(buf, p, be_bytes(v as nat, 4)),
    ensures
        u32_at(buf, p) == v,
{
    reveal(holds_at);
    lemma_be_bytes_len(v as nat, 4);
    lemma_pow256_values();
    lemma_be_value_of_bytes(v as nat, 4);
}

/// A number of sixteen octets that was written is read back where it stands.
pub proof fn lemma_u128_written(buf: Seq<u8>, p: int, v: u128)
    requires
        holds_at(buf, p, be_bytes(v as nat, 16)),
    ensures
        u128_at(buf, p) == v,
{
    reveal(holds_at);
    lemma_be_bytes_len(v as nat, 16);
    lemma_pow256_values();
    lemma_be_value_of_bytes(v as nat, 16);
}

/// The flag octets of a header are taken apart into the flags that they were
/// made of.
#[verifier::rlimit(50)]
pub proof fn lemma_flags_read_back(h: DNSHeaderSection)
    ensures
        OpCode::from_code((flags_high(h) / 8) % 16) == Some(h.opcode),
        QRFlag::from_code(flags_high(h) / 128) == Some(h.qr),
        AAFlag::from_code((flags_high(h) / 4) % 2) == Some(h.aa),
        TCFlag::from_code((flags_high(h) / 2) % 2) == Some(h.tc),
        RDFlag::from_code(flags_high(h) % 2) == Some(h.rd),
        RCode::from_code(flags_low(h) % 16) == Some(h.rcode),
        RAFlag::from_code(flags_low(h) / 128) == Some(h.ra),
        (flags_low(h) / 64) % 2 == 0,
        ADFlag::from_code((flags_low(h) / 32) % 2) == Some(h.ad),
        CDFlag::from_code((flags_low(h) / 16) % 2) == Some(h.cd),
{
    let high = h.qr.code() * 128 + h.opcode.code() * 8 + h.aa.code() * 4 + h.tc.code() * 2
        + h.rd.code();
    let low = h.ra.code() * 128 + h.z.code() * 64 + h.ad.code() * 32 + h.cd.code() * 16
        + h.rcode.code();
    assert(h.qr.code() <= 1 && h.aa.code() <= 1 && h.tc.code() <= 1 && h.rd.code() <= 1);
    assert(h.opcode.code() <= 5);
    assert(h.ra.code() <= 1 && h.z.code() == 0 && h.ad.code() <= 1 && h.cd.code() <= 1);
    assert(h.rcode.code() <= 10);
    assert(0 <= high < 256);
    assert(0 <= low < 256);
    assert(high / 128 == h.qr.code() as int);
    assert((high / 8) % 16 == h.opcode.code() as int);
    assert((high / 4) % 2 == h.aa.code() as int);
    assert((high / 2) % 2 == h.tc.code() as int);
    assert(high % 2 == h.rd.code() as int);
    assert(low / 128 == h.ra.code() as int);
    assert((low / 64) % 2 == 0);
    assert((low / 32) % 2 == h.ad.code() as int);
    assert((low / 16) % 2 == h.cd.code() as int);
    assert(low % 16 == h.rcode.code() as int);
}

/// A header that was written is read back where it stands.
pub proof fn lemma_header_written(buf: Seq<u8>, p: int, h: DNSHeaderSection)
    requires
        holds_at(buf, p, header_wire(h)),
    ensures
        header_at(buf, p) == Ok::<DNSHeaderSection, BytePacketBufferError>(h),
{
    reveal(holds_at);
    lemma_header_wire_len(h);
    lemma_flags_read_back(h);
    let bytes = buf.subrange(p, p + HEADER_SIZE);
    let id = be_bytes(h.id as nat, 2);
    let flags = seq![flags_high(h), flags_low(h)];
    let qd = be_bytes(h.qdcount as nat, 2);
    let an = be_bytes(h.ancount as nat, 2);
    let ns = be_bytes(h.nscount as nat, 2);
    let ar = be_bytes(h.arcount as nat, 2);
    lemma_be_bytes_len(h.id as nat, 2);
    lemma_be_bytes_len(h.qdcount as nat, 2);
    lemma_be_bytes_len(h.ancount as nat, 2);
    lemma_be_bytes_len(h.nscount as nat, 2);
    lemma_be_bytes_len(h.arcount as nat, 2);
    lemma_pow256_values();
    lemma_be_value_of_bytes(h.id as nat, 2);
    lemma_be_value_of_bytes(h.qdcount as nat, 2);
    lemma_be_value_of_bytes(h.ancount as nat, 2);
    lemma_be_value_of_bytes(h.nscount as nat, 2);
    lemma_be_value_of_bytes(h.arcount as nat, 2);
    assert(bytes == id + flags + qd + an + ns + ar);
    assert(bytes.subrange(0, 2) =~= id);
    assert(bytes[2] == flags_high(h));
    assert(bytes[3] == flags_low(h));
    assert(bytes.subrange(4, 6) =~= qd);
    assert(bytes.subrange(6, 8) =~= an);
    assert(bytes.subrange(8, 10) =~= ns);
    assert(bytes.subrange(10, 12) =~= ar);
}

/// What a question is read back as: itself, with its name as that is read
/// back.
pub open spec fn read_back_question(q: QuestionModel) -> QuestionModel {
    QuestionModel { qname: read_back_name(q.qname), ..q }
}

/// A question that was written is read back where it stands.
pub proof fn lemma_question_written(buf: Seq<u8>, p: int, q: QuestionModel)
    requires
        question_problem(q) is None,
        q.qtype.wf(),
        holds_at(buf, p, question_wire(q)),
    ensures
        question_at(buf, p) == Ok::<(QuestionModel, int), BytePacketBufferError>(
            (read_back_question(q), p + question_wire(q).len()),
        ),
{
    reveal(holds_at);
    let name = name_wire(name_bytes(q.qname));
    let qtype = be_bytes(q.qtype.code() as nat, 2);
    let qclass = be_bytes(q.qclass.code() as nat, 2);
    lemma_be_bytes_len(q.qtype.code() as nat, 2);
    lemma_be_bytes_len(q.qclass.code() as nat, 2);
    assert(question_wire(q) =~= name + (qtype + qclass));
    lemma_holds_split(buf, p, name, qtype + qclass);
    lemma_holds_split(buf, p + name.len(), qtype, qclass);
    lemma_name_written(buf, p, q.qname);
    lemma_u16_written(buf, p + name.len(), q.qtype.code());
    lemma_u16_written(buf, p + name.len() + 2, q.qclass.code());
}

/// The type of a record is the type of its data, and an unknown type is not
/// the code of a known one.
pub open spec fn agrees(rtype: QRType, data: RData) -> bool {
    &&& rtype.wf()
    &&& match data {
        RData::A(_) => rtype == QRType::A,
        RData::NS(_) => rtype == QRType::NS,
        RData::CNAME(_) => rtype == QRType::CNAME,
        RData::SOA { .. } => rtype == QRType::SOA,
        RData::PTR(_) => rtype == QRType::PTR,
        RData::MX { .. } => rtype == QRType::MX,
        RData::TXT(_) => rtype == QRType::TXT,
        RData::AAAA(_) => rtype == QRType::AAAA,
        RData::SRV { .. } => rtype == QRType::SRV,
        RData::CAA { .. } => rtype == QRType::CAA,
        RData::UNKNOWN => rtype is UNKNOWN,
    }
}

/// What the data of a record is read back as: itself, with its names as
/// they are read back.
pub open spec fn read_back_data(d: RData) -> RData {
    match d {
        RData::NS(host) => RData::NS(read_back_name(host)),
        RData::CNAME(host) => RData::CNAME(read_back_name(host)),
        RData::PTR(host) => RData::PTR(read_back_name(host)),
        RData::MX { preference, exchange } => RData::MX {
            preference,
            exchange: read_back_name(exchange),
        },
        RData::SOA { mname, rname, serial, refresh, retry, expire, minimum } => RData::SOA {
            mname: read_back_name(mname),
            rname: read_back_name(rname),
            serial,
            refresh,
            retry,
            expire,
            minimum,
        },
        RData::SRV { priority, weight, port, target } => RData::SRV {
            priority,
            weight,
            port,
            target: read_back_name(target),
        },
        _ => d,
    }
}

/// What a record is read back as: itself, with its names as they are read
/// back and with the length of its data as measured.
pub open spec fn read_back_record(m: RecordModel) -> RecordModel {
    RecordModel {
        preamble: PreambleModel {
            name: read_back_name(m.preamble.name),
            rdlength: rdata_wire(m.data).len() as u16,
            ..m.preamble
        },
        data: read_back_data(m.data),
    }
}

/// The data of an SOA record that was written is read back where it stands.
pub proof fn lemma_soa_written(buf: Seq<u8>, p: int, d: RData)
    requires
        d is SOA,
        rdata_problem(d) is None,
        holds_at(buf, p, rdata_wire(d)),
    ensures
        soa_at(buf, p) == Ok::<(RData, int), BytePacketBufferError>(
            (read_back_data(d), p + rdata_wire(d).len()),
        ),
{
    reveal(holds_at);
    match d {
        RData::SOA { mname, rname, serial, refresh, retry, expire, minimum } => {
            let w0 = name_wire(name_bytes(mname));
            let w1 = name_wire(name_bytes(rname));
            let w2 = be_bytes(serial as nat, 4);
            let w3 = be_bytes(refresh as nat, 4);
            let w4 = be_bytes(retry as nat, 4);
            let w5 = be_bytes(expire as nat, 4);
            let w6 = be_bytes(minimum as nat, 4);
            lemma_be_bytes_len(serial as nat, 4);
            lemma_be_bytes_len(refresh as nat, 4);
            lemma_be_bytes_len(retry as nat, 4);
            lemma_be_bytes_len(expire as nat, 4);
            lemma_be_bytes_len(minimum as nat, 4);
            assert(rdata_wire(d) =~= w0 + (w1 + (w2 + (w3 + (w4 + (w5 + w6))))));
            lemma_holds_split(buf, p, w0, w1 + (w2 + (w3 + (w4 + (w5 + w6)))));
            let at_rname = p + w0.len();
            lemma_holds_split(buf, at_rname, w1, w2 + (w3 + (w4 + (w5 + w6))));
            let at_serial = at_rname + w1.len();
            lemma_holds_split(buf, at_serial, w2, w3 + (w4 + (w5 + w6)));
            lemma_holds_split(buf, at_serial + 4, w3, w4 + (w5 + w6));
            lemma_holds_split(buf, at_serial + 8, w4, w5 + w6);
            lemma_holds_split(buf, at_serial + 12, w5, w6);
            lemma_text_written(buf, p, mname);
            lemma_text_written(buf, at_rname, rname);
            lemma_u32_written(buf, at_serial, serial);
            lemma_u32_written(buf, at_serial + 4, refresh);
            lemma_u32_written(buf, at_serial + 8, retry);
            lemma_u32_written(buf, at_serial + 12, expire);
            lemma_u32_written(buf, at_serial + 16, minimum);
        },
        _ => {},
    }
}

/// The data of an SRV record that was written is read back where it stands.
pub proof fn lemma_srv_written(buf: Seq<u8>, p: int, d: RData)
    requires
        d is SRV,
        rdata_problem(d) is None,
        holds_at(buf, p, rdata_wire(d)),
    ensures
        srv_at(buf, p) == Ok::<(RData, int), BytePacketBufferError>(
            (read_back_data(d), p + rdata_wire(d).len()),
        ),
{
    reveal(holds_at);
    match d {
        RData::SRV { priority, weight, port, target } => {
            let w0 = be_bytes(priority as nat, 2);
            let w1 = be_bytes(weight as nat, 2);
            let w2 = be_bytes(port as nat, 2);
            let w3 = name_wire(name_bytes(target));
            lemma_be_bytes_len(priority as nat, 2);
            lemma_be_bytes_len(weight as nat, 2);
            lemma_be_bytes_len(port as nat, 2);
            assert(rdata_wire(d) =~= w0 + (w1 + (w2 + w3)));
            lemma_holds_split(buf, p, w0, w1 + (w2 + w3));
            lemma_holds_split(buf, p + 2, w1, w2 + w3);
            lemma_holds_split(buf, p + 4, w2, w3);
            lemma_u16_written(buf, p, priority);
            lemma_u16_written(buf, p + 2, weight);
            lemma_u16_written(buf, p + 4, port);
            lemma_text_written(buf, p + 6, target);
        },
        _ => {},
    }
}

/// The data of an MX record that was written is read back where it stands.
pub proof fn lemma_mx_written(buf: Seq<u8>, p: int, d: RData)
    requires
        d is MX,
        rdata_problem(d) is None,
        holds_at(buf, p, rdata_wire(d)),
    ensures
        mx_at(buf, p) == Ok::<(RData, int), BytePacketBufferError>(
            (read_back_data(d), p + rdata_wire(d).len()),
        ),
{
    reveal(holds_at);
    match d {
        RData::MX { preference, exchange } => {
            let w0 = be_bytes(preference as nat, 2);
            let w1 = name_wire(name_bytes(exchange));
            lemma_be_bytes_len(preference as nat, 2);
            lemma_holds_split(buf, p, w0, w1);
            lemma_u16_written(buf, p, preference);
            lemma_text_written(buf, p + 2, exchange);
        },
        _ => {},
    }
}

/// The data of a CAA record that was written is read back where it stands.
pub proof fn lemma_caa_written(buf: Seq<u8>, p: int, d: RData)
    requires
        d is CAA,
        rdata_problem(d) is None,
        holds_at(buf, p, rdata_wire(d)),
        rdata_wire(d).len() <= u16::MAX,
    ensures
        caa_at(buf, p, rdata_wire(d).len() as u16) == Ok::<(RData, int), BytePacketBufferError>(
            (d, p + rdata_wire(d).len()),
        ),
{
    reveal(holds_at);
    match d {
        RData::CAA { flags, tag, value } => {
            let w0 = seq![flags, tag.len() as u8];
            assert(rdata_wire(d) =~= w0 + (tag + value));
            lemma_holds_split(buf, p, w0, tag + value);
            lemma_holds_split(buf, p + 2, tag, value);
            assert(buf[p] == buf.subrange(p, p + 2)[0]);
            assert(buf[p + 1] == buf.subrange(p, p + 2)[1]);
        },
        _ => {},
    }
}

/// The data of a record that was written is read back where it stands.
pub proof fn lemma_rdata_written(buf: Seq<u8>, p: int, rtype: QRType, d: RData)
    requires
        rdata_problem(d) is None,
        agrees(rtype, d),
        holds_at(buf, p, rdata_wire(d)),
        rdata_wire(d).len() <= u16::MAX,
    ensures
        rdata_at(buf, p, rtype, rdata_wire(d).len() as u16) == Ok::<
            (RData, int),
            BytePacketBufferError,
        >((read_back_data(d), p + rdata_wire(d).len())),
{
    reveal(holds_at);
    match d {
        RData::A(address) => {
            lemma_be_bytes_len(address as nat, 4);
            lemma_u32_written(buf, p, address);
        },
        RData::AAAA(address) => {
            lemma_be_bytes_len(address as nat, 16);
            lemma_u128_written(buf, p, address);
        },
        RData::NS(host) => {
            lemma_text_written(buf, p, host);
        },
        RData::CNAME(host) => {
            lemma_text_written(buf, p, host);
        },
        RData::PTR(host) => {
            lemma_text_written(buf, p, host);
        },
        RData::MX { .. } => {
            lemma_mx_written(buf, p, d);
        },
        RData::SOA { .. } => {
            lemma_soa_written(buf, p, d);
        },
        RData::SRV { .. } => {
            lemma_srv_written(buf, p, d);
        },
        RData::TXT(_) => {},
        RData::CAA { .. } => {
            lemma_caa_written(buf, p, d);
        },
        RData::UNKNOWN => {},
    }
}

/// A record that was written is read back where it stands.
pub proof fn lemma_record_written(buf: Seq<u8>, p: int, m: RecordModel)
    requires
        record_problem(m) is None,
        agrees(m.preamble.rtype, m.data),
        holds_at(buf, p, record_wire(m)),
        buf.len() <= u16::MAX,
    ensures
        record_at(buf, p) == Ok::<(RecordModel, int), BytePacketBufferError>(
            (read_back_record(m), p + record_wire(m).len()),
        ),
{
    reveal(holds_at);
    let pre = m.preamble;
    let data = rdata_wire(m.data);
    let w0 = name_wire(name_bytes(pre.name));
    let w1 = be_bytes(pre.rtype.code() as nat, 2);
    let w2 = be_bytes(pre.class.code() as nat, 2);
    let w3 = be_bytes(pre.ttl as nat, 4);
    let w4 = be_bytes(data.len(), 2);
    lemma_record_wire_len(m);
    lemma_be_bytes_len(pre.rtype.code() as nat, 2);
    lemma_be_bytes_len(pre.class.code() as nat, 2);
    lemma_be_bytes_len(pre.ttl as nat, 4);
    lemma_be_bytes_len(data.len(), 2);
    assert(record_wire(m) =~= w0 + (w1 + (w2 + (w3 + (w4 + data)))));
    lemma_holds_split(buf, p, w0, w1 + (w2 + (w3 + (w4 + data))));
    let q = p + w0.len();
    lemma_holds_split(buf, q, w1, w2 + (w3 + (w4 + data)));
    lemma_holds_split(buf, q + 2, w2, w3 + (w4 + data));
    lemma_holds_split(buf, q + 4, w3, w4 + data);
    lemma_holds_split(buf, q + 8, w4, data);
    lemma_name_written(buf, p, pre.name);
    lemma_u16_written(buf, q, pre.rtype.code());
    lemma_u16_written(buf, q + 2, pre.class.code());
    lemma_u32_written(buf, q + 4, pre.ttl);
    lemma_u16_written(buf, q + 8, data.len() as u16);
    lemma_rdata_written(buf, q + 10, pre.rtype, m.data);
}

/// The types of the questions and records of a message are the types of
/// their data, and no unknown type holds the code of a known one.
pub open spec fn well_typed(m: PacketModel) -> bool {
    &&& forall|i: int| 0 <= i < m.questions.len() ==> (#[trigger] m.questions[i]).qtype.wf()
    &&& records_agree(m.answers)
    &&& records_agree(m.authorities)
    &&& records_agree(m.additionals)
}

/// The type of each record is the type of its data.
pub open spec fn records_agree(records: Seq<RecordModel>) -> bool {
    forall|i: int|
        0 <= i < records.len() ==> agrees(
            (#[trigger] records[i]).preamble.rtype,
            records[i].data,
        )
}

/// Where the type of each record is the type of its data, that holds of the
/// last record and of those before it.
pub proof fn lemma_records_agree_last(records: Seq<RecordModel>)
    requires
        records_agree(records),
        records.len() > 0,
    ensures
        records_agree(records.drop_last()),
        agrees(records.last().preamble.rtype, records.last().data),
{
    let init = records.drop_last();
    assert forall|i: int| 0 <= i < init.len() implies agrees(
        (#[trigger] init[i]).preamble.rtype,
        init[i].data,
    ) by {
        assert(init[i] == records[i]);
    }
    assert(records.last() == records[records.len() - 1]);
}

/// What questions are read back as.
pub open spec fn read_back_questions(questions: Seq<QuestionModel>) -> Seq<QuestionModel> {
    Seq::new(questions.len(), |i: int| read_back_question(questions[i]))
}

/// What records are read back as.
pub open spec fn read_back_records(records: Seq<RecordModel>) -> Seq<RecordModel> {
    Seq::new(records.len(), |i: int| read_back_record(records[i]))
}

/// What a message is read back as: its header with the lengths of the
/// sections as counts, and its questions and records as they are read back.
pub open spec fn read_back(m: PacketModel) -> PacketModel {
    PacketModel {
        header: counted(m),
        questions: read_back_questions(m.questions),
        answers: read_back_records(m.answers),
        authorities: read_back_records(m.authorities),
        additionals: read_back_records(m.additionals),
    }
}

/// Questions that were written are read back where they stand.
pub proof fn lemma_questions_written(buf: Seq<u8>, p: int, questions: Seq<QuestionModel>)
    requires
        questions_problem(questions) is None,
        forall|i: int| 0 <= i < questions.len() ==> (#[trigger] questions[i]).qtype.wf(),
        holds_at(buf, p, questions_wire(questions)),
    ensures
        questions_at(buf, p, questions.len()) == Ok::<
            (Seq<QuestionModel>, int),
            BytePacketBufferError,
        >((read_back_questions(questions), p + questions_wire(questions).len())),
    decreases questions.len(),
{
    if questions.len() == 0 {
        assert(read_back_questions(questions) =~= Seq::<QuestionModel>::empty());
    } else {
        let init = questions.drop_last();
        let last = questions.last();
        lemma_holds_split(buf, p, questions_wire(init), question_wire(last));
        assert forall|i: int| 0 <= i < init.len() implies (#[trigger] init[i]).qtype.wf() by {
            assert(init[i] == questions[i]);
        }
        lemma_questions_written(buf, p, init);
        lemma_question_written(buf, p + questions_wire(init).len(), last);
        assert(read_back_questions(init).push(read_back_question(last)) =~= read_back_questions(
            questions,
        ));
    }
}

/// Records that were written are read back where they stand.
#[verifier::rlimit(50)]
pub proof fn lemma_records_written(buf: Seq<u8>, p: int, records: Seq<RecordModel>)
    requires
        records_problem(records) is None,
        records_agree(records),
        holds_at(buf, p, records_wire(records)),
        buf.len() <= u16::MAX,
    ensures
        records_at(buf, p, records.len()) == Ok::<(Seq<RecordModel>, int), BytePacketBufferError>(
            (read_back_records(records), p + records_wire(records).len()),
        ),
    decreases records.len(),
{
    if records.len() == 0 {
        assert(read_back_records(records) =~= Seq::<RecordModel>::empty());
    } else {
        let init = records.drop_last();
        let last = records.last();
        let mid = p + records_wire(init).len();
        lemma_records_agree_last(records);
        assert(holds_at(buf, p, records_wire(init)) && holds_at(buf, mid, record_wire(last))) by {
            assert(records_wire(records) == records_wire(init) + record_wire(last));
            lemma_holds_split(buf, p, records_wire(init), record_wire(last));
        }
        assert(records_problem(init) is None && record_problem(last) is None);
        lemma_records_written(buf, p, init);
        lemma_record_written(buf, mid, last);
        assert(read_back_records(records) =~= read_back_records(init).push(
            read_back_record(last),
        ));
    }
}

/// Where a message stands, its header and its four sections stand one
/// behind the other.
pub proof fn lemma_sections_stand(buf: Seq<u8>, p: int, m: PacketModel)
    requires
        holds_at(buf, p, packet_wire(m)),
    ensures
        header_wire(counted(m)).len() == HEADER_SIZE,
        holds_at(buf, p, header_wire(counted(m))),
        holds_at(buf, p + HEADER_SIZE, questions_wire(m.questions)),
        holds_at(
            buf,
            p + HEADER_SIZE + questions_wire(m.questions).len(),
            records_wire(m.answers),
        ),
        holds_at(
            buf,
            p + HEADER_SIZE + questions_wire(m.questions).len() + records_wire(m.answers).len(),
            records_wire(m.authorities),
        ),
        holds_at(
            buf,
            p + HEADER_SIZE + questions_wire(m.questions).len() + records_wire(m.answers).len()
                + records_wire(m.authorities).len(),
            records_wire(m.additionals),
        ),
        packet_wire(m).len() == HEADER_SIZE + questions_wire(m.questions).len() + records_wire(
            m.answers,
        ).len() + records_wire(m.authorities).len() + records_wire(m.additionals).len(),
{
    let w0 = header_wire(counted(m));
    let w1 = questions_wire(m.questions);
    let w2 = records_wire(m.answers);
    let w3 = records_wire(m.authorities);
    let w4 = records_wire(m.additionals);
    lemma_header_wire_len(counted(m));
    assert(packet_wire(m) =~= w0 + (w1 + (w2 + (w3 + w4))));
    lemma_holds_split(buf, p, w0, w1 + (w2 + (w3 + w4)));
    let at_questions = p + w0.len();
    lemma_holds_split(buf, at_questions, w1, w2 + (w3 + w4));
    let at_answers = at_questions + w1.len();
    lemma_holds_split(buf, at_answers, w2, w3 + w4);
    let at_authorities = at_answers + w2.len();
    lemma_holds_split(buf, at_authorities, w3, w4);
}

/// The counts of the header that is written are the lengths of the sections
/// of a message that fits.
pub proof fn lemma_counts_fit(buf: Seq<u8>, p: int, m: PacketModel)
    requires
        holds_at(buf, p, packet_wire(m)),
        buf.len() <= u16::MAX,
    ensures
        counted(m).qdcount == m.questions.len(),
        counted(m).ancount == m.answers.len(),
        counted(m).nscount == m.authorities.len(),
        counted(m).arcount == m.additionals.len(),
{
    reveal(holds_at);
    lemma_questions_wire_long(m.questions);
    lemma_records_wire_long(m.answers);
    lemma_records_wire_long(m.authorities);
    lemma_records_wire_long(m.additionals);
}

/// The sections of a message that stand one behind the other are read back
/// where they stand.
pub proof fn lemma_sections_read_back(buf: Seq<u8>, at: int, m: PacketModel)
    requires
        packet_problem(m) is None,
        well_typed(m),
        buf.len() <= u16::MAX,
        holds_at(buf, at, questions_wire(m.questions)),
        holds_at(buf, at + questions_wire(m.questions).len(), records_wire(m.answers)),
        holds_at(
            buf,
            at + questions_wire(m.questions).len() + records_wire(m.answers).len(),
            records_wire(m.authorities),
        ),
        holds_at(
            buf,
            at + questions_wire(m.questions).len() + records_wire(m.answers).len() + records_wire(
                m.authorities,
            ).len(),
            records_wire(m.additionals),
        ),
    ensures
        questions_at(buf, at, m.questions.len()) == Ok::<
            (Seq<QuestionModel>, int),
            BytePacketBufferError,
        >((read_back_questions(m.questions), at + questions_wire(m.questions).len())),
        records_at(buf, at + questions_wire(m.questions).len(), m.answers.len()) == Ok::<
            (Seq<RecordModel>, int),
            BytePacketBufferError,
        >(
            (
                read_back_records(m.answers),
                at + questions_wire(m.questions).len() + records_wire(m.answers).len(),
            ),
        ),
        records_at(
            buf,
            at + questions_wire(m.questions).len() + records_wire(m.answers).len(),
            m.authorities.len(),
        ) == Ok::<(Seq<RecordModel>, int), BytePacketBufferError>(
            (
                read_back_records(m.authorities),
                at + questions_wire(m.questions).len() + records_wire(m.answers).len()
                    + records_wire(m.authorities).len(),
            ),
        ),
        records_at(
            buf,
            at + questions_wire(m.questions).len() + records_wire(m.answers).len() + records_wire(
                m.authorities,
            ).len(),
            m.additionals.len(),
        ) == Ok::<(Seq<RecordModel>, int), BytePacketBufferError>(
            (
                read_back_records(m.additionals),
                at + questions_wire(m.questions).len() + records_wire(m.answers).len()
                    + records_wire(m.authorities).len() + records_wire(m.additionals).len(),
            ),
        ),
{
    let at_answers = at + questions_wire(m.questions).len();
    let at_authorities = at_answers + records_wire(m.answers).len();
    let at_additionals = at_authorities + records_wire(m.authorities).len();
    lemma_questions_written(buf, at, m.questions);
    lemma_records_written(buf, at_answers, m.answers);
    lemma_records_written(buf, at_authorities, m.authorities);
    lemma_records_written(buf, at_additionals, m.additionals);
}

/// A message whose header and sections stand one behind the other is read
/// back where it stands.
pub proof fn lemma_packet_read_back(buf: Seq<u8>, p: int, m: PacketModel)
    requires
        packet_problem(m) is None,
        well_typed(m),
        buf.len() <= u16::MAX,
        counted(m).qdcount == m.questions.len(),
        counted(m).ancount == m.answers.len(),
        counted(m).nscount == m.authorities.len(),
        counted(m).arcount == m.additionals.len(),
        holds_at(buf, p, header_wire(counted(m))),
        holds_at(buf, p + HEADER_SIZE, questions_wire(m.questions)),
        holds_at(
            buf,
            p + HEADER_SIZE + questions_wire(m.questions).len(),
            records_wire(m.answers),
        ),
        holds_at(
            buf,
            p + HEADER_SIZE + questions_wire(m.questions).len() + records_wire(m.answers).len(),
            records_wire(m.authorities),
        ),
        holds_at(
            buf,
            p + HEADER_SIZE + questions_wire(m.questions).len() + records_wire(m.answers).len()
                + records_wire(m.authorities).len(),
            records_wire(m.additionals),
        ),
    ensures
        packet_at(buf, p) == Ok::<(PacketModel, int), BytePacketBufferError>(
            (
                read_back(m),
                p + HEADER_SIZE + questions_wire(m.questions).len() + records_wire(
                    m.answers,
                ).len() + records_wire(m.authorities).len() + records_wire(m.additionals).len(),
            ),
        ),
{
    lemma_header_written(buf, p, counted(m));
    lemma_sections_read_back(buf, p + HEADER_SIZE, m);
}

/// A message that was written is read back where it stands.
#[verifier::rlimit(50)]
pub proof fn lemma_packet_written(buf: Seq<u8>, p: int, m: PacketModel)
    requires
        packet_problem(m) is None,
        well_typed(m),
        holds_at(buf, p, packet_wire(m)),
        buf.len() <= u16::MAX,
    ensures
        packet_at(buf, p) == Ok::<(PacketModel, int), BytePacketBufferError>(
            (read_back(m), p + packet_wire(m).len()),
        ),
{
    lemma_sections_stand(buf, p, m);
    lemma_counts_fit(buf, p, m);
    lemma_packet_read_back(buf, p, m);
}

/// The header of a message that was written is read back with the lengths of
/// the four sections as its counts.
pub proof fn lemma_counts_written(buf: Seq<u8>, p: int, m: PacketModel)
    requires
        holds_at(buf, p, packet_wire(m)),
        buf.len() <= u16::MAX,
    ensures
        header_at(buf, p) is Ok,
        header_at(buf, p)->Ok_0.qdcount == m.questions.len(),
        header_at(buf, p)->Ok_0.ancount == m.answers.len(),
        header_at(buf, p)->Ok_0.nscount == m.authorities.len(),
        header_at(buf, p)->Ok_0.arcount == m.additionals.len(),
{
    lemma_sections_stand(buf, p, m);
    lemma_counts_fit(buf, p, m);
    lemma_header_written(buf, p, counted(m));
}

/// A hostname without capital letters.
pub open spec fn is_plain_name(name: Seq<char>) -> bool {
    &&& is_hostname(name)
    &&& forall|i: int| 0 <= i < name.len() ==> !('A' <= #[trigger] name[i] <= 'Z')
}

/// Every name in the data of a record is a hostname without capital letters.
pub open spec fn is_plain_data(d: RData) -> bool {
    match d {
        RData::NS(host) => is_plain_name(host),
        RData::CNAME(host) => is_plain_name(host),
        RData::PTR(host) => is_plain_name(host),
        RData::MX { exchange, .. } => is_plain_name(exchange),
        RData::SOA { mname, rname, .. } => is_plain_name(mname) && is_plain_name(rname),
        RData::SRV { target, .. } => is_plain_name(target),
        _ => true,
    }
}

/// Every name in a message is a hostname without capital letters.
pub open spec fn is_plain(m: PacketModel) -> bool {
    &&& forall|i: int| 0 <= i < m.questions.len() ==> is_plain_name(
        (#[trigger] m.questions[i]).qname,
    )
    &&& are_plain(m.answers)
    &&& are_plain(m.authorities)
    &&& are_plain(m.additionals)
}

/// Every name in these records is a hostname without capital letters.
pub open spec fn are_plain(records: Seq<RecordModel>) -> bool {
    forall|i: int|
        0 <= i < records.len() ==> is_plain_name((#[trigger] records[i]).preamble.name)
            && is_plain_data(records[i].data)
}

/// A record with the length of its data as measured.
pub open spec fn measured_record(m: RecordModel) -> RecordModel {
    RecordModel {
        preamble: PreambleModel { rdlength: rdata_wire(m.data).len() as u16, ..m.preamble },
        data: m.data,
    }
}

/// Records with the lengths of their data as measured.
pub open spec fn measured_records(records: Seq<RecordModel>) -> Seq<RecordModel> {
    Seq::new(records.len(), |i: int| measured_record(records[i]))
}

/// A message with the lengths of its sections as the counts of its header,
/// and with the lengths of the data of its records as measured.
pub open spec fn measured(m: PacketModel) -> PacketModel {
    PacketModel {
        header: counted(m),
        questions: m.questions,
        answers: measured_records(m.answers),
        authorities: measured_records(m.authorities),
        additionals: measured_records(m.additionals),
    }
}

/// A hostname without capital letters is read back as itself.
pub proof fn lemma_plain_name_kept(name: Seq<char>)
    requires
        is_plain_name(name),
    ensures
        read_back_name(name) == name,
{
    lemma_hostname_read_back(name);
    assert(lower_text(name) =~= name);
}

/// Records whose names are hostnames without capital letters are read back
/// as themselves, with the lengths of their data as measured.
pub proof fn lemma_plain_records_kept(records: Seq<RecordModel>)
    requires
        are_plain(records),
    ensures
        read_back_records(records) == measured_records(records),
{
    assert forall|i: int| 0 <= i < records.len() implies read_back_record(records[i])
        == measured_record(records[i]) by {
        let r = records[i];
        lemma_plain_name_kept(r.preamble.name);
        match r.data {
            RData::NS(host) => {
                lemma_plain_name_kept(host);
            },
            RData::CNAME(host) => {
                lemma_plain_name_kept(host);
            },
            RData::PTR(host) => {
                lemma_plain_name_kept(host);
            },
            RData::MX { exchange, .. } => {
                lemma_plain_name_kept(exchange);
            },
            RData::SOA { mname, rname, .. } => {
                lemma_plain_name_kept(mname);
                lemma_plain_name_kept(rname);
            },
            RData::SRV { target, .. } => {
                lemma_plain_name_kept(target);
            },
            _ => {},
        }
    }
    assert(read_back_records(records) =~= measured_records(records));
}

/// A message whose names are hostnames without capital letters is read back
/// with every field as it was written, but for the counts of the header and
/// the lengths of the data, which are as measured. The octets of TXT and CAA
/// data are among what is kept.
pub proof fn law_plain_message_kept(m: PacketModel)
    requires
        is_plain(m),
    ensures
        read_back(m) == measured(m),
{
    assert forall|i: int| 0 <= i < m.questions.len() implies read_back_question(m.questions[i])
        == m.questions[i] by {
        lemma_plain_name_kept(m.questions[i].qname);
    }
    assert(read_back_questions(m.questions) =~= m.questions);
    lemma_plain_records_kept(m.answers);
    lemma_plain_records_kept(m.authorities);
    lemma_plain_records_kept(m.additionals);
}

/// The number of pointers on the way from `p` to the end of the name that
/// starts there, for a walk of at most `steps` labels and pointers that
/// follows every pointer; nothing where no name ends within those steps.
pub open spec fn pointers_ahead(buf: Seq<u8>, p: int, steps: nat) -> Option<nat>
    decreases steps,
{
    if steps == 0 || p < 0 || p >= buf.len() {
        None
    } else if buf[p] >= POINTER_TAG {
        let target = (buf[p] - POINTER_TAG) * 256 + buf[p + 1];
        if p + 1 >= buf.len() || target >= buf.len() {
            None
        } else {
            match pointers_ahead(buf, target, (steps - 1) as nat) {
                Some(n) => Some(n + 1),
                None => None,
            }
        }
    } else if buf[p] == 0 {
        Some(0)
    } else if p + 1 + buf[p] > buf.len() {
        None
    } else {
        pointers_ahead(buf, p + 1 + buf[p], (steps - 1) as nat)
    }
}

/// A name is read if and only if no more than five pointers lie on its way:
/// a name that would take a sixth is rejected.
pub proof fn law_jump_cap(buf: Seq<u8>, p: int, jumps: nat, steps: nat)
    requires
        pointers_ahead(buf, p, steps) is Some,
        jumps <= MAX_JUMPS,
    ensures
        pointers_ahead(buf, p, steps)->Some_0 + jumps > MAX_JUMPS ==> name_at(buf, p, jumps)
            == Err::<NameWalk, BytePacketBufferError>(BytePacketBufferError::ExceededJumpLimit),
        pointers_ahead(buf, p, steps)->Some_0 + jumps <= MAX_JUMPS ==> name_at(buf, p, jumps)
            is Ok,
    decreases steps,
{
    if buf[p] >= POINTER_TAG {
        let target = (buf[p] - POINTER_TAG) * 256 + buf[p + 1];
        if jumps < MAX_JUMPS {
            law_jump_cap(buf, target, jumps + 1, (steps - 1) as nat);
        }
    } else if buf[p] != 0 {
        law_jump_cap(buf, p + 1 + buf[p], jumps, (steps - 1) as nat);
    }
}


/// The number of labels, pointers and closing octets that the walk over the
/// name at `p` passes, where the name is read.
pub open spec fn walk_length(buf: Seq<u8>, p: int, jumps: nat) -> nat
    decreases MAX_JUMPS - jumps, buf.len() - p,
{
    if p < 0 || p >= buf.len() {
        0
    } else if buf[p] >= POINTER_TAG {
        let target = (buf[p] - POINTER_TAG) * 256 + buf[p + 1];
        if p + 1 >= buf.len() || jumps >= MAX_JUMPS || target >= buf.len() {
            0
        } else {
            1 + walk_length(buf, target, jumps + 1)
        }
    } else if buf[p] == 0 {
        1
    } else if p + 1 + buf[p] > buf.len() {
        0
    } else {
        1 + walk_length(buf, p + 1 + buf[p], jumps)
    }
}

/// Whatever name is read, no more than five pointers lay on its way: a name
/// whose pointers never come to an end is not read.
pub proof fn law_read_name_within_cap(buf: Seq<u8>, p: int, jumps: nat)
    requires
        name_at(buf, p, jumps) is Ok,
        jumps <= MAX_JUMPS,
    ensures
        pointers_ahead(buf, p, walk_length(buf, p, jumps)) is Some,
        pointers_ahead(buf, p, walk_length(buf, p, jumps))->Some_0 + jumps <= MAX_JUMPS,
    decreases MAX_JUMPS - jumps, buf.len() - p,
{
    if buf[p] >= POINTER_TAG {
        let target = (buf[p] - POINTER_TAG) * 256 + buf[p + 1];
        law_read_name_within_cap(buf, target, jumps + 1);
    } else if buf[p] != 0 {
        law_read_name_within_cap(buf, p + 1 + buf[p], jumps);
    }
}


/// What a buffer carries stands in it where it was written.
pub proof fn lemma_carried_stands(
    after: BytePacketBuffer,
    before: BytePacketBuffer,
    start: int,
    wire: Seq<u8>,
)
    requires
        carries(after, before, start, wire),
    ensures
        holds_at(after.buf@, start, wire),
        after.buf@.len() == BUFFER_SIZE,
{
    reveal(holds_at);
    assert(after.buf@.subrange(start, start + wire.len()) =~= wire);
}

/// Written and read back, a hostname is itself in lower case.
///
/// Where `write_qname` has laid down a name of letters, digits and hyphens
/// in labels of 1 to 63 octets, `read_qname` from where the name was written
/// yields the lower-case text of that name, and the cursor ends where the
/// write left it.
pub proof fn law_name_round_trip(
    before: BytePacketBuffer,
    after: BytePacketBuffer,
    name: Seq<char>,
)
    requires
        is_hostname(name),
        name_ok(name),
        carries(after, before, before.pos as int, name_wire(name_bytes(name))),
    ensures
        name_at(after.buf@, before.pos as int, 0) is Ok,
        name_text(name_at(after.buf@, before.pos as int, 0)->Ok_0.labels) == lower_text(name),
        name_at(after.buf@, before.pos as int, 0)->Ok_0.end == after.pos,
{
    lemma_carried_stands(after, before, before.pos as int, name_wire(name_bytes(name)));
    lemma_hostname_written(after.buf@, before.pos as int, name);
}

/// Written and read back, a message is itself: the header with the lengths
/// of the sections as its counts, each name as it is read back, and each
/// record with the length of its data as measured.
///
/// This holds of every message that `write` has laid down: one whose names
/// have labels of at most 63 octets and whose CAA tags have at most 255, and
/// which fits; the type of each record is to be the type of its data. Read
/// from where it was written, the message is what `read_back` says, and the
/// cursor ends where the write left it.
pub proof fn law_packet_round_trip(
    before: BytePacketBuffer,
    after: BytePacketBuffer,
    m: PacketModel,
)
    requires
        packet_problem(m) is None,
        well_typed(m),
        carries(after, before, before.pos as int, packet_wire(m)),
    ensures
        packet_at(after.buf@, before.pos as int) == Ok::<
            (PacketModel, int),
            BytePacketBufferError,
        >((read_back(m), after.pos as int)),
{
    lemma_carried_stands(after, before, before.pos as int, packet_wire(m));
    lemma_packet_written(after.buf@, before.pos as int, m);
}

/// In what `write` has laid down for a message, the four counts of the
/// header are the lengths of the four sections.
pub proof fn law_count_consistency(
    before: BytePacketBuffer,
    after: BytePacketBuffer,
    m: PacketModel,
)
    requires
        carries(after, before, before.pos as int, packet_wire(m)),
    ensures
        header_at(after.buf@, before.pos as int) is Ok,
        header_at(after.buf@, before.pos as int)->Ok_0.qdcount == m.questions.len(),
        header_at(after.buf@, before.pos as int)->Ok_0.ancount == m.answers.len(),
        header_at(after.buf@, before.pos as int)->Ok_0.nscount == m.authorities.len(),
        header_at(after.buf@, before.pos as int)->Ok_0.arcount == m.additionals.len(),
{
    lemma_carried_stands(after, before, before.pos as int, packet_wire(m));
    lemma_counts_written(after.buf@, before.pos as int, m);
}

} // verus!
