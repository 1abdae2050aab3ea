//! DNS messages: the datagram buffer, the header, questions, resource
//! records and whole packets.

pub mod byte_packet_buffer;
pub mod header;
pub mod name;
pub mod packet;
pub mod records;
pub mod round_trip;

use byte_packet_buffer::{
    be_bytes, be_value, lemma_be_bytes_len, lemma_carries_more, lemma_pow256_values, write_outcome,
    BUFFER_SIZE, BytePacketBuffer, BytePacketBufferError,
};
use name::{name_at, name_bytes, name_ok, name_text, name_wire};
pub use packet::{
    DNSAdditionalSection, DNSAnswerSection, DNSAuthoritySection, DNSPacket, DNSQuestionSection,
};
use vstd::prelude::*;
use vstd::string::*;

verus! {

/// The type of a question or of a record.
#[derive(Debug, Clone, Copy, PartialEq, Eq, Structural)]
pub enum QRType {
    /// A type that this library does not know, with its code.
    UNKNOWN(u16),
    /// An IPv4 address.
    A,
    /// A name server.
    NS,
    /// A canonical name.
    CNAME,
    /// The start of a zone of authority.
    SOA,
    /// A pointer to a name.
    PTR,
    /// A mail exchange.
    MX,
    /// Text.
    TXT,
    /// An IPv6 address.
    AAAA,
    /// The location of a service.
    SRV,
    /// A certification authority authorization.
    CAA,
}

impl QRType {
    /// The code that stands for this type on the wire.
    pub open spec fn code(self) -> u16 {
        match self {
            QRType::A => 1,
            QRType::NS => 2,
            QRType::CNAME => 5,
            QRType::SOA => 6,
            QRType::PTR => 12,
            QRType::MX => 15,
            QRType::TXT => 16,
            QRType::AAAA => 28,
            QRType::SRV => 33,
            QRType::CAA => 257,
            QRType::UNKNOWN(x) => x,
        }
    }

    /// The type that `value` stands for.
    pub open spec fn from_code(value: u16) -> QRType {
        if value == 1 {
            QRType::A
        } else if value == 2 {
            QRType::NS
        } else if value == 5 {
            QRType::CNAME
        } else if value == 6 {
            QRType::SOA
        } else if value == 12 {
            QRType::PTR
        } else if value == 15 {
            QRType::MX
        } else if value == 16 {
            QRType::TXT
        } else if value == 28 {
            QRType::AAAA
        } else if value == 33 {
            QRType::SRV
        } else if value == 257 {
            QRType::CAA
        } else {
            QRType::UNKNOWN(value)
        }
    }

    /// An unknown type does not hold the code of a known one.
    pub open spec fn wf(self) -> bool {
        QRType::from_code(self.code()) == self
    }

    /// The code that stands for this type on the wire.
    pub fn to_u16(&self) -> (r: u16)
        ensures
            r == self.code(),
    {
        match *self {
            QRType::A => 1,
            QRType::NS => 2,
            QRType::CNAME => 5,
            QRType::SOA => 6,
            QRType::PTR => 12,
            QRType::MX => 15,
            QRType::TXT => 16,
            QRType::AAAA => 28,
            QRType::SRV => 33,
            QRType::CAA => 257,
            QRType::UNKNOWN(x) => x,
        }
    }

    /// The type that `value` stands for.
    pub fn from_u16(value: u16) -> (r: QRType)
        ensures
            r == QRType::from_code(value),
            r.wf(),
    {
        match value {
            1 => QRType::A,
            2 => QRType::NS,
            5 => QRType::CNAME,
            6 => QRType::SOA,
            12 => QRType::PTR,
            15 => QRType::MX,
            16 => QRType::TXT,
            28 => QRType::AAAA,
            33 => QRType::SRV,
            257 => QRType::CAA,
            _ => QRType::UNKNOWN(value),
        }
    }
}

/// The decimal digit for `d`, where `d` is below ten.
pub open spec fn digit(d: nat) -> char {
    (48 + d) as u8 as char
}

/// The decimal digits of `n`.
pub open spec fn decimal(n: nat) -> Seq<char>
    decreases n,
{
    if n < 10 {
        seq![digit(n)]
    } else {
        decimal(n / 10).push(digit(n % 10))
    }
}

/// The decimal digit for `d`.
fn digit_text(d: u16) -> (s: &'static str)
    requires
        d < 10,
    ensures
        s@ == seq![digit(d as nat)],
{
    proof {
        reveal_strlit("0");
        reveal_strlit("1");
        reveal_strlit("2");
        reveal_strlit("3");
        reveal_strlit("4");
        reveal_strlit("5");
        reveal_strlit("6");
        reveal_strlit("7");
        reveal_strlit("8");
        reveal_strlit("9");
    }
    let s: &'static str = match d {
        0 => "0",
        1 => "1",
        2 => "2",
        3 => "3",
        4 => "4",
        5 => "5",
        6 => "6",
        7 => "7",
        8 => "8",
        _ => "9",
    };
    s
}

/// The decimal digits of `n`.
pub fn decimal_text(n: u16) -> (s: String)
    ensures
        s@ == decimal(n as nat),
    decreases n,
{
    if n < 10 {
        digit_text(n).to_owned()
    } else {
        let mut s: String = decimal_text(n / 10);
        s.append(digit_text(n % 10));
        s
    }
}

impl QRType {
    /// The name of the type and what it is for; for a type that is not
    /// known, its code in decimal digits.
    pub open spec fn description(self) -> Seq<char> {
        match self {
            QRType::A => "A (IPv4 address)"@,
            QRType::NS => "NS (Name Server)"@,
            QRType::CNAME => "CNAME (Canonical Name)"@,
            QRType::SOA => "SOA (State of Authority)"@,
            QRType::PTR => "PTR (Pointer Record)"@,
            QRType::MX => "MX (Mail Exchange)"@,
            QRType::TXT => "TXT (Text Record)"@,
            QRType::AAAA => "AAAA (IPv6 address)"@,
            QRType::SRV => "SRV (Service Record)"@,
            QRType::CAA => "CAA (Certification Authority Authorization)"@,
            QRType::UNKNOWN(code) => "UNKNOWN ("@ + decimal(code as nat) + ")"@,
        }
    }

    /// The type in words, for people to read.
    pub fn describe(&self) -> (s: String)
        ensures
            s@ == self.description(),
    {
        match *self {
            QRType::A => "A (IPv4 address)".to_owned(),
            QRType::NS => "NS (Name Server)".to_owned(),
            QRType::CNAME => "CNAME (Canonical Name)".to_owned(),
            QRType::SOA => "SOA (State of Authority)".to_owned(),
            QRType::PTR => "PTR (Pointer Record)".to_owned(),
            QRType::MX => "MX (Mail Exchange)".to_owned(),
            QRType::TXT => "TXT (Text Record)".to_owned(),
            QRType::AAAA => "AAAA (IPv6 address)".to_owned(),
            QRType::SRV => "SRV (Service Record)".to_owned(),
            QRType::CAA => "CAA (Certification Authority Authorization)".to_owned(),
            QRType::UNKNOWN(code) => {
                let mut s: String = "UNKNOWN (".to_owned();
                let digits: String = decimal_text(code);
                s.append(digits.as_str());
                s.append(")");
                s
            },
        }
    }
}

/// The class of a question or of a record.
#[derive(Debug, Clone, Copy, PartialEq, Eq, Structural)]
pub enum QRClass {
    /// The Internet.
    IN,
    /// Chaos.
    CH,
    /// Hesiod.
    HS,
    /// Any class.
    ANY,
}

impl QRClass {
    /// The code that stands for this class on the wire.
    pub open spec fn code(self) -> u16 {
        match self {
            QRClass::IN => 1,
            QRClass::CH => 3,
            QRClass::HS => 4,
            QRClass::ANY => 255,
        }
    }

    /// The class that `value` stands for, if any.
    pub open spec fn from_code(value: u16) -> Option<QRClass> {
        if value == 1 {
            Some(QRClass::IN)
        } else if value == 3 {
            Some(QRClass::CH)
        } else if value == 4 {
            Some(QRClass::HS)
        } else if value == 255 {
            Some(QRClass::ANY)
        } else {
            None
        }
    }

    /// The class that `value` stands for, if any.
    pub fn from_u16(value: u16) -> (r: Option<QRClass>)
        ensures
            r == QRClass::from_code(value),
    {
        match value {
            1 => Some(QRClass::IN),
            3 => Some(QRClass::CH),
            4 => Some(QRClass::HS),
            255 => Some(QRClass::ANY),
            _ => None,
        }
    }

    /// The code that stands for `value` on the wire.
    pub fn to_u16(value: &QRClass) -> (r: u16)
        ensures
            r == value.code(),
    {
        match value {
            QRClass::IN => 1,
            QRClass::CH => 3,
            QRClass::HS => 4,
            QRClass::ANY => 255,
        }
    }
}

/// A question: a name, and the type and class asked for.
#[derive(Debug, Clone, PartialEq, Eq)]
pub struct DNSQuestion {
    pub qname: String,
    pub qtype: QRType,
    pub qclass: QRClass,
}

/// What a question holds.
pub struct QuestionModel {
    pub qname: Seq<char>,
    pub qtype: QRType,
    pub qclass: QRClass,
}

impl View for DNSQuestion {
    type V = QuestionModel;

    open spec fn view(&self) -> QuestionModel {
        QuestionModel { qname: self.qname@, qtype: self.qtype, qclass: self.qclass }
    }
}

/// The two octets at `p` in `buf` as a big-endian number.
pub open spec fn u16_at(buf: Seq<u8>, p: int) -> u16 {
    be_value(buf.subrange(p, p + 2)) as u16
}

/// The four octets at `p` in `buf` as a big-endian number.
pub open spec fn u32_at(buf: Seq<u8>, p: int) -> u32 {
    be_value(buf.subrange(p, p + 4)) as u32
}

/// The sixteen octets at `p` in `buf` as a big-endian number.
pub open spec fn u128_at(buf: Seq<u8>, p: int) -> u128 {
    be_value(buf.subrange(p, p + 16)) as u128
}

/// A question on the wire: its name, its type and its class.
pub open spec fn question_wire(q: QuestionModel) -> Seq<u8> {
    name_wire(name_bytes(q.qname)) + be_bytes(q.qtype.code() as nat, 2) + be_bytes(
        q.qclass.code() as nat,
        2,
    )
}

/// Why a question cannot be written, if it cannot.
pub open spec fn question_problem(q: QuestionModel) -> Option<BytePacketBufferError> {
    if name_ok(q.qname) {
        None
    } else {
        Some(BytePacketBufferError::InvalidDomainNameFormat)
    }
}

/// The question that stands at `pos` in `buf`, and where it ends.
pub open spec fn question_at(buf: Seq<u8>, pos: int) -> Result<
    (QuestionModel, int),
    BytePacketBufferError,
> {
    match name_at(buf, pos, 0) {
        Err(e) => Err(e),
        Ok(walk) => if walk.end + 4 > buf.len() {
            Err(BytePacketBufferError::UnexpectedEof)
        } else {
            match QRClass::from_code(u16_at(buf, walk.end + 2)) {
                None => Err(BytePacketBufferError::UnknownClass),
                Some(qclass) => Ok(
                    (
                        QuestionModel {
                            qname: name_text(walk.labels),
                            qtype: QRType::from_code(u16_at(buf, walk.end)),
                            qclass,
                        },
                        walk.end + 4,
                    ),
                ),
            }
        },
    }
}

impl DNSQuestion {
    /// A question with these three fields.
    pub fn new(qname: String, qtype: QRType, qclass: QRClass) -> (q: DNSQuestion)
        ensures
            q.qname == qname,
            q.qtype == qtype,
            q.qclass == qclass,
    {
        DNSQuestion { qname, qtype, qclass }
    }

    /// Reads the question under the cursor into `self` and moves the cursor
    /// past it. The name read is appended to the name that `self` holds.
    /// Where no question can be read, nothing changes.
    pub fn read(&mut self, buffer: &mut BytePacketBuffer) -> (r: Result<
        (),
        BytePacketBufferError,
    >)
        ensures
            old(buffer).wf() ==> final(buffer).wf(),
            final(buffer).buf == old(buffer).buf,
            match question_at(old(buffer).buf@, old(buffer).pos as int) {
                Ok((q, end)) => r == Ok::<(), BytePacketBufferError>(()) && final(self)@ == (
                QuestionModel {
                    qname: old(self).qname@ + q.qname,
                    qtype: q.qtype,
                    qclass: q.qclass,
                }) && final(buffer).pos == end,
                Err(e) => r == Err::<(), BytePacketBufferError>(e) && *final(self) == *old(self)
                    && final(buffer).pos == old(buffer).pos,
            },
    {
        let start: usize = buffer.pos;
        let mut qname: String = String::new();
        match buffer.read_qname(&mut qname) {
            Ok(()) => {},
            Err(e) => {
                return Err(e);
            },
        }
        if buffer.pos > BUFFER_SIZE - 4 {
            buffer.pos = start;
            return Err(BytePacketBufferError::UnexpectedEof);
        }
        let type_code: u16 = match buffer.read_u16() {
            Ok(v) => v,
            Err(e) => {
                buffer.pos = start;
                return Err(e);
            },
        };
        let class_code: u16 = match buffer.read_u16() {
            Ok(v) => v,
            Err(e) => {
                buffer.pos = start;
                return Err(e);
            },
        };
        let qclass: QRClass = match QRClass::from_u16(class_code) {
            Some(c) => c,
            None => {
                buffer.pos = start;
                return Err(BytePacketBufferError::UnknownClass);
            },
        };
        proof {
            lemma_pow256_values();
        }
        self.qname.append(qname.as_str());
        self.qtype = QRType::from_u16(type_code);
        self.qclass = qclass;
        Ok(())
    }

    /// Writes the question under the cursor and moves the cursor past it.
    /// Nothing is written where the name has a label of more than 63 octets,
    /// or where the question does not fit.
    pub fn write(&self, buffer: &mut BytePacketBuffer) -> (r: Result<(), BytePacketBufferError>)
        ensures
            old(buffer).wf() ==> final(buffer).wf(),
            write_outcome(
                *old(buffer),
                *final(buffer),
                r,
                question_problem(self@),
                question_wire(self@),
            ),
    {
        let saved: BytePacketBuffer = BytePacketBuffer { buf: buffer.buf, pos: buffer.pos };
        let ghost start = buffer.pos as int;
        let ghost name = name_wire(name_bytes(self.qname@));
        let ghost qtype = be_bytes(self.qtype.code() as nat, 2);
        let ghost qclass = be_bytes(self.qclass.code() as nat, 2);
        proof {
            lemma_be_bytes_len(self.qtype.code() as nat, 2);
            lemma_be_bytes_len(self.qclass.code() as nat, 2);
        }
        match buffer.write_qname(self.qname.as_str()) {
            Ok(()) => {},
            Err(e) => {
                return Err(e);
            },
        }
        let ghost named = *buffer;
        match buffer.write_u16(self.qtype.to_u16()) {
            Ok(()) => {},
            Err(e) => {
                *buffer = saved;
                return Err(e);
            },
        }
        let ghost typed = *buffer;
        proof {
            lemma_carries_more(typed, named, saved, start, name, qtype);
        }
        match buffer.write_u16(QRClass::to_u16(&self.qclass)) {
            Ok(()) => {},
            Err(e) => {
                *buffer = saved;
                return Err(e);
            },
        }
        proof {
            lemma_carries_more(*buffer, typed, saved, start, name + qtype, qclass);
        }
        Ok(())
    }
}

} // verus!
