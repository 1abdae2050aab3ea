//! The 12-octet message header.

use super::byte_packet_buffer::{
    be_bytes, be_value, lemma_be_bytes_len, splice, BUFFER_SIZE, BytePacketBuffer,
    BytePacketBufferError,
};
use vstd::prelude::*;

verus! {

/// The kind of query.
#[derive(Debug, Clone, Copy, PartialEq, Eq, Structural)]
pub enum OpCode {
    /// A standard query.
    Query,
    /// An inverse query.
    IQuery,
    /// A server status request.
    Status,
    /// A zone change notification.
    Notify,
    /// A dynamic update.
    Update,
}

impl OpCode {
    /// The number that stands for this value on the wire.
    pub open spec fn code(self) -> u8 {
        match self {
            OpCode::Query => 0,
            OpCode::IQuery => 1,
            OpCode::Status => 2,
            OpCode::Notify => 4,
            OpCode::Update => 5,
        }
    }

    /// The value that `value` stands for, if any.
    pub open spec fn from_code(value: u8) -> Option<OpCode> {
        if value == 0 {
            Some(OpCode::Query)
        } else if value == 1 {
            Some(OpCode::IQuery)
        } else if value == 2 {
            Some(OpCode::Status)
        } else if value == 4 {
            Some(OpCode::Notify)
        } else if value == 5 {
            Some(OpCode::Update)
        } else {
            None
        }
    }

    /// The value that `value` stands for, if any.
    pub fn from_u8(value: u8) -> (r: Option<OpCode>)
        ensures
            r == OpCode::from_code(value),
    {
        match value {
            0 => Some(OpCode::Query),
            1 => Some(OpCode::IQuery),
            2 => Some(OpCode::Status),
            4 => Some(OpCode::Notify),
            5 => Some(OpCode::Update),
            _ => None,
        }
    }

    /// The number that stands for `value` on the wire.
    pub fn to_u8(value: &OpCode) -> (r: u8)
        ensures
            r == value.code(),
    {
        match value {
            OpCode::Query => 0,
            OpCode::IQuery => 1,
            OpCode::Status => 2,
            OpCode::Notify => 4,
            OpCode::Update => 5,
        }
    }
}

/// Whether a message is a query or a response.
#[derive(Debug, Clone, Copy, PartialEq, Eq, Structural)]
pub enum QRFlag {
    /// A query.
    Query,
    /// A response.
    Response,
}

impl QRFlag {
    /// The number that stands for this value on the wire.
    pub open spec fn code(self) -> u8 {
        match self {
            QRFlag::Query => 0,
            QRFlag::Response => 1,
        }
    }

    /// The value that `value` stands for, if any.
    pub open spec fn from_code(value: u8) -> Option<QRFlag> {
        if value == 0 {
            Some(QRFlag::Query)
        } else if value == 1 {
            Some(QRFlag::Response)
        } else {
            None
        }
    }

    /// The value that `value` stands for, if any.
    pub fn from_u8(value: u8) -> (r: Option<QRFlag>)
        ensures
            r == QRFlag::from_code(value),
    {
        match value {
            0 => Some(QRFlag::Query),
            1 => Some(QRFlag::Response),
            _ => None,
        }
    }

    /// The number that stands for `value` on the wire.
    pub fn to_u8(value: &QRFlag) -> (r: u8)
        ensures
            r == value.code(),
    {
        match value {
            QRFlag::Query => 0,
            QRFlag::Response => 1,
        }
    }
}

/// Whether the answering server is an authority for the name.
#[derive(Debug, Clone, Copy, PartialEq, Eq, Structural)]
pub enum AAFlag {
    /// Not an authority.
    NonAuthoritative,
    /// An authority.
    Authoritative,
}

impl AAFlag {
    /// The number that stands for this value on the wire.
    pub open spec fn code(self) -> u8 {
        match self {
            AAFlag::NonAuthoritative => 0,
            AAFlag::Authoritative => 1,
        }
    }

    /// The value that `value` stands for, if any.
    pub open spec fn from_code(value: u8) -> Option<AAFlag> {
        if value == 0 {
            Some(AAFlag::NonAuthoritative)
        } else if value == 1 {
            Some(AAFlag::Authoritative)
        } else {
            None
        }
    }

    /// The value that `value` stands for, if any.
    pub fn from_u8(value: u8) -> (r: Option<AAFlag>)
        ensures
            r == AAFlag::from_code(value),
    {
        match value {
            0 => Some(AAFlag::NonAuthoritative),
            1 => Some(AAFlag::Authoritative),
            _ => None,
        }
    }

    /// The number that stands for `value` on the wire.
    pub fn to_u8(value: &AAFlag) -> (r: u8)
        ensures
            r == value.code(),
    {
        match value {
            AAFlag::NonAuthoritative => 0,
            AAFlag::Authoritative => 1,
        }
    }
}

/// Whether the message was cut short.
#[derive(Debug, Clone, Copy, PartialEq, Eq, Structural)]
pub enum TCFlag {
    /// Whole.
    NonTruncated,
    /// Cut short.
    Truncated,
}

impl TCFlag {
    /// The number that stands for this value on the wire.
    pub open spec fn code(self) -> u8 {
        match self {
            TCFlag::NonTruncated => 0,
            TCFlag::Truncated => 1,
        }
    }

    /// The value that `value` stands for, if any.
    pub open spec fn from_code(value: u8) -> Option<TCFlag> {
        if value == 0 {
            Some(TCFlag::NonTruncated)
        } else if value == 1 {
            Some(TCFlag::Truncated)
        } else {
            None
        }
    }

    /// The value that `value` stands for, if any.
    pub fn from_u8(value: u8) -> (r: Option<TCFlag>)
        ensures
            r == TCFlag::from_code(value),
    {
        match value {
            0 => Some(TCFlag::NonTruncated),
            1 => Some(TCFlag::Truncated),
            _ => None,
        }
    }

    /// The number that stands for `value` on the wire.
    pub fn to_u8(value: &TCFlag) -> (r: u8)
        ensures
            r == value.code(),
    {
        match value {
            TCFlag::NonTruncated => 0,
            TCFlag::Truncated => 1,
        }
    }
}

/// Whether the asker wants the server to resolve recursively.
#[derive(Debug, Clone, Copy, PartialEq, Eq, Structural)]
pub enum RDFlag {
    /// Recursion is not asked for.
    NonDesired,
    /// Recursion is asked for.
    Desired,
}

impl RDFlag {
    /// The number that stands for this value on the wire.
    pub open spec fn code(self) -> u8 {
        match self {
            RDFlag::NonDesired => 0,
            RDFlag::Desired => 1,
        }
    }

    /// The value that `value` stands for, if any.
    pub open spec fn from_code(value: u8) -> Option<RDFlag> {
        if value == 0 {
            Some(RDFlag::NonDesired)
        } else if value == 1 {
            Some(RDFlag::Desired)
        } else {
            None
        }
    }

    /// The value that `value` stands for, if any.
    pub fn from_u8(value: u8) -> (r: Option<RDFlag>)
        ensures
            r == RDFlag::from_code(value),
    {
        match value {
            0 => Some(RDFlag::NonDesired),
            1 => Some(RDFlag::Desired),
            _ => None,
        }
    }

    /// The number that stands for `value` on the wire.
    pub fn to_u8(value: &RDFlag) -> (r: u8)
        ensures
            r == value.code(),
    {
        match value {
            RDFlag::NonDesired => 0,
            RDFlag::Desired => 1,
        }
    }
}

/// Whether the server offers recursion.
#[derive(Debug, Clone, Copy, PartialEq, Eq, Structural)]
pub enum RAFlag {
    /// Recursion is not offered.
    NonAvailable,
    /// Recursion is offered.
    Available,
}

impl RAFlag {
    /// The number that stands for this value on the wire.
    pub open spec fn code(self) -> u8 {
        match self {
            RAFlag::NonAvailable => 0,
            RAFlag::Available => 1,
        }
    }

    /// The value that `value` stands for, if any.
    pub open spec fn from_code(value: u8) -> Option<RAFlag> {
        if value == 0 {
            Some(RAFlag::NonAvailable)
        } else if value == 1 {
            Some(RAFlag::Available)
        } else {
            None
        }
    }

    /// The value that `value` stands for, if any.
    pub fn from_u8(value: u8) -> (r: Option<RAFlag>)
        ensures
            r == RAFlag::from_code(value),
    {
        match value {
            0 => Some(RAFlag::NonAvailable),
            1 => Some(RAFlag::Available),
            _ => None,
        }
    }

    /// The number that stands for `value` on the wire.
    pub fn to_u8(value: &RAFlag) -> (r: u8)
        ensures
            r == value.code(),
    {
        match value {
            RAFlag::NonAvailable => 0,
            RAFlag::Available => 1,
        }
    }
}

/// The reserved header bit, which is always clear.
#[derive(Debug, Clone, Copy, PartialEq, Eq, Structural)]
pub enum ZFlag {
    /// Clear.
    Unused,
}

impl ZFlag {
    /// The number that stands for this value on the wire.
    pub open spec fn code(self) -> u8 {
        match self {
            ZFlag::Unused => 0,
        }
    }

    /// The value that `value` stands for, if any.
    pub open spec fn from_code(value: u8) -> Option<ZFlag> {
        if value == 0 {
            Some(ZFlag::Unused)
        } else {
            None
        }
    }

    /// The value that `value` stands for, if any.
    pub fn from_u8(value: u8) -> (r: Option<ZFlag>)
        ensures
            r == ZFlag::from_code(value),
    {
        match value {
            0 => Some(ZFlag::Unused),
            _ => None,
        }
    }

    /// The number that stands for `value` on the wire.
    pub fn to_u8(value: &ZFlag) -> (r: u8)
        ensures
            r == value.code(),
    {
        match value {
            ZFlag::Unused => 0,
        }
    }
}

/// Whether the data was authenticated.
#[derive(Debug, Clone, Copy, PartialEq, Eq, Structural)]
pub enum ADFlag {
    /// Not authenticated.
    NonAuthenticated,
    /// Authenticated.
    Authenticated,
}

impl ADFlag {
    /// The number that stands for this value on the wire.
    pub open spec fn code(self) -> u8 {
        match self {
            ADFlag::NonAuthenticated => 0,
            ADFlag::Authenticated => 1,
        }
    }

    /// The value that `value` stands for, if any.
    pub open spec fn from_code(value: u8) -> Option<ADFlag> {
        if value == 0 {
            Some(ADFlag::NonAuthenticated)
        } else if value == 1 {
            Some(ADFlag::Authenticated)
        } else {
            None
        }
    }

    /// The value that `value` stands for, if any.
    pub fn from_u8(value: u8) -> (r: Option<ADFlag>)
        ensures
            r == ADFlag::from_code(value),
    {
        match value {
            0 => Some(ADFlag::NonAuthenticated),
            1 => Some(ADFlag::Authenticated),
            _ => None,
        }
    }

    /// The number that stands for `value` on the wire.
    pub fn to_u8(value: &ADFlag) -> (r: u8)
        ensures
            r == value.code(),
    {
        match value {
            ADFlag::NonAuthenticated => 0,
            ADFlag::Authenticated => 1,
        }
    }
}

/// The checking-disabled bit.
#[derive(Debug, Clone, Copy, PartialEq, Eq, Structural)]
pub enum CDFlag {
    /// The bit is clear.
    Enabled,
    /// The bit is set.
    Disabled,
}

impl CDFlag {
    /// The number that stands for this value on the wire.
    pub open spec fn code(self) -> u8 {
        match self {
            CDFlag::Enabled => 0,
            CDFlag::Disabled => 1,
        }
    }

    /// The value that `value` stands for, if any.
    pub open spec fn from_code(value: u8) -> Option<CDFlag> {
        if value == 0 {
            Some(CDFlag::Enabled)
        } else if value == 1 {
            Some(CDFlag::Disabled)
        } else {
            None
        }
    }

    /// The value that `value` stands for, if any.
    pub fn from_u8(value: u8) -> (r: Option<CDFlag>)
        ensures
            r == CDFlag::from_code(value),
    {
        match value {
            0 => Some(CDFlag::Enabled),
            1 => Some(CDFlag::Disabled),
            _ => None,
        }
    }

    /// The number that stands for `value` on the wire.
    pub fn to_u8(value: &CDFlag) -> (r: u8)
        ensures
            r == value.code(),
    {
        match value {
            CDFlag::Enabled => 0,
            CDFlag::Disabled => 1,
        }
    }
}

/// The response code.
#[derive(Debug, Clone, Copy, PartialEq, Eq, Structural)]
pub enum RCode {
    /// No error.
    NoError,
    /// The request could not be read.
    FormErr,
    /// The server could not process the request.
    ServFail,
    /// The name does not exist.
    NXDomain,
    /// The kind of request is not supported.
    NotImp,
    /// The server refuses the request.
    Refused,
    /// A name exists that should not.
    YXDomain,
    /// A record set exists that should not.
    YXRRSet,
    /// A record set that should exist does not.
    NXRRSet,
    /// The server is no authority for the zone.
    NotAuth,
    /// A name is not inside the zone.
    NotZone,
}

impl RCode {
    /// The number that stands for this value on the wire.
    pub open spec fn code(self) -> u8 {
        match self {
            RCode::NoError => 0,
            RCode::FormErr => 1,
            RCode::ServFail => 2,
            RCode::NXDomain => 3,
            RCode::NotImp => 4,
            RCode::Refused => 5,
            RCode::YXDomain => 6,
            RCode::YXRRSet => 7,
            RCode::NXRRSet => 8,
            RCode::NotAuth => 9,
            RCode::NotZone => 10,
        }
    }

    /// The value that `value` stands for, if any.
    pub open spec fn from_code(value: u8) -> Option<RCode> {
        if value == 0 {
            Some(RCode::NoError)
        } else if value == 1 {
            Some(RCode::FormErr)
        } else if value == 2 {
            Some(RCode::ServFail)
        } else if value == 3 {
            Some(RCode::NXDomain)
        } else if value == 4 {
            Some(RCode::NotImp)
        } else if value == 5 {
            Some(RCode::Refused)
        } else if value == 6 {
            Some(RCode::YXDomain)
        } else if value == 7 {
            Some(RCode::YXRRSet)
        } else if value == 8 {
            Some(RCode::NXRRSet)
        } else if value == 9 {
            Some(RCode::NotAuth)
        } else if value == 10 {
            Some(RCode::NotZone)
        } else {
            None
        }
    }

    /// The value that `value` stands for, if any.
    pub fn from_u8(value: u8) -> (r: Option<RCode>)
        ensures
            r == RCode::from_code(value),
    {
        match value {
            0 => Some(RCode::NoError),
            1 => Some(RCode::FormErr),
            2 => Some(RCode::ServFail),
            3 => Some(RCode::NXDomain),
            4 => Some(RCode::NotImp),
            5 => Some(RCode::Refused),
            6 => Some(RCode::YXDomain),
            7 => Some(RCode::YXRRSet),
            8 => Some(RCode::NXRRSet),
            9 => Some(RCode::NotAuth),
            10 => Some(RCode::NotZone),
            _ => None,
        }
    }

    /// The number that stands for `value` on the wire.
    pub fn to_u8(value: &RCode) -> (r: u8)
        ensures
            r == value.code(),
    {
        match value {
            RCode::NoError => 0,
            RCode::FormErr => 1,
            RCode::ServFail => 2,
            RCode::NXDomain => 3,
            RCode::NotImp => 4,
            RCode::Refused => 5,
            RCode::YXDomain => 6,
            RCode::YXRRSet => 7,
            RCode::NXRRSet => 8,
            RCode::NotAuth => 9,
            RCode::NotZone => 10,
        }
    }
}

/// The header of a message.
#[derive(Debug, Clone, Copy, PartialEq, Eq, Structural)]
pub struct DNSHeaderSection {
    /// The identifier that pairs a response with its query.
    pub id: u16,
    pub qr: QRFlag,
    pub opcode: OpCode,
    pub aa: AAFlag,
    pub tc: TCFlag,
    pub rd: RDFlag,
    pub ra: RAFlag,
    pub z: ZFlag,
    pub ad: ADFlag,
    pub cd: CDFlag,
    pub rcode: RCode,
    /// The number of questions.
    pub qdcount: u16,
    /// The number of answer records.
    pub ancount: u16,
    /// The number of authority records.
    pub nscount: u16,
    /// The number of additional records.
    pub arcount: u16,
}

/// The number of octets in a header.
pub const HEADER_SIZE: usize = 12;

/// The first flag octet: QR, the opcode, AA, TC and RD, from the high bit
/// down.
pub open spec fn flags_high(h: DNSHeaderSection) -> u8 {
    (h.qr.code() * 128 + h.opcode.code() * 8 + h.aa.code() * 4 + h.tc.code() * 2
        + h.rd.code()) as u8
}

/// The second flag octet: RA, Z, AD, CD and the response code, from the high
/// bit down.
pub open spec fn flags_low(h: DNSHeaderSection) -> u8 {
    (h.ra.code() * 128 + h.z.code() * 64 + h.ad.code() * 32 + h.cd.code() * 16
        + h.rcode.code()) as u8
}

/// The twelve octets of a header.
pub open spec fn header_wire(h: DNSHeaderSection) -> Seq<u8> {
    be_bytes(h.id as nat, 2) + seq![flags_high(h), flags_low(h)] + be_bytes(h.qdcount as nat, 2)
        + be_bytes(h.ancount as nat, 2) + be_bytes(h.nscount as nat, 2) + be_bytes(
        h.arcount as nat,
        2,
    )
}

/// The header that twelve octets spell, unless they hold an opcode or a
/// response code that is not assigned, or the reserved bit.
pub open spec fn parse_header(bytes: Seq<u8>) -> Result<DNSHeaderSection, BytePacketBufferError> {
    let high = bytes[2];
    let low = bytes[3];
    if OpCode::from_code((high / 8) % 16) is None {
        Err(BytePacketBufferError::UnknownOpCode)
    } else if RCode::from_code(low % 16) is None {
        Err(BytePacketBufferError::UnknownRCode)
    } else if (low / 64) % 2 != 0 {
        Err(BytePacketBufferError::ReservedBitSet)
    } else {
        Ok(
            DNSHeaderSection {
                id: be_value(bytes.subrange(0, 2)) as u16,
                qr: QRFlag::from_code(high / 128)->Some_0,
                opcode: OpCode::from_code((high / 8) % 16)->Some_0,
                aa: AAFlag::from_code((high / 4) % 2)->Some_0,
                tc: TCFlag::from_code((high / 2) % 2)->Some_0,
                rd: RDFlag::from_code(high % 2)->Some_0,
                ra: RAFlag::from_code(low / 128)->Some_0,
                z: ZFlag::Unused,
                ad: ADFlag::from_code((low / 32) % 2)->Some_0,
                cd: CDFlag::from_code((low / 16) % 2)->Some_0,
                rcode: RCode::from_code(low % 16)->Some_0,
                qdcount: be_value(bytes.subrange(4, 6)) as u16,
                ancount: be_value(bytes.subrange(6, 8)) as u16,
                nscount: be_value(bytes.subrange(8, 10)) as u16,
                arcount: be_value(bytes.subrange(10, 12)) as u16,
            },
        )
    }
}

/// The header that stands at `pos` in `buf`.
pub open spec fn header_at(buf: Seq<u8>, pos: int) -> Result<
    DNSHeaderSection,
    BytePacketBufferError,
> {
    if pos + HEADER_SIZE > buf.len() {
        Err(BytePacketBufferError::UnexpectedEof)
    } else {
        parse_header(buf.subrange(pos, pos + HEADER_SIZE))
    }
}

impl DNSHeaderSection {
    /// The header of an empty query: identifier zero, every flag clear but
    /// CD, no error, no sections.
    pub open spec fn blank() -> DNSHeaderSection {
        DNSHeaderSection {
            id: 0,
            qr: QRFlag::Query,
            opcode: OpCode::Query,
            aa: AAFlag::NonAuthoritative,
            tc: TCFlag::NonTruncated,
            rd: RDFlag::NonDesired,
            ra: RAFlag::NonAvailable,
            z: ZFlag::Unused,
            ad: ADFlag::NonAuthenticated,
            cd: CDFlag::Disabled,
            rcode: RCode::NoError,
            qdcount: 0,
            ancount: 0,
            nscount: 0,
            arcount: 0,
        }
    }

    /// The header of an empty query.
    pub fn new() -> (h: DNSHeaderSection)
        ensures
            h == DNSHeaderSection::blank(),
    {
        DNSHeaderSection {
            id: 0,
            qr: QRFlag::Query,
            opcode: OpCode::Query,
            aa: AAFlag::NonAuthoritative,
            tc: TCFlag::NonTruncated,
            rd: RDFlag::NonDesired,
            ra: RAFlag::NonAvailable,
            z: ZFlag::Unused,
            ad: ADFlag::NonAuthenticated,
            cd: CDFlag::Disabled,
            rcode: RCode::NoError,
            qdcount: 0,
            ancount: 0,
            nscount: 0,
            arcount: 0,
        }
    }

    /// Reads a header from under the cursor into `self` and moves the cursor
    /// past it. Where no header can be read, nothing changes.
    pub fn read(&mut self, buffer: &mut BytePacketBuffer) -> (r: Result<
        (),
        BytePacketBufferError,
    >)
        ensures
            old(buffer).wf() ==> final(buffer).wf(),
            final(buffer).buf == old(buffer).buf,
            match header_at(old(buffer).buf@, old(buffer).pos as int) {
                Ok(h) => r == Ok::<(), BytePacketBufferError>(()) && *final(self) == h
                    && final(buffer).pos == old(buffer).pos + HEADER_SIZE,
                Err(e) => r == Err::<(), BytePacketBufferError>(e) && *final(self) == *old(self)
                    && final(buffer).pos == old(buffer).pos,
            },
    {
        let start: usize = buffer.pos;
        if start > BUFFER_SIZE - HEADER_SIZE {
            return Err(BytePacketBufferError::UnexpectedEof);
        }
        let ghost bytes = buffer.buf@.subrange(start as int, start + HEADER_SIZE);
        proof {
            assert(bytes.subrange(0, 2) =~= buffer.buf@.subrange(start as int, start + 2));
            assert(bytes.subrange(4, 6) =~= buffer.buf@.subrange(start + 4, start + 6));
            assert(bytes.subrange(6, 8) =~= buffer.buf@.subrange(start + 6, start + 8));
            assert(bytes.subrange(8, 10) =~= buffer.buf@.subrange(start + 8, start + 10));
            assert(bytes.subrange(10, 12) =~= buffer.buf@.subrange(start + 10, start + 12));
        }
        let id: u16 = match buffer.read_u16() {
            Ok(v) => v,
            Err(e) => {
                buffer.pos = start;
                return Err(e);
            },
        };
        let high: u8 = match buffer.read_u8() {
            Ok(v) => v,
            Err(e) => {
                buffer.pos = start;
                return Err(e);
            },
        };
        let low: u8 = match buffer.read_u8() {
            Ok(v) => v,
            Err(e) => {
                buffer.pos = start;
                return Err(e);
            },
        };
        let qdcount: u16 = match buffer.read_u16() {
            Ok(v) => v,
            Err(e) => {
                buffer.pos = start;
                return Err(e);
            },
        };
        let ancount: u16 = match buffer.read_u16() {
            Ok(v) => v,
            Err(e) => {
                buffer.pos = start;
                return Err(e);
            },
        };
        let nscount: u16 = match buffer.read_u16() {
            Ok(v) => v,
            Err(e) => {
                buffer.pos = start;
                return Err(e);
            },
        };
        let arcount: u16 = match buffer.read_u16() {
            Ok(v) => v,
            Err(e) => {
                buffer.pos = start;
                return Err(e);
            },
        };
        let opcode: OpCode = match OpCode::from_u8((high / 8) % 16) {
            Some(v) => v,
            None => {
                buffer.pos = start;
                return Err(BytePacketBufferError::UnknownOpCode);
            },
        };
        let rcode: RCode = match RCode::from_u8(low % 16) {
            Some(v) => v,
            None => {
                buffer.pos = start;
                return Err(BytePacketBufferError::UnknownRCode);
            },
        };
        let z: ZFlag = match ZFlag::from_u8((low / 64) % 2) {
            Some(v) => v,
            None => {
                buffer.pos = start;
                return Err(BytePacketBufferError::ReservedBitSet);
            },
        };
        let qr: QRFlag = if high / 128 == 1 {
            QRFlag::Response
        } else {
            QRFlag::Query
        };
        let aa: AAFlag = if (high / 4) % 2 == 1 {
            AAFlag::Authoritative
        } else {
            AAFlag::NonAuthoritative
        };
        let tc: TCFlag = if (high / 2) % 2 == 1 {
            TCFlag::Truncated
        } else {
            TCFlag::NonTruncated
        };
        let rd: RDFlag = if high % 2 == 1 {
            RDFlag::Desired
        } else {
            RDFlag::NonDesired
        };
        let ra: RAFlag = if low / 128 == 1 {
            RAFlag::Available
        } else {
            RAFlag::NonAvailable
        };
        let ad: ADFlag = if (low / 32) % 2 == 1 {
            ADFlag::Authenticated
        } else {
            ADFlag::NonAuthenticated
        };
        let cd: CDFlag = if (low / 16) % 2 == 1 {
            CDFlag::Disabled
        } else {
            CDFlag::Enabled
        };
        *self = DNSHeaderSection {
            id,
            qr,
            opcode,
            aa,
            tc,
            rd,
            ra,
            z,
            ad,
            cd,
            rcode,
            qdcount,
            ancount,
            nscount,
            arcount,
        };
        Ok(())
    }

    /// Writes the header under the cursor and moves the cursor past it. The
    /// counts are written as they stand. Where the header does not fit,
    /// nothing is written.
    pub fn write(&self, buffer: &mut BytePacketBuffer) -> (r: Result<(), BytePacketBufferError>)
        ensures
            old(buffer).wf() ==> final(buffer).wf(),
            old(buffer).pos + HEADER_SIZE <= BUFFER_SIZE ==> r == Ok::<(), BytePacketBufferError>(
                (),
            ) && final(buffer).pos == old(buffer).pos + HEADER_SIZE && final(buffer).buf@
                == splice(old(buffer).buf@, old(buffer).pos as int, header_wire(*self)),
            old(buffer).pos + HEADER_SIZE > BUFFER_SIZE ==> r == Err::<(), BytePacketBufferError>(
                BytePacketBufferError::Overflow,
            ) && *final(buffer) == *old(buffer),
    {
        if buffer.pos > BUFFER_SIZE - HEADER_SIZE {
            return Err(BytePacketBufferError::Overflow);
        }
        let high: u8 = QRFlag::to_u8(&self.qr) * 128 + OpCode::to_u8(&self.opcode) * 8
            + AAFlag::to_u8(&self.aa) * 4 + TCFlag::to_u8(&self.tc) * 2 + RDFlag::to_u8(&self.rd);
        let low: u8 = RAFlag::to_u8(&self.ra) * 128 + ZFlag::to_u8(&self.z) * 64 + ADFlag::to_u8(
            &self.ad,
        ) * 32 + CDFlag::to_u8(&self.cd) * 16 + RCode::to_u8(&self.rcode);
        let mut out: Vec<u8> = Vec::new();
        push_u16(&mut out, self.id);
        out.push(high);
        out.push(low);
        push_u16(&mut out, self.qdcount);
        push_u16(&mut out, self.ancount);
        push_u16(&mut out, self.nscount);
        push_u16(&mut out, self.arcount);
        proof {
            lemma_be_bytes_len(self.id as nat, 2);
            lemma_be_bytes_len(self.qdcount as nat, 2);
            lemma_be_bytes_len(self.ancount as nat, 2);
            lemma_be_bytes_len(self.nscount as nat, 2);
            lemma_be_bytes_len(self.arcount as nat, 2);
        }
        buffer.write_bytes(out.as_slice())
    }
}

/// Appends `val` to `out` as two big-endian octets.
pub fn push_u16(out: &mut Vec<u8>, val: u16)
    ensures
        final(out)@ == old(out)@ + be_bytes(val as nat, 2),
{
    out.push((val / 256) as u8);
    out.push((val % 256) as u8);
    proof {
        reveal_with_fuel(be_bytes, 3);
    }
}

} // verus!
