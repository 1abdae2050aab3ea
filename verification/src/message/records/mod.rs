//! Resource records: the preamble that all of them share, the data of each
//! type, and how a record is read from and written to a datagram.

pub mod a_record;
pub mod aaaa_record;
pub mod caa_record;
pub mod cname_record;
pub mod mx_record;
pub mod ns_record;
pub mod ptr_record;
pub mod soa_record;
pub mod srv_record;
pub mod txt_record;
pub mod unknown_record;

use super::byte_packet_buffer::{
    be_bytes, carries, lemma_be_bytes_len, lemma_carries_more, splice, write_outcome, BUFFER_SIZE,
    BytePacketBuffer, BytePacketBufferError,
};
use super::name::{name_at, name_bytes, name_ok, name_text, name_wire};
use super::{u128_at, u16_at, u32_at, QRClass, QRType};
pub use a_record::DNSARecord;
pub use aaaa_record::DNSAAAARecord;
pub use caa_record::DNSCAARecord;
pub use cname_record::DNSCNAMERecord;
pub use mx_record::DNSMXRecord;
pub use ns_record::DNSNSRecord;
pub use ptr_record::DNSPTRRecord;
pub use soa_record::DNSSOARecord;
pub use srv_record::DNSSRVRecord;
pub use txt_record::DNSTXTRecord;
pub use unknown_record::DNSUNKNOWNRecord;
use vstd::prelude::*;
use vstd::string::*;

verus! {

/// What every record starts with: the name of its owner, its type, its class,
/// how long it may be kept, and the length of its data.
#[derive(Debug, PartialEq, Eq)]
pub struct DNSRecordPreamble {
    pub name: String,
    pub rtype: QRType,
    pub class: QRClass,
    pub ttl: u32,
    /// The length of the data as it was read. A write measures the data
    /// anew and does not look at this field.
    pub rdlength: u16,
}

/// What a preamble holds.
pub struct PreambleModel {
    pub name: Seq<char>,
    pub rtype: QRType,
    pub class: QRClass,
    pub ttl: u32,
    pub rdlength: u16,
}

impl View for DNSRecordPreamble {
    type V = PreambleModel;

    open spec fn view(&self) -> PreambleModel {
        PreambleModel {
            name: self.name@,
            rtype: self.rtype,
            class: self.class,
            ttl: self.ttl,
            rdlength: self.rdlength,
        }
    }
}

/// The data of a record, by type.
pub enum RData {
    A(u32),
    NS(Seq<char>),
    CNAME(Seq<char>),
    SOA {
        mname: Seq<char>,
        rname: Seq<char>,
        serial: u32,
        refresh: u32,
        retry: u32,
        expire: u32,
        minimum: u32,
    },
    PTR(Seq<char>),
    MX { preference: u16, exchange: Seq<char> },
    TXT(Seq<u8>),
    AAAA(u128),
    SRV { priority: u16, weight: u16, port: u16, target: Seq<char> },
    CAA { flags: u8, tag: Seq<u8>, value: Seq<u8> },
    UNKNOWN,
}

/// What a record holds.
pub struct RecordModel {
    pub preamble: PreambleModel,
    pub data: RData,
}

/// The number of octets in a preamble behind the name.
pub const PREAMBLE_TAIL: usize = 10;

/// The longest CAA tag that can be written.
pub const MAX_TAG: usize = 255;

/// The start of a record on the wire: the name, the type, the class and the
/// time to live.
pub open spec fn head_wire(p: PreambleModel) -> Seq<u8> {
    name_wire(name_bytes(p.name)) + be_bytes(p.rtype.code() as nat, 2) + be_bytes(
        p.class.code() as nat,
        2,
    ) + be_bytes(p.ttl as nat, 4)
}

/// A preamble on the wire, with the length that it holds.
pub open spec fn preamble_wire(p: PreambleModel) -> Seq<u8> {
    head_wire(p) + be_bytes(p.rdlength as nat, 2)
}

/// The data of a record on the wire.
pub open spec fn rdata_wire(d: RData) -> Seq<u8> {
    match d {
        RData::A(address) => be_bytes(address as nat, 4),
        RData::NS(host) => name_wire(name_bytes(host)),
        RData::CNAME(host) => name_wire(name_bytes(host)),
        RData::SOA { mname, rname, serial, refresh, retry, expire, minimum } => name_wire(
            name_bytes(mname),
        ) + name_wire(name_bytes(rname)) + be_bytes(serial as nat, 4) + be_bytes(
            refresh as nat,
            4,
        ) + be_bytes(retry as nat, 4) + be_bytes(expire as nat, 4) + be_bytes(minimum as nat, 4),
        RData::PTR(host) => name_wire(name_bytes(host)),
        RData::MX { preference, exchange } => be_bytes(preference as nat, 2) + name_wire(
            name_bytes(exchange),
        ),
        RData::TXT(text) => text,
        RData::AAAA(address) => be_bytes(address as nat, 16),
        RData::SRV { priority, weight, port, target } => be_bytes(priority as nat, 2) + be_bytes(
            weight as nat,
            2,
        ) + be_bytes(port as nat, 2) + name_wire(name_bytes(target)),
        RData::CAA { flags, tag, value } => seq![flags, tag.len() as u8] + tag + value,
        RData::UNKNOWN => Seq::empty(),
    }
}

/// Why the data of a record cannot be written, if it cannot.
pub open spec fn rdata_problem(d: RData) -> Option<BytePacketBufferError> {
    match d {
        RData::NS(host) => bad_name(host),
        RData::CNAME(host) => bad_name(host),
        RData::SOA { mname, rname, .. } => if name_ok(mname) {
            bad_name(rname)
        } else {
            bad_name(mname)
        },
        RData::PTR(host) => bad_name(host),
        RData::MX { exchange, .. } => bad_name(exchange),
        RData::SRV { target, .. } => bad_name(target),
        RData::CAA { tag, .. } => if tag.len() > MAX_TAG {
            Some(BytePacketBufferError::InvalidTagLength)
        } else {
            None
        },
        _ => None,
    }
}

/// The error for a name that cannot be written.
pub open spec fn bad_name(name: Seq<char>) -> Option<BytePacketBufferError> {
    if name_ok(name) {
        None
    } else {
        Some(BytePacketBufferError::InvalidDomainNameFormat)
    }
}

/// A record on the wire: its preamble with the length of the data, then the
/// data.
pub open spec fn record_wire(m: RecordModel) -> Seq<u8> {
    head_wire(m.preamble) + be_bytes(rdata_wire(m.data).len(), 2) + rdata_wire(m.data)
}

/// Why a record cannot be written, if it cannot.
pub open spec fn record_problem(m: RecordModel) -> Option<BytePacketBufferError> {
    if name_ok(m.preamble.name) {
        rdata_problem(m.data)
    } else {
        Some(BytePacketBufferError::InvalidDomainNameFormat)
    }
}

/// A record on the wire is as long as its head, two octets and its data.
pub proof fn lemma_record_wire_len(m: RecordModel)
    ensures
        record_wire(m).len() == head_wire(m.preamble).len() + 2 + rdata_wire(m.data).len(),
{
    lemma_be_bytes_len(rdata_wire(m.data).len(), 2);
}

/// The preamble that stands at `pos` in `buf`, and where it ends.
pub open spec fn preamble_at(buf: Seq<u8>, pos: int) -> Result<
    (PreambleModel, int),
    BytePacketBufferError,
> {
    match name_at(buf, pos, 0) {
        Err(e) => Err(e),
        Ok(walk) => if walk.end + PREAMBLE_TAIL > buf.len() {
            Err(BytePacketBufferError::UnexpectedEof)
        } else {
            match QRClass::from_code(u16_at(buf, walk.end + 2)) {
                None => Err(BytePacketBufferError::UnknownClass),
                Some(class) => Ok(
                    (
                        PreambleModel {
                            name: name_text(walk.labels),
                            rtype: QRType::from_code(u16_at(buf, walk.end)),
                            class,
                            ttl: u32_at(buf, walk.end + 4),
                            rdlength: u16_at(buf, walk.end + 8),
                        },
                        walk.end + PREAMBLE_TAIL,
                    ),
                ),
            }
        },
    }
}

/// The text of the name that stands at `p` in `buf`, and where the cursor
/// stands behind it.
pub open spec fn text_at(buf: Seq<u8>, p: int) -> Result<(Seq<char>, int), BytePacketBufferError> {
    match name_at(buf, p, 0) {
        Err(e) => Err(e),
        Ok(walk) => Ok((name_text(walk.labels), walk.end)),
    }
}

/// The data of an MX record at `p`: a preference, then a name.
pub open spec fn mx_at(buf: Seq<u8>, p: int) -> Result<(RData, int), BytePacketBufferError> {
    if p + 2 > buf.len() {
        Err(BytePacketBufferError::UnexpectedEof)
    } else {
        match text_at(buf, p + 2) {
            Err(e) => Err(e),
            Ok((exchange, end)) => Ok((RData::MX { preference: u16_at(buf, p), exchange }, end)),
        }
    }
}

/// The data of an SOA record at `p`: two names, then five numbers of four
/// octets.
pub open spec fn soa_at(buf: Seq<u8>, p: int) -> Result<(RData, int), BytePacketBufferError> {
    match text_at(buf, p) {
        Err(e) => Err(e),
        Ok((mname, q)) => match text_at(buf, q) {
            Err(e) => Err(e),
            Ok((rname, n)) => if n + 20 > buf.len() {
                Err(BytePacketBufferError::UnexpectedEof)
            } else {
                Ok(
                    (
                        RData::SOA {
                            mname,
                            rname,
                            serial: u32_at(buf, n),
                            refresh: u32_at(buf, n + 4),
                            retry: u32_at(buf, n + 8),
                            expire: u32_at(buf, n + 12),
                            minimum: u32_at(buf, n + 16),
                        },
                        n + 20,
                    ),
                )
            },
        },
    }
}

/// The data of an SRV record at `p`: three numbers of two octets, then a
/// name.
pub open spec fn srv_at(buf: Seq<u8>, p: int) -> Result<(RData, int), BytePacketBufferError> {
    if p + 6 > buf.len() {
        Err(BytePacketBufferError::UnexpectedEof)
    } else {
        match text_at(buf, p + 6) {
            Err(e) => Err(e),
            Ok((target, end)) => Ok(
                (
                    RData::SRV {
                        priority: u16_at(buf, p),
                        weight: u16_at(buf, p + 2),
                        port: u16_at(buf, p + 4),
                        target,
                    },
                    end,
                ),
            ),
        }
    }
}

/// The data of a CAA record of `rdlength` octets at `p`: the flags, the
/// length of the tag, the tag, and the value in the octets that are left.
pub open spec fn caa_at(buf: Seq<u8>, p: int, rdlength: u16) -> Result<
    (RData, int),
    BytePacketBufferError,
> {
    if p + 2 > buf.len() || rdlength < 2 + buf[p + 1] || p + rdlength > buf.len() {
        Err(BytePacketBufferError::UnexpectedEof)
    } else {
        Ok(
            (
                RData::CAA {
                    flags: buf[p],
                    tag: buf.subrange(p + 2, p + 2 + buf[p + 1]),
                    value: buf.subrange(p + 2 + buf[p + 1], p + rdlength),
                },
                p + rdlength,
            ),
        )
    }
}

/// The data of a record of type `rtype` and of `rdlength` octets that stands
/// at `p` in `buf`, and where the cursor stands behind it.
pub open spec fn rdata_at(buf: Seq<u8>, p: int, rtype: QRType, rdlength: u16) -> Result<
    (RData, int),
    BytePacketBufferError,
> {
    match rtype {
        QRType::A => if p + 4 > buf.len() {
            Err(BytePacketBufferError::UnexpectedEof)
        } else {
            Ok((RData::A(u32_at(buf, p)), p + 4))
        },
        QRType::AAAA => if p + 16 > buf.len() {
            Err(BytePacketBufferError::UnexpectedEof)
        } else {
            Ok((RData::AAAA(u128_at(buf, p)), p + 16))
        },
        QRType::NS => match text_at(buf, p) {
            Err(e) => Err(e),
            Ok((host, end)) => Ok((RData::NS(host), end)),
        },
        QRType::CNAME => match text_at(buf, p) {
            Err(e) => Err(e),
            Ok((host, end)) => Ok((RData::CNAME(host), end)),
        },
        QRType::PTR => match text_at(buf, p) {
            Err(e) => Err(e),
            Ok((host, end)) => Ok((RData::PTR(host), end)),
        },
        QRType::MX => mx_at(buf, p),
        QRType::SOA => soa_at(buf, p),
        QRType::SRV => srv_at(buf, p),
        QRType::TXT => if p + rdlength > buf.len() {
            Err(BytePacketBufferError::UnexpectedEof)
        } else {
            Ok((RData::TXT(buf.subrange(p, p + rdlength)), p + rdlength))
        },
        QRType::CAA => caa_at(buf, p, rdlength),
        QRType::UNKNOWN(_) => if p + rdlength > buf.len() {
            Err(BytePacketBufferError::UnexpectedEof)
        } else {
            Ok((RData::UNKNOWN, p + rdlength))
        },
    }
}

/// The record that stands at `pos` in `buf`, and where it ends.
pub open spec fn record_at(buf: Seq<u8>, pos: int) -> Result<
    (RecordModel, int),
    BytePacketBufferError,
> {
    match preamble_at(buf, pos) {
        Err(e) => Err(e),
        Ok((preamble, p)) => match rdata_at(buf, p, preamble.rtype, preamble.rdlength) {
            Err(e) => Err(e),
            Ok((data, end)) => Ok((RecordModel { preamble, data }, end)),
        },
    }
}

/// What reading the data of one record comes to: the record and the cursor
/// behind it, or the error and nothing changed.
pub open spec fn read_outcome(
    before: BytePacketBuffer,
    after: BytePacketBuffer,
    r: Result<DNSRecord, BytePacketBufferError>,
    preamble: PreambleModel,
    expected: Result<(RData, int), BytePacketBufferError>,
) -> bool {
    &&& after.buf == before.buf
    &&& match expected {
        Ok((data, end)) => r is Ok && r->Ok_0@ == (RecordModel { preamble, data }) && after.pos
            == end,
        Err(e) => r == Err::<DNSRecord, BytePacketBufferError>(e) && after.pos == before.pos,
    }
}

impl DNSRecordPreamble {
    /// A preamble with these five fields.
    pub fn new(name: String, rtype: QRType, class: QRClass, ttl: u32, rdlength: u16) -> (p:
        DNSRecordPreamble)
        ensures
            p.name == name,
            p.rtype == rtype,
            p.class == class,
            p.ttl == ttl,
            p.rdlength == rdlength,
    {
        DNSRecordPreamble { name, rtype, class, ttl, rdlength }
    }

    /// Reads the preamble under the cursor and moves the cursor past it.
    /// Where no preamble can be read, nothing changes.
    pub fn read(buffer: &mut BytePacketBuffer) -> (r: Result<
        DNSRecordPreamble,
        BytePacketBufferError,
    >)
        ensures
            old(buffer).wf() ==> final(buffer).wf(),
            final(buffer).buf == old(buffer).buf,
            match preamble_at(old(buffer).buf@, old(buffer).pos as int) {
                Ok((p, end)) => r is Ok && r->Ok_0@ == p && final(buffer).pos == end,
                Err(e) => r == Err::<DNSRecordPreamble, BytePacketBufferError>(e)
                    && final(buffer).pos == old(buffer).pos,
            },
    {
        let start: usize = buffer.pos;
        let mut name: String = String::new();
        match buffer.read_qname(&mut name) {
            Ok(()) => {},
            Err(e) => {
                return Err(e);
            },
        }
        if buffer.pos > BUFFER_SIZE - PREAMBLE_TAIL {
            buffer.pos = start;
            return Err(BytePacketBufferError::UnexpectedEof);
        }
        let type_code: u16 = match buffer.read_u16() {
            Ok(v) => v,
            Err(e) => {
                buffer.pos = start;
                return Err(e);
            },
        };
        let class_code: u16 = match buffer.read_u16() {
            Ok(v) => v,
            Err(e) => {
                buffer.pos = start;
                return Err(e);
            },
        };
        let ttl: u32 = match buffer.read_u32() {
            Ok(v) => v,
            Err(e) => {
                buffer.pos = start;
                return Err(e);
            },
        };
        let rdlength: u16 = match buffer.read_u16() {
            Ok(v) => v,
            Err(e) => {
                buffer.pos = start;
                return Err(e);
            },
        };
        let class: QRClass = match QRClass::from_u16(class_code) {
            Some(c) => c,
            None => {
                buffer.pos = start;
                return Err(BytePacketBufferError::UnknownClass);
            },
        };
        Ok(DNSRecordPreamble { name, rtype: QRType::from_u16(type_code), class, ttl, rdlength })
    }

    /// Writes the preamble under the cursor, with the length that it holds,
    /// and moves the cursor past it. Nothing is written where the name has a
    /// label of more than 63 octets, or where the preamble does not fit.
    pub fn write(&self, buffer: &mut BytePacketBuffer) -> (r: Result<(), BytePacketBufferError>)
        ensures
            old(buffer).wf() ==> final(buffer).wf(),
            write_outcome(
                *old(buffer),
                *final(buffer),
                r,
                bad_name(self@.name),
                preamble_wire(self@),
            ),
    {
        write_preamble(
            buffer,
            self.name.as_str(),
            self.rtype,
            self.class,
            self.ttl,
            self.rdlength,
        )
    }
}

/// Writes a preamble with these fields under the cursor and moves the cursor
/// past it. Nothing is written where the name has a label of more than 63
/// octets, or where the preamble does not fit.
pub fn write_preamble(
    buffer: &mut BytePacketBuffer,
    name: &str,
    rtype: QRType,
    class: QRClass,
    ttl: u32,
    rdlength: u16,
) -> (r: Result<(), BytePacketBufferError>)
    ensures
        old(buffer).wf() ==> final(buffer).wf(),
        write_outcome(
            *old(buffer),
            *final(buffer),
            r,
            bad_name(name@),
            preamble_wire(PreambleModel { name: name@, rtype, class, ttl, rdlength }),
        ),
{
    let saved: BytePacketBuffer = BytePacketBuffer { buf: buffer.buf, pos: buffer.pos };
    let ghost start = buffer.pos as int;
    let ghost w0 = name_wire(name_bytes(name@));
    let ghost w1 = be_bytes(rtype.code() as nat, 2);
    let ghost w2 = be_bytes(class.code() as nat, 2);
    let ghost w3 = be_bytes(ttl as nat, 4);
    let ghost w4 = be_bytes(rdlength as nat, 2);
    proof {
        lemma_be_bytes_len(rtype.code() as nat, 2);
        lemma_be_bytes_len(class.code() as nat, 2);
        lemma_be_bytes_len(ttl as nat, 4);
        lemma_be_bytes_len(rdlength as nat, 2);
    }
    match buffer.write_qname(name) {
        Ok(()) => {},
        Err(e) => {
            return Err(e);
        },
    }
    let ghost b0 = *buffer;
    match buffer.write_u16(rtype.to_u16()) {
        Ok(()) => {},
        Err(e) => {
            *buffer = saved;
            return Err(e);
        },
    }
    let ghost b1 = *buffer;
    proof {
        lemma_carries_more(b1, b0, saved, start, w0, w1);
    }
    match buffer.write_u16(QRClass::to_u16(&class)) {
        Ok(()) => {},
        Err(e) => {
            *buffer = saved;
            return Err(e);
        },
    }
    let ghost b2 = *buffer;
    proof {
        lemma_carries_more(b2, b1, saved, start, w0 + w1, w2);
    }
    match buffer.write_u32(ttl) {
        Ok(()) => {},
        Err(e) => {
            *buffer = saved;
            return Err(e);
        },
    }
    let ghost b3 = *buffer;
    proof {
        lemma_carries_more(b3, b2, saved, start, w0 + w1 + w2, w3);
    }
    match buffer.write_u16(rdlength) {
        Ok(()) => {},
        Err(e) => {
            *buffer = saved;
            return Err(e);
        },
    }
    proof {
        lemma_carries_more(*buffer, b3, saved, start, w0 + w1 + w2 + w3, w4);
    }
    Ok(())
}

/// Writes the length of the data over the two octets in front of the data,
/// once the data has been written: the data lies from `data_start` up to
/// the cursor.
pub(crate) fn patch_rdlength(buffer: &mut BytePacketBuffer, data_start: usize) -> (r: Result<
    (),
    BytePacketBufferError,
>)
    requires
        2 <= data_start <= old(buffer).pos <= BUFFER_SIZE,
    ensures
        old(buffer).wf() ==> final(buffer).wf(),
        r == Ok::<(), BytePacketBufferError>(()),
        final(buffer).pos == old(buffer).pos,
        final(buffer).buf@ == splice(
            old(buffer).buf@,
            data_start - 2,
            be_bytes((old(buffer).pos - data_start) as nat, 2),
        ),
{
    let end: usize = buffer.pos();
    let length: usize = end - data_start;
    match buffer.seek(data_start - 2) {
        Ok(()) => {},
        Err(e) => {
            return Err(e);
        },
    }
    match buffer.write_u16(length as u16) {
        Ok(()) => {},
        Err(e) => {
            return Err(e);
        },
    }
    buffer.seek(end)
}

/// Once the length has been patched, the buffer carries the record with the
/// measured length in place of the one written first.
pub proof fn lemma_patched(
    after: BytePacketBuffer,
    mid: BytePacketBuffer,
    before: BytePacketBuffer,
    start: int,
    head: Seq<u8>,
    first: Seq<u8>,
    length: Seq<u8>,
    data: Seq<u8>,
)
    requires
        carries(mid, before, start, head + first + data),
        first.len() == 2,
        length.len() == 2,
        after.pos == mid.pos,
        after.buf@ == splice(mid.buf@, start + head.len(), length),
    ensures
        carries(after, before, start, head + length + data),
{
    assert(after.buf@ =~= splice(before.buf@, start, head + length + data));
}

/// A resource record of one of the types that this library knows, or of
/// another type.
#[derive(Debug, PartialEq, Eq)]
pub enum DNSRecord {
    A(DNSARecord),
    CNAME(DNSCNAMERecord),
    NS(DNSNSRecord),
    MX(DNSMXRecord),
    TXT(DNSTXTRecord),
    AAAA(DNSAAAARecord),
    SOA(DNSSOARecord),
    CAA(DNSCAARecord),
    SRV(DNSSRVRecord),
    PTR(DNSPTRRecord),
    UNKNOWN(DNSUNKNOWNRecord),
}

impl View for DNSRecord {
    type V = RecordModel;

    open spec fn view(&self) -> RecordModel {
        match self {
            DNSRecord::A(r) => r@,
            DNSRecord::CNAME(r) => r@,
            DNSRecord::NS(r) => r@,
            DNSRecord::MX(r) => r@,
            DNSRecord::TXT(r) => r@,
            DNSRecord::AAAA(r) => r@,
            DNSRecord::SOA(r) => r@,
            DNSRecord::CAA(r) => r@,
            DNSRecord::SRV(r) => r@,
            DNSRecord::PTR(r) => r@,
            DNSRecord::UNKNOWN(r) => r@,
        }
    }
}

impl DNSRecord {
    /// Reads the record under the cursor and moves the cursor past it. A
    /// record of a type that is not known keeps its type code and loses its
    /// data. Where no record can be read, nothing changes.
    pub fn read(buffer: &mut BytePacketBuffer) -> (r: Result<DNSRecord, BytePacketBufferError>)
        ensures
            old(buffer).wf() ==> final(buffer).wf(),
            final(buffer).buf == old(buffer).buf,
            match record_at(old(buffer).buf@, old(buffer).pos as int) {
                Ok((m, end)) => r is Ok && r->Ok_0@ == m && final(buffer).pos == end,
                Err(e) => r == Err::<DNSRecord, BytePacketBufferError>(e) && final(buffer).pos
                    == old(buffer).pos,
            },
    {
        let start: usize = buffer.pos;
        let preamble: DNSRecordPreamble = match DNSRecordPreamble::read(buffer) {
            Ok(p) => p,
            Err(e) => {
                return Err(e);
            },
        };
        let domain: String = preamble.name;
        let qclass: QRClass = preamble.class;
        let ttl: u32 = preamble.ttl;
        let data_len: u16 = preamble.rdlength;
        let read: Result<DNSRecord, BytePacketBufferError> = match preamble.rtype {
            QRType::A => DNSARecord::read(buffer, domain, qclass, ttl, data_len),
            QRType::CNAME => DNSCNAMERecord::read(buffer, domain, qclass, ttl, data_len),
            QRType::NS => DNSNSRecord::read(buffer, domain, qclass, ttl, data_len),
            QRType::MX => DNSMXRecord::read(buffer, domain, qclass, ttl, data_len),
            QRType::TXT => DNSTXTRecord::read(buffer, domain, qclass, ttl, data_len),
            QRType::AAAA => DNSAAAARecord::read(buffer, domain, qclass, ttl, data_len),
            QRType::SOA => DNSSOARecord::read(buffer, domain, qclass, ttl, data_len),
            QRType::CAA => DNSCAARecord::read(buffer, domain, qclass, ttl, data_len),
            QRType::SRV => DNSSRVRecord::read(buffer, domain, qclass, ttl, data_len),
            QRType::PTR => DNSPTRRecord::read(buffer, domain, qclass, ttl, data_len),
            QRType::UNKNOWN(code) => DNSUNKNOWNRecord::read(
                buffer,
                domain,
                code,
                qclass,
                ttl,
                data_len,
            ),
        };
        match read {
            Ok(record) => Ok(record),
            Err(e) => {
                buffer.pos = start;
                Err(e)
            },
        }
    }

    /// Why the record cannot be written whatever room there is, if it cannot.
    pub fn problem(&self) -> (r: Option<BytePacketBufferError>)
        ensures
            r == record_problem(self@),
    {
        match self {
            DNSRecord::A(record) => record.problem(),
            DNSRecord::CNAME(record) => record.problem(),
            DNSRecord::NS(record) => record.problem(),
            DNSRecord::MX(record) => record.problem(),
            DNSRecord::TXT(record) => record.problem(),
            DNSRecord::AAAA(record) => record.problem(),
            DNSRecord::SOA(record) => record.problem(),
            DNSRecord::CAA(record) => record.problem(),
            DNSRecord::SRV(record) => record.problem(),
            DNSRecord::PTR(record) => record.problem(),
            DNSRecord::UNKNOWN(record) => record.problem(),
        }
    }

    /// Writes the record under the cursor, with the length of its data as
    /// measured, and moves the cursor past it. Nothing is written where a
    /// name has a label of more than 63 octets, where a CAA tag has more than
    /// 255, or where the record does not fit.
    pub fn write(&self, buffer: &mut BytePacketBuffer) -> (r: Result<(), BytePacketBufferError>)
        ensures
            old(buffer).wf() ==> final(buffer).wf(),
            write_outcome(
                *old(buffer),
                *final(buffer),
                r,
                record_problem(self@),
                record_wire(self@),
            ),
    {
        match self {
            DNSRecord::A(record) => record.write(buffer),
            DNSRecord::CNAME(record) => record.write(buffer),
            DNSRecord::NS(record) => record.write(buffer),
            DNSRecord::MX(record) => record.write(buffer),
            DNSRecord::TXT(record) => record.write(buffer),
            DNSRecord::AAAA(record) => record.write(buffer),
            DNSRecord::SOA(record) => record.write(buffer),
            DNSRecord::CAA(record) => record.write(buffer),
            DNSRecord::SRV(record) => record.write(buffer),
            DNSRecord::PTR(record) => record.write(buffer),
            DNSRecord::UNKNOWN(record) => record.write(buffer),
        }
    }
}

} // verus!
