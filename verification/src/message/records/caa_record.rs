//! The CAA record: which certification authorities may issue for a name.

use super::super::byte_packet_buffer::{
    be_bytes, lemma_be_bytes_len, lemma_carries_more, write_outcome, BUFFER_SIZE, BytePacketBuffer,
    BytePacketBufferError,
};
use super::super::name::is_writable;
use super::super::{QRClass, QRType};
use super::{
    head_wire, lemma_patched, lemma_record_wire_len, patch_rdlength, rdata_at, rdata_wire,
    read_outcome, record_problem, record_wire, write_preamble, MAX_TAG, DNSRecord,
    DNSRecordPreamble, PreambleModel, RData, RecordModel,
};
use vstd::prelude::*;
use vstd::string::*;

verus! {

/// A record that holds one property of the certification authority
/// authorization of a name: flags, a tag, and a value.
#[derive(Debug, PartialEq, Eq)]
pub struct DNSCAARecord {
    pub preamble: DNSRecordPreamble,
    /// The flags; the high bit marks a property that an issuer must understand.
    pub flags: u8,
    /// The name of the property, in ASCII.
    pub tag: Vec<u8>,
    /// The value of the property: the octets of the data behind the tag.
    pub value: Vec<u8>,
}

impl View for DNSCAARecord {
    type V = RecordModel;

    open spec fn view(&self) -> RecordModel {
        RecordModel {
            preamble: self.preamble@,
            data: RData::CAA { flags: self.flags, tag: self.tag@, value: self.value@ },
        }
    }
}

impl DNSCAARecord {
    /// A CAA record for `name`.
    pub fn new(name: String,
        class: QRClass,
        ttl: u32,
        flags: u8,
        tag: Vec<u8>,
        value: Vec<u8>,
    ) -> (r: DNSCAARecord)
        ensures
            r.preamble.name == name,
            r.preamble.rtype == QRType::CAA,
            r.preamble.class == class,
            r.preamble.ttl == ttl,
            r.preamble.rdlength == 0,
            r.flags == flags,
            r.tag == tag,
            r.value == value,
    {
        DNSCAARecord {
            preamble: DNSRecordPreamble::new(name, QRType::CAA, class, ttl, 0),
            flags,
            tag,
            value,
        }
    }

    /// Reads the data of a CAA record from under the cursor and moves the cursor past
    /// it; `domain`, `qclass`, `ttl` and `data_len` are what the preamble held.
    /// Where the data cannot be read, nothing changes.
    pub fn read(
        buffer: &mut BytePacketBuffer,
        domain: String,
        qclass: QRClass,
        ttl: u32,
        data_len: u16,
    ) -> (r: Result<DNSRecord, BytePacketBufferError>)
        ensures
            old(buffer).wf() ==> final(buffer).wf(),
            read_outcome(
                *old(buffer),
                *final(buffer),
                r,
                PreambleModel {
                    name: domain@,
                    rtype: QRType::CAA,
                    class: qclass,
                    ttl,
                    rdlength: data_len,
                },
                rdata_at(old(buffer).buf@, old(buffer).pos as int, QRType::CAA, data_len),
            ),
    {
        let start: usize = buffer.pos;
        let length: usize = data_len as usize;
        if start > BUFFER_SIZE - 2 {
            return Err(BytePacketBufferError::UnexpectedEof);
        }
        let tag_len: usize = buffer.buf[start + 1] as usize;
        if length < 2 + tag_len || length > BUFFER_SIZE - start {
            return Err(BytePacketBufferError::UnexpectedEof);
        }
        let flags: u8 = match buffer.read_u8() {
            Ok(v) => v,
            Err(e) => {
                buffer.pos = start;
                return Err(e);
            },
        };
        match buffer.step(1) {
            Ok(()) => {},
            Err(e) => {
                buffer.pos = start;
                return Err(e);
            },
        }
        let tag: Vec<u8> = match buffer.read_bytes(tag_len) {
            Ok(v) => v,
            Err(e) => {
                buffer.pos = start;
                return Err(e);
            },
        };
        let value: Vec<u8> = match buffer.read_bytes(length - 2 - tag_len) {
            Ok(v) => v,
            Err(e) => {
                buffer.pos = start;
                return Err(e);
            },
        };
        Ok(
            DNSRecord::CAA(
                DNSCAARecord {
                    preamble: DNSRecordPreamble::new(domain, QRType::CAA, qclass, ttl, data_len),
                    flags,
                    tag,
                    value,
                },
            ),
        )
    }

    /// Why the record cannot be written whatever room there is, if it cannot.
    pub fn problem(&self) -> (r: Option<BytePacketBufferError>)
        ensures
            r == record_problem(self@),
    {
        if !is_writable(self.preamble.name.as_str()) {
            return Some(BytePacketBufferError::InvalidDomainNameFormat);
        }
        if self.tag.len() > MAX_TAG {
            return Some(BytePacketBufferError::InvalidTagLength);
        }
        None
    }

    /// Writes the record under the cursor and moves the cursor past it. The
    /// length of the data is measured once the data is written. Nothing is
    /// written where the name has a label of more than 63 octets, where the tag
    /// has more than 255, or where the record does not fit.
    #[verifier::rlimit(50)]
    pub fn write(&self, buffer: &mut BytePacketBuffer) -> (r: Result<(), BytePacketBufferError>)
        ensures
            old(buffer).wf() ==> final(buffer).wf(),
            write_outcome(
                *old(buffer),
                *final(buffer),
                r,
                record_problem(self@),
                record_wire(self@),
            ),
    {
        match self.problem() {
            Some(e) => {
                return Err(e);
            },
            None => {},
        }
        let saved: BytePacketBuffer = BytePacketBuffer { buf: buffer.buf, pos: buffer.pos };
        let ghost start = buffer.pos as int;
        let ghost head = head_wire(self.preamble@);
        proof {
            lemma_record_wire_len(self@);
        }
        match write_preamble(
            buffer,
            self.preamble.name.as_str(),
            self.preamble.rtype,
            self.preamble.class,
            self.preamble.ttl,
            0,
        ) {
            Ok(()) => {},
            Err(e) => {
                return Err(e);
            },
        }
        let data_start: usize = buffer.pos();
        let ghost first = be_bytes(0 as nat, 2);
        let ghost mut at = *buffer;
        let ghost mut written = head + first;
        proof {
            lemma_be_bytes_len(0 as nat, 2);
        }
        match buffer.write_u8(self.flags) {
            Ok(()) => {},
            Err(e) => {
                *buffer = saved;
                return Err(e);
            },
        }
        proof {
            lemma_carries_more(*buffer, at, saved, start, written, seq![self.flags]);
            written = written + seq![self.flags];
            at = *buffer;
        }
        match buffer.write_u8(self.tag.len() as u8) {
            Ok(()) => {},
            Err(e) => {
                *buffer = saved;
                return Err(e);
            },
        }
        proof {
            lemma_carries_more(*buffer, at, saved, start, written, seq![self.tag@.len() as u8]);
            written = written + seq![self.tag@.len() as u8];
            at = *buffer;
        }
        match buffer.write_bytes(self.tag.as_slice()) {
            Ok(()) => {},
            Err(e) => {
                *buffer = saved;
                return Err(e);
            },
        }
        proof {
            lemma_carries_more(*buffer, at, saved, start, written, self.tag@);
            written = written + self.tag@;
            at = *buffer;
        }
        match buffer.write_bytes(self.value.as_slice()) {
            Ok(()) => {},
            Err(e) => {
                *buffer = saved;
                return Err(e);
            },
        }
        proof {
            lemma_carries_more(*buffer, at, saved, start, written, self.value@);
            written = written + self.value@;
            at = *buffer;
        }
        let ghost data = rdata_wire(self@.data);
        proof {
            assert(written =~= head + first + data);
        }
        match patch_rdlength(buffer, data_start) {
            Ok(()) => {},
            Err(e) => {
                return Err(e);
            },
        }
        proof {
            let length = be_bytes(data.len(), 2);
            lemma_be_bytes_len(data.len(), 2);
            lemma_patched(*buffer, at, saved, start, head, first, length, data);
        }
        Ok(())
    }
}

} // verus!
