//! The TXT record: text, held as the octets of the data.

use super::super::byte_packet_buffer::{
    be_bytes, lemma_be_bytes_len, lemma_carries_more, write_outcome, BUFFER_SIZE, BytePacketBuffer,
    BytePacketBufferError,
};
use super::super::name::is_writable;
use super::super::{QRClass, QRType};
use super::{
    head_wire, lemma_record_wire_len, rdata_at, read_outcome, record_problem, record_wire,
    write_preamble, DNSRecord, DNSRecordPreamble, PreambleModel, RData, RecordModel,
};
use vstd::prelude::*;
use vstd::string::*;

verus! {

/// A record that holds text. The text is the whole of the data, octet for
/// octet.
#[derive(Debug, PartialEq, Eq)]
pub struct DNSTXTRecord {
    pub preamble: DNSRecordPreamble,
    /// The octets of the data.
    pub text: Vec<u8>,
}

impl View for DNSTXTRecord {
    type V = RecordModel;

    open spec fn view(&self) -> RecordModel {
        RecordModel { preamble: self.preamble@, data: RData::TXT(self.text@) }
    }
}

impl DNSTXTRecord {
    /// A TXT record for `name` with this text.
    pub fn new(name: String, class: QRClass, ttl: u32, text: Vec<u8>) -> (r: DNSTXTRecord)
        ensures
            r.preamble.name == name,
            r.preamble.rtype == QRType::TXT,
            r.preamble.class == class,
            r.preamble.ttl == ttl,
            r.preamble.rdlength == 0,
            r.text == text,
    {
        DNSTXTRecord {
            preamble: DNSRecordPreamble::new(name, QRType::TXT, class, ttl, 0),
            text,
        }
    }

    /// Reads the data of a TXT record from under the cursor and moves the cursor past
    /// it; `domain`, `qclass`, `ttl` and `data_len` are what the preamble held.
    /// Where the data cannot be read, nothing changes.
    pub fn read(
        buffer: &mut BytePacketBuffer,
        domain: String,
        qclass: QRClass,
        ttl: u32,
        data_len: u16,
    ) -> (r: Result<DNSRecord, BytePacketBufferError>)
        ensures
            old(buffer).wf() ==> final(buffer).wf(),
            read_outcome(
                *old(buffer),
                *final(buffer),
                r,
                PreambleModel {
                    name: domain@,
                    rtype: QRType::TXT,
                    class: qclass,
                    ttl,
                    rdlength: data_len,
                },
                rdata_at(old(buffer).buf@, old(buffer).pos as int, QRType::TXT, data_len),
            ),
    {
        match buffer.read_bytes(data_len as usize) {
            Ok(text) => Ok(
                DNSRecord::TXT(
                    DNSTXTRecord {
                        preamble: DNSRecordPreamble::new(
                            domain, QRType::TXT, qclass, ttl, data_len,
                        ),
                        text,
                    },
                ),
            ),
            Err(e) => Err(e),
        }
    }

    /// Why the record cannot be written whatever room there is, if it cannot.
    pub fn problem(&self) -> (r: Option<BytePacketBufferError>)
        ensures
            r == record_problem(self@),
    {
        if !is_writable(self.preamble.name.as_str()) {
            return Some(BytePacketBufferError::InvalidDomainNameFormat);
        }
        None
    }

    /// Writes the record under the cursor and moves the cursor past it. Nothing is written
    /// where the name has a label of more than 63 octets, or where the record does
    /// not fit.
    pub fn write(&self, buffer: &mut BytePacketBuffer) -> (r: Result<(), BytePacketBufferError>)
        ensures
            old(buffer).wf() ==> final(buffer).wf(),
            write_outcome(
                *old(buffer),
                *final(buffer),
                r,
                record_problem(self@),
                record_wire(self@),
            ),
    {
        match self.problem() {
            Some(e) => {
                return Err(e);
            },
            None => {},
        }
        if self.text.len() > BUFFER_SIZE {
            return Err(BytePacketBufferError::Overflow);
        }
        let saved: BytePacketBuffer = BytePacketBuffer { buf: buffer.buf, pos: buffer.pos };
        let ghost start = buffer.pos as int;
        let ghost head = head_wire(self.preamble@);
        proof {
            lemma_record_wire_len(self@);
        }
        match write_preamble(
            buffer,
            self.preamble.name.as_str(),
            self.preamble.rtype,
            self.preamble.class,
            self.preamble.ttl,
            self.text.len() as u16,
        ) {
            Ok(()) => {},
            Err(e) => {
                return Err(e);
            },
        }
        let ghost first = be_bytes(self.text.len() as u16 as nat, 2);
        let ghost mut at = *buffer;
        let ghost mut written = head + first;
        proof {
            lemma_be_bytes_len(self.text.len() as u16 as nat, 2);
        }
        match buffer.write_bytes(self.text.as_slice()) {
            Ok(()) => {},
            Err(e) => {
                *buffer = saved;
                return Err(e);
            },
        }
        proof {
            lemma_carries_more(*buffer, at, saved, start, written, self.text@);
            written = written + self.text@;
            at = *buffer;
        }
        proof {
            assert(written =~= record_wire(self@));
        }
        Ok(())
    }
}

} // verus!
