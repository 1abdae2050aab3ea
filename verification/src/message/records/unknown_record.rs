//! A record of a type that this library does not know.

use super::super::byte_packet_buffer::{
    be_bytes, lemma_be_bytes_len, write_outcome, BytePacketBuffer, BytePacketBufferError,
};
use super::super::name::is_writable;
use super::super::{QRClass, QRType};
use super::{
    head_wire, lemma_record_wire_len, rdata_at, read_outcome, record_problem, record_wire,
    write_preamble, DNSRecord, DNSRecordPreamble, PreambleModel, RData, RecordModel,
};
use vstd::prelude::*;
use vstd::string::*;

verus! {

/// A record of a type that is not known: its preamble, with the code of the
/// type, and none of its data.
#[derive(Debug, PartialEq, Eq)]
pub struct DNSUNKNOWNRecord {
    pub preamble: DNSRecordPreamble,
}

impl View for DNSUNKNOWNRecord {
    type V = RecordModel;

    open spec fn view(&self) -> RecordModel {
        RecordModel { preamble: self.preamble@, data: RData::UNKNOWN }
    }
}

impl DNSUNKNOWNRecord {
    /// A record for `name` of the type with this code, without data.
    pub fn new(name: String, code: u16, class: QRClass, ttl: u32) -> (r: DNSUNKNOWNRecord)
        ensures
            r.preamble.name == name,
            r.preamble.rtype == QRType::UNKNOWN(code),
            r.preamble.class == class,
            r.preamble.ttl == ttl,
            r.preamble.rdlength == 0,
    {
        DNSUNKNOWNRecord {
            preamble: DNSRecordPreamble::new(name, QRType::UNKNOWN(code), class, ttl, 0),
        }
    }

    /// Reads the data of an unknown record from under the cursor and moves the cursor past
    /// it; `domain`, `qclass`, `ttl` and `data_len` are what the preamble held.
    /// Where the data cannot be read, nothing changes.
    pub fn read(
        buffer: &mut BytePacketBuffer,
        domain: String,
        code: u16,
        qclass: QRClass,
        ttl: u32,
        data_len: u16,
    ) -> (r: Result<DNSRecord, BytePacketBufferError>)
        ensures
            old(buffer).wf() ==> final(buffer).wf(),
            read_outcome(
                *old(buffer),
                *final(buffer),
                r,
                PreambleModel {
                    name: domain@,
                    rtype: QRType::UNKNOWN(code),
                    class: qclass,
                    ttl,
                    rdlength: data_len,
                },
                rdata_at(old(buffer).buf@, old(buffer).pos as int, QRType::UNKNOWN(code), data_len),
            ),
    {
        match buffer.step(data_len as usize) {
            Ok(()) => Ok(
                DNSRecord::UNKNOWN(
                    DNSUNKNOWNRecord {
                        preamble: DNSRecordPreamble::new(
                            domain,
                            QRType::UNKNOWN(code),
                            qclass,
                            ttl,
                            data_len,
                        ),
                    },
                ),
            ),
            Err(e) => Err(e),
        }
    }

    /// Why the record cannot be written whatever room there is, if it cannot.
    pub fn problem(&self) -> (r: Option<BytePacketBufferError>)
        ensures
            r == record_problem(self@),
    {
        if !is_writable(self.preamble.name.as_str()) {
            return Some(BytePacketBufferError::InvalidDomainNameFormat);
        }
        None
    }

    /// Writes the record under the cursor and moves the cursor past it. No data is
    /// written, and the length of the data is written as zero. Nothing is written
    /// where the name has a label of more than 63 octets, or where the record does
    /// not fit.
    pub fn write(&self, buffer: &mut BytePacketBuffer) -> (r: Result<(), BytePacketBufferError>)
        ensures
            old(buffer).wf() ==> final(buffer).wf(),
            write_outcome(
                *old(buffer),
                *final(buffer),
                r,
                record_problem(self@),
                record_wire(self@),
            ),
    {
        match self.problem() {
            Some(e) => {
                return Err(e);
            },
            None => {},
        }
        let saved: BytePacketBuffer = BytePacketBuffer { buf: buffer.buf, pos: buffer.pos };
        let ghost head = head_wire(self.preamble@);
        proof {
            lemma_record_wire_len(self@);
        }
        match write_preamble(
            buffer,
            self.preamble.name.as_str(),
            self.preamble.rtype,
            self.preamble.class,
            self.preamble.ttl,
            0,
        ) {
            Ok(()) => {},
            Err(e) => {
                return Err(e);
            },
        }
        let ghost first = be_bytes(0 as nat, 2);
        let ghost mut written = head + first;
        proof {
            lemma_be_bytes_len(0 as nat, 2);
        }
        proof {
            assert(written =~= record_wire(self@));
        }
        Ok(())
    }
}

} // verus!
