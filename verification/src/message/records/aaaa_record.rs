//! The AAAA record: an IPv6 address.

use super::super::byte_packet_buffer::{
    be_bytes, lemma_be_bytes_len, lemma_carries_more, write_outcome, BytePacketBuffer,
    BytePacketBufferError,
};
use super::super::name::is_writable;
use super::super::{QRClass, QRType};
use super::{
    head_wire, lemma_record_wire_len, rdata_at, read_outcome, record_problem, record_wire,
    write_preamble, DNSRecord, DNSRecordPreamble, PreambleModel, RData, RecordModel,
};
use vstd::prelude::*;
use vstd::string::*;

verus! {

/// A record that gives the IPv6 address of a name.
#[derive(Debug, PartialEq, Eq)]
pub struct DNSAAAARecord {
    pub preamble: DNSRecordPreamble,
    /// The address, its sixteen octets in network order.
    pub address: u128,
}

impl View for DNSAAAARecord {
    type V = RecordModel;

    open spec fn view(&self) -> RecordModel {
        RecordModel { preamble: self.preamble@, data: RData::AAAA(self.address) }
    }
}

impl DNSAAAARecord {
    /// An AAAA record for `name` with this address.
    pub fn new(name: String, class: QRClass, ttl: u32, address: u128) -> (r: DNSAAAARecord)
        ensures
            r.preamble.name == name,
            r.preamble.rtype == QRType::AAAA,
            r.preamble.class == class,
            r.preamble.ttl == ttl,
            r.preamble.rdlength == 16,
            r.address == address,
    {
        DNSAAAARecord {
            preamble: DNSRecordPreamble::new(name, QRType::AAAA, class, ttl, 16),
            address,
        }
    }

    /// Reads the data of an AAAA record from under the cursor and moves the cursor past
    /// it; `domain`, `qclass`, `ttl` and `data_len` are what the preamble held.
    /// Where the data cannot be read, nothing changes.
    pub fn read(
        buffer: &mut BytePacketBuffer,
        domain: String,
        qclass: QRClass,
        ttl: u32,
        data_len: u16,
    ) -> (r: Result<DNSRecord, BytePacketBufferError>)
        ensures
            old(buffer).wf() ==> final(buffer).wf(),
            read_outcome(
                *old(buffer),
                *final(buffer),
                r,
                PreambleModel {
                    name: domain@,
                    rtype: QRType::AAAA,
                    class: qclass,
                    ttl,
                    rdlength: data_len,
                },
                rdata_at(old(buffer).buf@, old(buffer).pos as int, QRType::AAAA, data_len),
            ),
    {
        match buffer.read_u128() {
            Ok(address) => Ok(
                DNSRecord::AAAA(
                    DNSAAAARecord {
                        preamble: DNSRecordPreamble::new(
                            domain, QRType::AAAA, qclass, ttl, data_len,
                        ),
                        address,
                    },
                ),
            ),
            Err(e) => Err(e),
        }
    }

    /// Why the record cannot be written whatever room there is, if it cannot.
    pub fn problem(&self) -> (r: Option<BytePacketBufferError>)
        ensures
            r == record_problem(self@),
    {
        if !is_writable(self.preamble.name.as_str()) {
            return Some(BytePacketBufferError::InvalidDomainNameFormat);
        }
        None
    }

    /// Writes the record under the cursor and moves the cursor past it. Nothing is written
    /// where the name has a label of more than 63 octets, or where the record does
    /// not fit.
    pub fn write(&self, buffer: &mut BytePacketBuffer) -> (r: Result<(), BytePacketBufferError>)
        ensures
            old(buffer).wf() ==> final(buffer).wf(),
            write_outcome(
                *old(buffer),
                *final(buffer),
                r,
                record_problem(self@),
                record_wire(self@),
            ),
    {
        match self.problem() {
            Some(e) => {
                return Err(e);
            },
            None => {},
        }
        let saved: BytePacketBuffer = BytePacketBuffer { buf: buffer.buf, pos: buffer.pos };
        let ghost start = buffer.pos as int;
        let ghost head = head_wire(self.preamble@);
        proof {
            lemma_record_wire_len(self@);
            lemma_be_bytes_len(self.address as nat, 16);
        }
        match write_preamble(
            buffer,
            self.preamble.name.as_str(),
            self.preamble.rtype,
            self.preamble.class,
            self.preamble.ttl,
            16,
        ) {
            Ok(()) => {},
            Err(e) => {
                return Err(e);
            },
        }
        let ghost first = be_bytes(16 as nat, 2);
        let ghost mut at = *buffer;
        let ghost mut written = head + first;
        proof {
            lemma_be_bytes_len(16 as nat, 2);
        }
        match buffer.write_u128(self.address) {
            Ok(()) => {},
            Err(e) => {
                *buffer = saved;
                return Err(e);
            },
        }
        proof {
            lemma_carries_more(
                *buffer, at, saved, start, written, be_bytes(self.address as nat, 16),
            );
            written = written + be_bytes(self.address as nat, 16);
            at = *buffer;
        }
        proof {
            assert(written =~= record_wire(self@));
        }
        Ok(())
    }
}

} // verus!
