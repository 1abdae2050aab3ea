//! The NS record: the name of a name server.

use super::super::byte_packet_buffer::{
    be_bytes, lemma_be_bytes_len, lemma_carries_more, write_outcome, BytePacketBuffer,
    BytePacketBufferError,
};
use super::super::name::{is_writable, name_bytes, name_wire};
use super::super::{QRClass, QRType};
use super::{
    head_wire, lemma_patched, lemma_record_wire_len, patch_rdlength, rdata_at, rdata_wire,
    read_outcome, record_problem, record_wire, write_preamble, DNSRecord, DNSRecordPreamble,
    PreambleModel, RData, RecordModel,
};
use vstd::prelude::*;
use vstd::string::*;

verus! {

/// A record that names a server with authority over a zone.
#[derive(Debug, PartialEq, Eq)]
pub struct DNSNSRecord {
    pub preamble: DNSRecordPreamble,
    /// The name of the name server.
    pub rdata: String,
}

impl View for DNSNSRecord {
    type V = RecordModel;

    open spec fn view(&self) -> RecordModel {
        RecordModel { preamble: self.preamble@, data: RData::NS(self.rdata@) }
    }
}

impl DNSNSRecord {
    /// An NS record for `name` with this target.
    pub fn new(name: String, class: QRClass, ttl: u32, ns_domain: String) -> (r: DNSNSRecord)
        ensures
            r.preamble.name == name,
            r.preamble.rtype == QRType::NS,
            r.preamble.class == class,
            r.preamble.ttl == ttl,
            r.preamble.rdlength == 0,
            r.rdata == ns_domain,
    {
        DNSNSRecord {
            preamble: DNSRecordPreamble::new(name, QRType::NS, class, ttl, 0),
            rdata: ns_domain,
        }
    }

    /// Reads the data of an NS record from under the cursor and moves the cursor past
    /// it; `domain`, `qclass`, `ttl` and `data_len` are what the preamble held.
    /// Where the data cannot be read, nothing changes.
    pub fn read(
        buffer: &mut BytePacketBuffer,
        domain: String,
        qclass: QRClass,
        ttl: u32,
        data_len: u16,
    ) -> (r: Result<DNSRecord, BytePacketBufferError>)
        ensures
            old(buffer).wf() ==> final(buffer).wf(),
            read_outcome(
                *old(buffer),
                *final(buffer),
                r,
                PreambleModel {
                    name: domain@,
                    rtype: QRType::NS,
                    class: qclass,
                    ttl,
                    rdlength: data_len,
                },
                rdata_at(old(buffer).buf@, old(buffer).pos as int, QRType::NS, data_len),
            ),
    {
        let mut rdata: String = String::new();
        match buffer.read_qname(&mut rdata) {
            Ok(()) => {},
            Err(e) => {
                return Err(e);
            },
        }
        Ok(
            DNSRecord::NS(
                DNSNSRecord {
                    preamble: DNSRecordPreamble::new(domain, QRType::NS, qclass, ttl, data_len),
                    rdata,
                },
            ),
        )
    }

    /// Why the record cannot be written whatever room there is, if it cannot.
    pub fn problem(&self) -> (r: Option<BytePacketBufferError>)
        ensures
            r == record_problem(self@),
    {
        if !is_writable(self.preamble.name.as_str()) {
            return Some(BytePacketBufferError::InvalidDomainNameFormat);
        }
        if !is_writable(self.rdata.as_str()) {
            return Some(BytePacketBufferError::InvalidDomainNameFormat);
        }
        None
    }

    /// Writes the record under the cursor and moves the cursor past it. The length of
    /// the data is measured once the data is written. Nothing is written where a
    /// name has a label of more than 63 octets, or where the record does not fit.
    pub fn write(&self, buffer: &mut BytePacketBuffer) -> (r: Result<(), BytePacketBufferError>)
        ensures
            old(buffer).wf() ==> final(buffer).wf(),
            write_outcome(
                *old(buffer),
                *final(buffer),
                r,
                record_problem(self@),
                record_wire(self@),
            ),
    {
        match self.problem() {
            Some(e) => {
                return Err(e);
            },
            None => {},
        }
        let saved: BytePacketBuffer = BytePacketBuffer { buf: buffer.buf, pos: buffer.pos };
        let ghost start = buffer.pos as int;
        let ghost head = head_wire(self.preamble@);
        proof {
            lemma_record_wire_len(self@);
        }
        match write_preamble(
            buffer,
            self.preamble.name.as_str(),
            self.preamble.rtype,
            self.preamble.class,
            self.preamble.ttl,
            0,
        ) {
            Ok(()) => {},
            Err(e) => {
                return Err(e);
            },
        }
        let data_start: usize = buffer.pos();
        let ghost first = be_bytes(0 as nat, 2);
        let ghost mut at = *buffer;
        let ghost mut written = head + first;
        proof {
            lemma_be_bytes_len(0 as nat, 2);
        }
        match buffer.write_qname(self.rdata.as_str()) {
            Ok(()) => {},
            Err(e) => {
                *buffer = saved;
                return Err(e);
            },
        }
        proof {
            lemma_carries_more(
                *buffer, at, saved, start, written, name_wire(name_bytes(self.rdata@)),
            );
            written = written + name_wire(name_bytes(self.rdata@));
            at = *buffer;
        }
        let ghost data = rdata_wire(self@.data);
        proof {
            assert(written =~= head + first + data);
        }
        match patch_rdlength(buffer, data_start) {
            Ok(()) => {},
            Err(e) => {
                return Err(e);
            },
        }
        proof {
            let length = be_bytes(data.len(), 2);
            lemma_be_bytes_len(data.len(), 2);
            lemma_patched(*buffer, at, saved, start, head, first, length, data);
        }
        Ok(())
    }
}

} // verus!
