//! The SOA record: the start of a zone of authority.

use super::super::byte_packet_buffer::{
    be_bytes, lemma_be_bytes_len, lemma_carries_more, write_outcome, BUFFER_SIZE, BytePacketBuffer,
    BytePacketBufferError,
};
use super::super::name::{is_writable, name_bytes, name_wire};
use super::super::{QRClass, QRType};
use super::{
    head_wire, lemma_patched, lemma_record_wire_len, patch_rdlength, rdata_at, rdata_wire,
    read_outcome, record_problem, record_wire, write_preamble, DNSRecord, DNSRecordPreamble,
    PreambleModel, RData, RecordModel,
};
use vstd::prelude::*;
use vstd::string::*;

verus! {

/// A record that describes a zone: its primary server, the mailbox of whoever
/// is responsible for it, and the times that govern its copies.
#[derive(Debug, PartialEq, Eq)]
pub struct DNSSOARecord {
    pub preamble: DNSRecordPreamble,
    /// The name of the primary server of the zone.
    pub mname: String,
    /// The mailbox of whoever is responsible for the zone, as a name.
    pub rname: String,
    /// The version of the zone.
    pub serial: u32,
    /// Seconds after which a copy asks for news.
    pub refresh: u32,
    /// Seconds after which a failed refresh is tried again.
    pub retry: u32,
    /// Seconds after which a copy that heard nothing stops answering.
    pub expire: u32,
    /// Seconds for which a negative answer may be kept.
    pub minimum: u32,
}

impl View for DNSSOARecord {
    type V = RecordModel;

    open spec fn view(&self) -> RecordModel {
        RecordModel { preamble: self.preamble@, data: RData::SOA {
                mname: self.mname@,
                rname: self.rname@,
                serial: self.serial,
                refresh: self.refresh,
                retry: self.retry,
                expire: self.expire,
                minimum: self.minimum,
            } }
    }
}

impl DNSSOARecord {
    /// An SOA record for `name`.
    pub fn new(name: String,
        class: QRClass,
        ttl: u32,
        mname: String,
        rname: String,
        serial: u32,
        refresh: u32,
        retry: u32,
        expire: u32,
        minimum: u32,
    ) -> (r: DNSSOARecord)
        ensures
            r.preamble.name == name,
            r.preamble.rtype == QRType::SOA,
            r.preamble.class == class,
            r.preamble.ttl == ttl,
            r.preamble.rdlength == 0,
            r.mname == mname,
            r.rname == rname,
            r.serial == serial,
            r.refresh == refresh,
            r.retry == retry,
            r.expire == expire,
            r.minimum == minimum,
    {
        DNSSOARecord {
            preamble: DNSRecordPreamble::new(name, QRType::SOA, class, ttl, 0),
            mname,
            rname,
            serial,
            refresh,
            retry,
            expire,
            minimum,
        }
    }

    /// Reads the data of an SOA record from under the cursor and moves the cursor past
    /// it; `domain`, `qclass`, `ttl` and `data_len` are what the preamble held.
    /// Where the data cannot be read, nothing changes.
    pub fn read(
        buffer: &mut BytePacketBuffer,
        domain: String,
        qclass: QRClass,
        ttl: u32,
        data_len: u16,
    ) -> (r: Result<DNSRecord, BytePacketBufferError>)
        ensures
            old(buffer).wf() ==> final(buffer).wf(),
            read_outcome(
                *old(buffer),
                *final(buffer),
                r,
                PreambleModel {
                    name: domain@,
                    rtype: QRType::SOA,
                    class: qclass,
                    ttl,
                    rdlength: data_len,
                },
                rdata_at(old(buffer).buf@, old(buffer).pos as int, QRType::SOA, data_len),
            ),
    {
        let start: usize = buffer.pos;
        let mut mname: String = String::new();
        match buffer.read_qname(&mut mname) {
            Ok(()) => {},
            Err(e) => {
                return Err(e);
            },
        }
        let mut rname: String = String::new();
        match buffer.read_qname(&mut rname) {
            Ok(()) => {},
            Err(e) => {
                buffer.pos = start;
                return Err(e);
            },
        }
        if buffer.pos > BUFFER_SIZE - 20 {
            buffer.pos = start;
            return Err(BytePacketBufferError::UnexpectedEof);
        }
        let serial: u32 = match buffer.read_u32() {
            Ok(v) => v,
            Err(e) => {
                buffer.pos = start;
                return Err(e);
            },
        };
        let refresh: u32 = match buffer.read_u32() {
            Ok(v) => v,
            Err(e) => {
                buffer.pos = start;
                return Err(e);
            },
        };
        let retry: u32 = match buffer.read_u32() {
            Ok(v) => v,
            Err(e) => {
                buffer.pos = start;
                return Err(e);
            },
        };
        let expire: u32 = match buffer.read_u32() {
            Ok(v) => v,
            Err(e) => {
                buffer.pos = start;
                return Err(e);
            },
        };
        let minimum: u32 = match buffer.read_u32() {
            Ok(v) => v,
            Err(e) => {
                buffer.pos = start;
                return Err(e);
            },
        };
        Ok(
            DNSRecord::SOA(
                DNSSOARecord {
                    preamble: DNSRecordPreamble::new(domain, QRType::SOA, qclass, ttl, data_len),
                    mname,
                    rname,
                    serial,
                    refresh,
                    retry,
                    expire,
                    minimum,
                },
            ),
        )
    }

    /// Why the record cannot be written whatever room there is, if it cannot.
    pub fn problem(&self) -> (r: Option<BytePacketBufferError>)
        ensures
            r == record_problem(self@),
    {
        if !is_writable(self.preamble.name.as_str()) {
            return Some(BytePacketBufferError::InvalidDomainNameFormat);
        }
        if !is_writable(self.mname.as_str()) {
            return Some(BytePacketBufferError::InvalidDomainNameFormat);
        }
        if !is_writable(self.rname.as_str()) {
            return Some(BytePacketBufferError::InvalidDomainNameFormat);
        }
        None
    }

    /// Writes the record under the cursor and moves the cursor past it. The length of
    /// the data is measured once the data is written. Nothing is written where a
    /// name has a label of more than 63 octets, or where the record does not fit.
    #[verifier::rlimit(80)]
    pub fn write(&self, buffer: &mut BytePacketBuffer) -> (r: Result<(), BytePacketBufferError>)
        ensures
            old(buffer).wf() ==> final(buffer).wf(),
            write_outcome(
                *old(buffer),
                *final(buffer),
                r,
                record_problem(self@),
                record_wire(self@),
            ),
    {
        match self.problem() {
            Some(e) => {
                return Err(e);
            },
            None => {},
        }
        let saved: BytePacketBuffer = BytePacketBuffer { buf: buffer.buf, pos: buffer.pos };
        let ghost start = buffer.pos as int;
        let ghost head = head_wire(self.preamble@);
        proof {
            lemma_record_wire_len(self@);
            lemma_be_bytes_len(self.serial as nat, 4);
            lemma_be_bytes_len(self.refresh as nat, 4);
            lemma_be_bytes_len(self.retry as nat, 4);
            lemma_be_bytes_len(self.expire as nat, 4);
            lemma_be_bytes_len(self.minimum as nat, 4);
        }
        match write_preamble(
            buffer,
            self.preamble.name.as_str(),
            self.preamble.rtype,
            self.preamble.class,
            self.preamble.ttl,
            0,
        ) {
            Ok(()) => {},
            Err(e) => {
                return Err(e);
            },
        }
        let data_start: usize = buffer.pos();
        let ghost first = be_bytes(0 as nat, 2);
        let ghost mut at = *buffer;
        let ghost mut written = head + first;
        proof {
            lemma_be_bytes_len(0 as nat, 2);
        }
        match buffer.write_qname(self.mname.as_str()) {
            Ok(()) => {},
            Err(e) => {
                *buffer = saved;
                return Err(e);
            },
        }
        proof {
            lemma_carries_more(
                *buffer, at, saved, start, written, name_wire(name_bytes(self.mname@)),
            );
            written = written + name_wire(name_bytes(self.mname@));
            at = *buffer;
        }
        match buffer.write_qname(self.rname.as_str()) {
            Ok(()) => {},
            Err(e) => {
                *buffer = saved;
                return Err(e);
            },
        }
        proof {
            lemma_carries_more(
                *buffer, at, saved, start, written, name_wire(name_bytes(self.rname@)),
            );
            written = written + name_wire(name_bytes(self.rname@));
            at = *buffer;
        }
        match buffer.write_u32(self.serial) {
            Ok(()) => {},
            Err(e) => {
                *buffer = saved;
                return Err(e);
            },
        }
        proof {
            lemma_carries_more(*buffer, at, saved, start, written, be_bytes(self.serial as nat, 4));
            written = written + be_bytes(self.serial as nat, 4);
            at = *buffer;
        }
        match buffer.write_u32(self.refresh) {
            Ok(()) => {},
            Err(e) => {
                *buffer = saved;
                return Err(e);
            },
        }
        proof {
            lemma_carries_more(
                *buffer, at, saved, start, written, be_bytes(self.refresh as nat, 4),
            );
            written = written + be_bytes(self.refresh as nat, 4);
            at = *buffer;
        }
        match buffer.write_u32(self.retry) {
            Ok(()) => {},
            Err(e) => {
                *buffer = saved;
                return Err(e);
            },
        }
        proof {
            lemma_carries_more(*buffer, at, saved, start, written, be_bytes(self.retry as nat, 4));
            written = written + be_bytes(self.retry as nat, 4);
            at = *buffer;
        }
        match buffer.write_u32(self.expire) {
            Ok(()) => {},
            Err(e) => {
                *buffer = saved;
                return Err(e);
            },
        }
        proof {
            lemma_carries_more(*buffer, at, saved, start, written, be_bytes(self.expire as nat, 4));
            written = written + be_bytes(self.expire as nat, 4);
            at = *buffer;
        }
        match buffer.write_u32(self.minimum) {
            Ok(()) => {},
            Err(e) => {
                *buffer = saved;
                return Err(e);
            },
        }
        proof {
            lemma_carries_more(
                *buffer, at, saved, start, written, be_bytes(self.minimum as nat, 4),
            );
            written = written + be_bytes(self.minimum as nat, 4);
            at = *buffer;
        }
        let ghost data = rdata_wire(self@.data);
        proof {
            assert(written =~= head + first + data);
        }
        match patch_rdlength(buffer, data_start) {
            Ok(()) => {},
            Err(e) => {
                return Err(e);
            },
        }
        proof {
            let length = be_bytes(data.len(), 2);
            lemma_be_bytes_len(data.len(), 2);
            lemma_patched(*buffer, at, saved, start, head, first, length, data);
        }
        Ok(())
    }
}

} // verus!
