//! Whole messages: the four sections behind the header, how a message is
//! read and written, and what a resolver looks up in a response.

use super::byte_packet_buffer::{
    carries, lemma_be_bytes_len, lemma_carries_more, splice, write_outcome, BUFFER_SIZE,
    BytePacketBuffer, BytePacketBufferError,
};
use super::header::{header_at, header_wire, HEADER_SIZE, DNSHeaderSection};
use super::name::{is_within, is_writable, within};
use super::records::{
    lemma_record_wire_len, record_at, record_problem, record_wire, DNSRecord, RData, RecordModel,
};
use super::{
    question_at, question_problem, question_wire, DNSQuestion, QRClass, QRType, QuestionModel,
};
use vstd::prelude::*;
use vstd::string::*;

verus! {

/// The questions of a message.
#[derive(Debug, PartialEq, Eq)]
pub struct DNSQuestionSection {
    pub questions: Vec<DNSQuestion>,
}

/// The answer records of a message.
#[derive(Debug, PartialEq, Eq)]
pub struct DNSAnswerSection {
    pub answers: Vec<DNSRecord>,
}

/// The authority records of a message.
#[derive(Debug, PartialEq, Eq)]
pub struct DNSAuthoritySection {
    pub records: Vec<DNSRecord>,
}

/// The additional records of a message.
#[derive(Debug, PartialEq, Eq)]
pub struct DNSAdditionalSection {
    pub records: Vec<DNSRecord>,
}

/// What each of a sequence of questions holds.
pub open spec fn question_models(questions: Seq<DNSQuestion>) -> Seq<QuestionModel> {
    Seq::new(questions.len(), |i: int| questions[i]@)
}

/// What each of a sequence of records holds.
pub open spec fn record_models(records: Seq<DNSRecord>) -> Seq<RecordModel> {
    Seq::new(records.len(), |i: int| records[i]@)
}

impl View for DNSQuestionSection {
    type V = Seq<QuestionModel>;

    open spec fn view(&self) -> Seq<QuestionModel> {
        question_models(self.questions@)
    }
}

impl View for DNSAnswerSection {
    type V = Seq<RecordModel>;

    open spec fn view(&self) -> Seq<RecordModel> {
        record_models(self.answers@)
    }
}

impl View for DNSAuthoritySection {
    type V = Seq<RecordModel>;

    open spec fn view(&self) -> Seq<RecordModel> {
        record_models(self.records@)
    }
}

impl View for DNSAdditionalSection {
    type V = Seq<RecordModel>;

    open spec fn view(&self) -> Seq<RecordModel> {
        record_models(self.records@)
    }
}

impl DNSQuestionSection {
    /// A section without questions.
    pub fn new() -> (s: DNSQuestionSection)
        ensures
            s.questions@.len() == 0,
    {
        DNSQuestionSection { questions: Vec::new() }
    }

    /// Appends a question.
    pub fn add_question(&mut self, question: DNSQuestion)
        ensures
            final(self).questions@ == old(self).questions@.push(question),
    {
        self.questions.push(question);
    }
}

impl DNSAnswerSection {
    /// A section without records.
    pub fn new() -> (s: DNSAnswerSection)
        ensures
            s.answers@.len() == 0,
    {
        DNSAnswerSection { answers: Vec::new() }
    }

    /// Appends a record.
    pub fn add_answer(&mut self, answer: DNSRecord)
        ensures
            final(self).answers@ == old(self).answers@.push(answer),
    {
        self.answers.push(answer);
    }
}

impl DNSAuthoritySection {
    /// A section without records.
    pub fn new() -> (s: DNSAuthoritySection)
        ensures
            s.records@.len() == 0,
    {
        DNSAuthoritySection { records: Vec::new() }
    }

    /// Appends a record.
    pub fn add_record(&mut self, record: DNSRecord)
        ensures
            final(self).records@ == old(self).records@.push(record),
    {
        self.records.push(record);
    }
}

impl DNSAdditionalSection {
    /// A section without records.
    pub fn new() -> (s: DNSAdditionalSection)
        ensures
            s.records@.len() == 0,
    {
        DNSAdditionalSection { records: Vec::new() }
    }

    /// Appends a record.
    pub fn add_record(&mut self, record: DNSRecord)
        ensures
            final(self).records@ == old(self).records@.push(record),
    {
        self.records.push(record);
    }
}

/// A message: the header and the four sections.
#[derive(Debug, PartialEq, Eq)]
pub struct DNSPacket {
    pub header: DNSHeaderSection,
    pub question: DNSQuestionSection,
    pub answer: DNSAnswerSection,
    pub authority: DNSAuthoritySection,
    pub additional: DNSAdditionalSection,
}

/// What a message holds.
pub struct PacketModel {
    pub header: DNSHeaderSection,
    pub questions: Seq<QuestionModel>,
    pub answers: Seq<RecordModel>,
    pub authorities: Seq<RecordModel>,
    pub additionals: Seq<RecordModel>,
}

impl View for DNSPacket {
    type V = PacketModel;

    open spec fn view(&self) -> PacketModel {
        PacketModel {
            header: self.header,
            questions: self.question@,
            answers: self.answer@,
            authorities: self.authority@,
            additionals: self.additional@,
        }
    }
}

/// The `n` questions that stand one behind the other from `pos` on in `buf`,
/// and where the last one ends.
pub open spec fn questions_at(buf: Seq<u8>, pos: int, n: nat) -> Result<
    (Seq<QuestionModel>, int),
    BytePacketBufferError,
>
    decreases n,
{
    if n == 0 {
        Ok((Seq::empty(), pos))
    } else {
        match questions_at(buf, pos, (n - 1) as nat) {
            Err(e) => Err(e),
            Ok((questions, p)) => match question_at(buf, p) {
                Err(e) => Err(e),
                Ok((q, end)) => Ok((questions.push(q), end)),
            },
        }
    }
}

/// The `n` records that stand one behind the other from `pos` on in `buf`,
/// and where the last one ends.
pub open spec fn records_at(buf: Seq<u8>, pos: int, n: nat) -> Result<
    (Seq<RecordModel>, int),
    BytePacketBufferError,
>
    decreases n,
{
    if n == 0 {
        Ok((Seq::empty(), pos))
    } else {
        match records_at(buf, pos, (n - 1) as nat) {
            Err(e) => Err(e),
            Ok((records, p)) => match record_at(buf, p) {
                Err(e) => Err(e),
                Ok((r, end)) => Ok((records.push(r), end)),
            },
        }
    }
}

/// The message that stands at `pos` in `buf`, and where it ends: the header,
/// then as many questions, answer records, authority records and additional
/// records as the header counts.
pub open spec fn packet_at(buf: Seq<u8>, pos: int) -> Result<
    (PacketModel, int),
    BytePacketBufferError,
> {
    match header_at(buf, pos) {
        Err(e) => Err(e),
        Ok(header) => match questions_at(buf, pos + HEADER_SIZE, header.qdcount as nat) {
            Err(e) => Err(e),
            Ok((questions, answers_at)) => match records_at(
                buf,
                answers_at,
                header.ancount as nat,
            ) {
                Err(e) => Err(e),
                Ok((answers, authorities_at)) => match records_at(
                    buf,
                    authorities_at,
                    header.nscount as nat,
                ) {
                    Err(e) => Err(e),
                    Ok((authorities, additionals_at)) => match records_at(
                        buf,
                        additionals_at,
                        header.arcount as nat,
                    ) {
                        Err(e) => Err(e),
                        Ok((additionals, end)) => Ok(
                            (
                                PacketModel {
                                    header,
                                    questions,
                                    answers,
                                    authorities,
                                    additionals,
                                },
                                end,
                            ),
                        ),
                    },
                },
            },
        },
    }
}

/// Questions on the wire, one behind the other.
pub open spec fn questions_wire(questions: Seq<QuestionModel>) -> Seq<u8>
    decreases questions.len(),
{
    if questions.len() == 0 {
        Seq::empty()
    } else {
        questions_wire(questions.drop_last()) + question_wire(questions.last())
    }
}

/// Records on the wire, one behind the other.
pub open spec fn records_wire(records: Seq<RecordModel>) -> Seq<u8>
    decreases records.len(),
{
    if records.len() == 0 {
        Seq::empty()
    } else {
        records_wire(records.drop_last()) + record_wire(records.last())
    }
}

/// Why the first question that cannot be written cannot, if there is one.
pub open spec fn questions_problem(questions: Seq<QuestionModel>) -> Option<
    BytePacketBufferError,
>
    decreases questions.len(),
{
    if questions.len() == 0 {
        None
    } else {
        match questions_problem(questions.drop_last()) {
            Some(e) => Some(e),
            None => question_problem(questions.last()),
        }
    }
}

/// Why the first record that cannot be written cannot, if there is one.
pub open spec fn records_problem(records: Seq<RecordModel>) -> Option<BytePacketBufferError>
    decreases records.len(),
{
    if records.len() == 0 {
        None
    } else {
        match records_problem(records.drop_last()) {
            Some(e) => Some(e),
            None => record_problem(records.last()),
        }
    }
}

/// The header of a message as it is written: with the lengths of the four
/// sections as its counts.
pub open spec fn counted(m: PacketModel) -> DNSHeaderSection {
    DNSHeaderSection {
        qdcount: m.questions.len() as u16,
        ancount: m.answers.len() as u16,
        nscount: m.authorities.len() as u16,
        arcount: m.additionals.len() as u16,
        ..m.header
    }
}

/// A message on the wire: the header with the counts of the sections, then
/// the sections in order.
pub open spec fn packet_wire(m: PacketModel) -> Seq<u8> {
    header_wire(counted(m)) + questions_wire(m.questions) + records_wire(m.answers)
        + records_wire(m.authorities) + records_wire(m.additionals)
}

/// Why a message cannot be written whatever room there is, if it cannot: the
/// problem of the first question or record that has one.
pub open spec fn packet_problem(m: PacketModel) -> Option<BytePacketBufferError> {
    match questions_problem(m.questions) {
        Some(e) => Some(e),
        None => match records_problem(m.answers) {
            Some(e) => Some(e),
            None => match records_problem(m.authorities) {
                Some(e) => Some(e),
                None => records_problem(m.additionals),
            },
        },
    }
}

/// Where the first `n` questions cannot be read, no more of them can.
pub proof fn lemma_questions_error_stays(buf: Seq<u8>, pos: int, n: nat, more: nat)
    requires
        questions_at(buf, pos, n) is Err,
        n <= more,
    ensures
        questions_at(buf, pos, more) == questions_at(buf, pos, n),
    decreases more,
{
    if n < more {
        lemma_questions_error_stays(buf, pos, n, (more - 1) as nat);
    }
}

/// Where the first `n` records cannot be read, no more of them can.
pub proof fn lemma_records_error_stays(buf: Seq<u8>, pos: int, n: nat, more: nat)
    requires
        records_at(buf, pos, n) is Err,
        n <= more,
    ensures
        records_at(buf, pos, more) == records_at(buf, pos, n),
    decreases more,
{
    if n < more {
        lemma_records_error_stays(buf, pos, n, (more - 1) as nat);
    }
}

/// A problem among the first questions is the problem of all of them.
pub proof fn lemma_questions_problem_stays(questions: Seq<QuestionModel>, n: int)
    requires
        0 <= n <= questions.len(),
        questions_problem(questions.take(n)) is Some,
    ensures
        questions_problem(questions) == questions_problem(questions.take(n)),
    decreases questions.len() - n,
{
    if n < questions.len() {
        assert(questions.take(n + 1).drop_last() =~= questions.take(n));
        lemma_questions_problem_stays(questions, n + 1);
    } else {
        assert(questions.take(n) =~= questions);
    }
}

/// A problem among the first records is the problem of all of them.
pub proof fn lemma_records_problem_stays(records: Seq<RecordModel>, n: int)
    requires
        0 <= n <= records.len(),
        records_problem(records.take(n)) is Some,
    ensures
        records_problem(records) == records_problem(records.take(n)),
    decreases records.len() - n,
{
    if n < records.len() {
        assert(records.take(n + 1).drop_last() =~= records.take(n));
        lemma_records_problem_stays(records, n + 1);
    } else {
        assert(records.take(n) =~= records);
    }
}

/// The first questions on the wire are no longer than all of them.
pub proof fn lemma_questions_wire_grows(questions: Seq<QuestionModel>, n: int)
    requires
        0 <= n <= questions.len(),
    ensures
        questions_wire(questions.take(n)).len() <= questions_wire(questions).len(),
    decreases questions.len() - n,
{
    if n < questions.len() {
        assert(questions.take(n + 1).drop_last() =~= questions.take(n));
        lemma_questions_wire_grows(questions, n + 1);
    } else {
        assert(questions.take(n) =~= questions);
    }
}

/// The first records on the wire are no longer than all of them.
pub proof fn lemma_records_wire_grows(records: Seq<RecordModel>, n: int)
    requires
        0 <= n <= records.len(),
    ensures
        records_wire(records.take(n)).len() <= records_wire(records).len(),
    decreases records.len() - n,
{
    if n < records.len() {
        assert(records.take(n + 1).drop_last() =~= records.take(n));
        lemma_records_wire_grows(records, n + 1);
    } else {
        assert(records.take(n) =~= records);
    }
}

/// Reads `count` questions from under the cursor and moves the cursor past
/// them. Where one of them cannot be read, nothing changes.
pub fn read_questions(buffer: &mut BytePacketBuffer, count: u16) -> (r: Result<
    Vec<DNSQuestion>,
    BytePacketBufferError,
>)
    ensures
        old(buffer).wf() ==> final(buffer).wf(),
        final(buffer).buf == old(buffer).buf,
        match questions_at(old(buffer).buf@, old(buffer).pos as int, count as nat) {
            Ok((questions, end)) => r is Ok && question_models(r->Ok_0@) == questions
                && r->Ok_0@.len() == count && final(buffer).pos == end,
            Err(e) => r == Err::<Vec<DNSQuestion>, BytePacketBufferError>(e) && final(buffer).pos
                == old(buffer).pos,
        },
{
    let start: usize = buffer.pos;
    let mut questions: Vec<DNSQuestion> = Vec::new();
    let mut i: u16 = 0;
    assert(question_models(questions@) =~= Seq::<QuestionModel>::empty());
    while i < count
        invariant
            i <= count,
            buffer.buf == old(buffer).buf,
            questions@.len() == i,
            questions_at(old(buffer).buf@, start as int, i as nat) == Ok::<
                (Seq<QuestionModel>, int),
                BytePacketBufferError,
            >((question_models(questions@), buffer.pos as int)),
            start == old(buffer).pos,
            start <= BUFFER_SIZE ==> buffer.pos <= BUFFER_SIZE,
        decreases count - i,
    {
        let mut question: DNSQuestion = DNSQuestion::new(
            String::new(),
            QRType::UNKNOWN(0),
            QRClass::ANY,
        );
        let ghost before = question_models(questions@);
        match question.read(buffer) {
            Ok(()) => {},
            Err(e) => {
                proof {
                    lemma_questions_error_stays(
                        old(buffer).buf@,
                        start as int,
                        (i + 1) as nat,
                        count as nat,
                    );
                }
                buffer.pos = start;
                return Err(e);
            },
        }
        questions.push(question);
        proof {
            assert(question_models(questions@) =~= before.push(question@));
        }
        i = i + 1;
    }
    Ok(questions)
}

/// Reads `count` records from under the cursor and moves the cursor past
/// them. Where one of them cannot be read, nothing changes.
pub fn read_records(buffer: &mut BytePacketBuffer, count: u16) -> (r: Result<
    Vec<DNSRecord>,
    BytePacketBufferError,
>)
    ensures
        old(buffer).wf() ==> final(buffer).wf(),
        final(buffer).buf == old(buffer).buf,
        match records_at(old(buffer).buf@, old(buffer).pos as int, count as nat) {
            Ok((records, end)) => r is Ok && record_models(r->Ok_0@) == records && r->Ok_0@.len()
                == count && final(buffer).pos == end,
            Err(e) => r == Err::<Vec<DNSRecord>, BytePacketBufferError>(e) && final(buffer).pos
                == old(buffer).pos,
        },
{
    let start: usize = buffer.pos;
    let mut records: Vec<DNSRecord> = Vec::new();
    let mut i: u16 = 0;
    assert(record_models(records@) =~= Seq::<RecordModel>::empty());
    while i < count
        invariant
            i <= count,
            buffer.buf == old(buffer).buf,
            records@.len() == i,
            records_at(old(buffer).buf@, start as int, i as nat) == Ok::<
                (Seq<RecordModel>, int),
                BytePacketBufferError,
            >((record_models(records@), buffer.pos as int)),
            start == old(buffer).pos,
            start <= BUFFER_SIZE ==> buffer.pos <= BUFFER_SIZE,
        decreases count - i,
    {
        let ghost before = record_models(records@);
        let record: DNSRecord = match DNSRecord::read(buffer) {
            Ok(record) => record,
            Err(e) => {
                proof {
                    lemma_records_error_stays(
                        old(buffer).buf@,
                        start as int,
                        (i + 1) as nat,
                        count as nat,
                    );
                }
                buffer.pos = start;
                return Err(e);
            },
        };
        records.push(record);
        proof {
            assert(record_models(records@) =~= before.push(record@));
        }
        i = i + 1;
    }
    Ok(records)
}

/// Why the first of `questions` that cannot be written cannot, if there is
/// one.
pub fn find_question_problem(questions: &Vec<DNSQuestion>) -> (r: Option<BytePacketBufferError>)
    ensures
        r == questions_problem(question_models(questions@)),
{
    let ghost all = question_models(questions@);
    let n: usize = questions.len();
    let mut i: usize = 0;
    while i < n
        invariant
            i <= n,
            n == questions@.len(),
            all == question_models(questions@),
            questions_problem(all.take(i as int)) is None,
        decreases n - i,
    {
        proof {
            assert(all.take(i + 1).drop_last() =~= all.take(i as int));
        }
        if !is_writable(questions[i].qname.as_str()) {
            proof {
                lemma_questions_problem_stays(all, i + 1);
            }
            return Some(BytePacketBufferError::InvalidDomainNameFormat);
        }
        i = i + 1;
    }
    assert(all.take(n as int) =~= all);
    None
}

/// Why the first of `records` that cannot be written cannot, if there is
/// one.
pub fn find_record_problem(records: &Vec<DNSRecord>) -> (r: Option<BytePacketBufferError>)
    ensures
        r == records_problem(record_models(records@)),
{
    let ghost all = record_models(records@);
    let n: usize = records.len();
    let mut i: usize = 0;
    while i < n
        invariant
            i <= n,
            n == records@.len(),
            all == record_models(records@),
            records_problem(all.take(i as int)) is None,
        decreases n - i,
    {
        proof {
            assert(all.take(i + 1).drop_last() =~= all.take(i as int));
        }
        match records[i].problem() {
            Some(e) => {
                proof {
                    lemma_records_problem_stays(all, i + 1);
                }
                return Some(e);
            },
            None => {},
        }
        i = i + 1;
    }
    assert(all.take(n as int) =~= all);
    None
}

/// Writes `questions` one behind the other under the cursor and moves the
/// cursor past them. Nothing is written where one of them cannot be written,
/// or where they do not fit.
pub fn write_questions(questions: &Vec<DNSQuestion>, buffer: &mut BytePacketBuffer) -> (r: Result<
    (),
    BytePacketBufferError,
>)
    ensures
        old(buffer).wf() ==> final(buffer).wf(),
        write_outcome(
            *old(buffer),
            *final(buffer),
            r,
            questions_problem(question_models(questions@)),
            questions_wire(question_models(questions@)),
        ),
{
    match find_question_problem(questions) {
        Some(e) => {
            return Err(e);
        },
        None => {},
    }
    if buffer.pos > BUFFER_SIZE {
        return Err(BytePacketBufferError::Overflow);
    }
    let saved: BytePacketBuffer = BytePacketBuffer { buf: buffer.buf, pos: buffer.pos };
    let ghost start = buffer.pos as int;
    let ghost all = question_models(questions@);
    let n: usize = questions.len();
    let mut i: usize = 0;
    proof {
        assert(buffer.buf@ =~= splice(
            saved.buf@,
            start,
            Seq::<u8>::empty(),
        ));
    }
    while i < n
        invariant
            i <= n,
            n == questions@.len(),
            all == question_models(questions@),
            questions_problem(all) is None,
            saved == *old(buffer),
            start == saved.pos,
            carries(*buffer, saved, start, questions_wire(all.take(i as int))),
        decreases n - i,
    {
        let ghost at = *buffer;
        proof {
            assert(all.take(i + 1).drop_last() =~= all.take(i as int));
            lemma_questions_wire_grows(all, i + 1);
            if questions_problem(all.take(i + 1)) is Some {
                lemma_questions_problem_stays(all, i + 1);
            }
        }
        match questions[i].write(buffer) {
            Ok(()) => {},
            Err(e) => {
                *buffer = saved;
                return Err(e);
            },
        }
        proof {
            lemma_carries_more(
                *buffer,
                at,
                saved,
                start,
                questions_wire(all.take(i as int)),
                question_wire(all[i as int]),
            );
        }
        i = i + 1;
    }
    assert(all.take(n as int) =~= all);
    Ok(())
}

/// Writes `records` one behind the other under the cursor and moves the
/// cursor past them. Nothing is written where one of them cannot be written,
/// or where they do not fit.
pub fn write_records(records: &Vec<DNSRecord>, buffer: &mut BytePacketBuffer) -> (r: Result<
    (),
    BytePacketBufferError,
>)
    ensures
        old(buffer).wf() ==> final(buffer).wf(),
        write_outcome(
            *old(buffer),
            *final(buffer),
            r,
            records_problem(record_models(records@)),
            records_wire(record_models(records@)),
        ),
{
    match find_record_problem(records) {
        Some(e) => {
            return Err(e);
        },
        None => {},
    }
    if buffer.pos > BUFFER_SIZE {
        return Err(BytePacketBufferError::Overflow);
    }
    let saved: BytePacketBuffer = BytePacketBuffer { buf: buffer.buf, pos: buffer.pos };
    let ghost start = buffer.pos as int;
    let ghost all = record_models(records@);
    let n: usize = records.len();
    let mut i: usize = 0;
    proof {
        assert(buffer.buf@ =~= splice(
            saved.buf@,
            start,
            Seq::<u8>::empty(),
        ));
    }
    while i < n
        invariant
            i <= n,
            n == records@.len(),
            all == record_models(records@),
            records_problem(all) is None,
            saved == *old(buffer),
            start == saved.pos,
            carries(*buffer, saved, start, records_wire(all.take(i as int))),
        decreases n - i,
    {
        let ghost at = *buffer;
        proof {
            assert(all.take(i + 1).drop_last() =~= all.take(i as int));
            lemma_records_wire_grows(all, i + 1);
            if records_problem(all.take(i + 1)) is Some {
                lemma_records_problem_stays(all, i + 1);
            }
        }
        match records[i].write(buffer) {
            Ok(()) => {},
            Err(e) => {
                *buffer = saved;
                return Err(e);
            },
        }
        proof {
            lemma_carries_more(
                *buffer,
                at,
                saved,
                start,
                records_wire(all.take(i as int)),
                record_wire(all[i as int]),
            );
        }
        i = i + 1;
    }
    assert(all.take(n as int) =~= all);
    Ok(())
}

/// A header on the wire is twelve octets long.
pub proof fn lemma_header_wire_len(h: DNSHeaderSection)
    ensures
        header_wire(h).len() == HEADER_SIZE,
{
    lemma_be_bytes_len(h.id as nat, 2);
    lemma_be_bytes_len(h.qdcount as nat, 2);
    lemma_be_bytes_len(h.ancount as nat, 2);
    lemma_be_bytes_len(h.nscount as nat, 2);
    lemma_be_bytes_len(h.arcount as nat, 2);
}

/// Questions on the wire take at least an octet each.
pub proof fn lemma_questions_wire_long(questions: Seq<QuestionModel>)
    ensures
        questions_wire(questions).len() >= questions.len(),
    decreases questions.len(),
{
    if questions.len() > 0 {
        lemma_questions_wire_long(questions.drop_last());
    }
}

/// Records on the wire take at least an octet each.
pub proof fn lemma_records_wire_long(records: Seq<RecordModel>)
    ensures
        records_wire(records).len() >= records.len(),
    decreases records.len(),
{
    if records.len() > 0 {
        lemma_records_wire_long(records.drop_last());
        lemma_record_wire_len(records.last());
    }
}

/// The address of the first A record among `answers`.
pub open spec fn first_a(answers: Seq<RecordModel>) -> Option<u32>
    decreases answers.len(),
{
    if answers.len() == 0 {
        None
    } else {
        match answers[0].data {
            RData::A(address) => Some(address),
            _ => first_a(answers.drop_first()),
        }
    }
}

/// The name servers for `qname` among `authorities`: owner and target of
/// each NS record whose owner is `qname` or a parent domain of it, in order.
pub open spec fn ns_for(qname: Seq<char>, authorities: Seq<RecordModel>) -> Seq<
    (Seq<char>, Seq<char>),
>
    decreases authorities.len(),
{
    if authorities.len() == 0 {
        Seq::empty()
    } else {
        let rest = ns_for(qname, authorities.drop_first());
        match authorities[0].data {
            RData::NS(target) => if is_within(qname, authorities[0].preamble.name) {
                seq![(authorities[0].preamble.name, target)] + rest
            } else {
                rest
            },
            _ => rest,
        }
    }
}

/// The address in the first A record among `additionals` whose owner is
/// `host`.
pub open spec fn glue_for(host: Seq<char>, additionals: Seq<RecordModel>) -> Option<u32>
    decreases additionals.len(),
{
    if additionals.len() == 0 {
        None
    } else {
        match additionals[0].data {
            RData::A(address) => if additionals[0].preamble.name == host {
                Some(address)
            } else {
                glue_for(host, additionals.drop_first())
            },
            _ => glue_for(host, additionals.drop_first()),
        }
    }
}

/// The address of the first of `servers` that has one among `additionals`.
pub open spec fn resolved_ns(
    servers: Seq<(Seq<char>, Seq<char>)>,
    additionals: Seq<RecordModel>,
) -> Option<u32>
    decreases servers.len(),
{
    if servers.len() == 0 {
        None
    } else {
        match glue_for(servers[0].1, additionals) {
            Some(address) => Some(address),
            None => resolved_ns(servers.drop_first(), additionals),
        }
    }
}

/// The name of the first of `servers` that has no address among
/// `additionals`.
pub open spec fn unresolved_ns(
    servers: Seq<(Seq<char>, Seq<char>)>,
    additionals: Seq<RecordModel>,
) -> Option<Seq<char>>
    decreases servers.len(),
{
    if servers.len() == 0 {
        None
    } else {
        match glue_for(servers[0].1, additionals) {
            Some(_) => unresolved_ns(servers.drop_first(), additionals),
            None => Some(servers[0].1),
        }
    }
}

/// The texts of pairs of names.
pub open spec fn pair_models(pairs: Seq<(String, String)>) -> Seq<(Seq<char>, Seq<char>)> {
    Seq::new(pairs.len(), |i: int| (pairs[i].0@, pairs[i].1@))
}

/// The address in the first A record among `records` whose owner is `host`.
pub fn find_glue(host: &String, records: &Vec<DNSRecord>) -> (r: Option<u32>)
    ensures
        r == glue_for(host@, record_models(records@)),
{
    let ghost all = record_models(records@);
    let n: usize = records.len();
    let mut i: usize = 0;
    assert(all.skip(0) =~= all);
    while i < n
        invariant
            i <= n,
            n == records@.len(),
            all == record_models(records@),
            glue_for(host@, all) == glue_for(host@, all.skip(i as int)),
        decreases n - i,
    {
        proof {
            assert(all.skip(i as int).drop_first() =~= all.skip(i + 1));
        }
        match &records[i] {
            DNSRecord::A(a) => {
                if a.preamble.name == *host {
                    return Some(a.rdata);
                }
            },
            _ => {},
        }
        i = i + 1;
    }
    None
}

impl DNSPacket {
    /// An empty query: a blank header and no questions or records.
    pub fn new() -> (p: DNSPacket)
        ensures
            p.header == DNSHeaderSection::blank(),
            p.question.questions@.len() == 0,
            p.answer.answers@.len() == 0,
            p.authority.records@.len() == 0,
            p.additional.records@.len() == 0,
    {
        DNSPacket {
            header: DNSHeaderSection::new(),
            question: DNSQuestionSection::new(),
            answer: DNSAnswerSection::new(),
            authority: DNSAuthoritySection::new(),
            additional: DNSAdditionalSection::new(),
        }
    }

    /// Reads the message under the cursor and moves the cursor past it. Each
    /// section of the result has as many items as the header counts. Where no
    /// message can be read, nothing changes.
    pub fn from_buffer(buffer: &mut BytePacketBuffer) -> (r: Result<
        DNSPacket,
        BytePacketBufferError,
    >)
        ensures
            old(buffer).wf() ==> final(buffer).wf(),
            final(buffer).buf == old(buffer).buf,
            match packet_at(old(buffer).buf@, old(buffer).pos as int) {
                Ok((m, end)) => r is Ok && r->Ok_0@ == m && final(buffer).pos == end,
                Err(e) => r == Err::<DNSPacket, BytePacketBufferError>(e) && final(buffer).pos
                    == old(buffer).pos,
            },
            r matches Ok(p) ==> p.question.questions@.len() == p.header.qdcount
                && p.answer.answers@.len() == p.header.ancount && p.authority.records@.len()
                == p.header.nscount && p.additional.records@.len() == p.header.arcount,
    {
        let start: usize = buffer.pos;
        let mut header: DNSHeaderSection = DNSHeaderSection::new();
        match header.read(buffer) {
            Ok(()) => {},
            Err(e) => {
                return Err(e);
            },
        }
        let questions: Vec<DNSQuestion> = match read_questions(buffer, header.qdcount) {
            Ok(v) => v,
            Err(e) => {
                buffer.pos = start;
                return Err(e);
            },
        };
        let answers: Vec<DNSRecord> = match read_records(buffer, header.ancount) {
            Ok(v) => v,
            Err(e) => {
                buffer.pos = start;
                return Err(e);
            },
        };
        let authorities: Vec<DNSRecord> = match read_records(buffer, header.nscount) {
            Ok(v) => v,
            Err(e) => {
                buffer.pos = start;
                return Err(e);
            },
        };
        let additionals: Vec<DNSRecord> = match read_records(buffer, header.arcount) {
            Ok(v) => v,
            Err(e) => {
                buffer.pos = start;
                return Err(e);
            },
        };
        Ok(
            DNSPacket {
                header,
                question: DNSQuestionSection { questions },
                answer: DNSAnswerSection { answers },
                authority: DNSAuthoritySection { records: authorities },
                additional: DNSAdditionalSection { records: additionals },
            },
        )
    }

    /// Sets the four counts of the header to the lengths of the sections,
    /// writes the message under the cursor and moves the cursor past it.
    /// Where the message cannot be written or does not fit, nothing is
    /// written and the header keeps its counts.
    pub fn write(&mut self, buffer: &mut BytePacketBuffer) -> (r: Result<
        (),
        BytePacketBufferError,
    >)
        ensures
            old(buffer).wf() ==> final(buffer).wf(),
            write_outcome(
                *old(buffer),
                *final(buffer),
                r,
                packet_problem(old(self)@),
                packet_wire(old(self)@),
            ),
            final(self).question == old(self).question,
            final(self).answer == old(self).answer,
            final(self).authority == old(self).authority,
            final(self).additional == old(self).additional,
            r is Ok ==> final(self).header == counted(old(self)@),
            r is Ok ==> final(self).question.questions@.len() == final(self).header.qdcount,
            r is Ok ==> final(self).answer.answers@.len() == final(self).header.ancount,
            r is Ok ==> final(self).authority.records@.len() == final(self).header.nscount,
            r is Ok ==> final(self).additional.records@.len() == final(self).header.arcount,
            r is Err ==> final(self).header == old(self).header,
    {
        let ghost m = self@;
        match find_question_problem(&self.question.questions) {
            Some(e) => {
                return Err(e);
            },
            None => {},
        }
        match find_record_problem(&self.answer.answers) {
            Some(e) => {
                return Err(e);
            },
            None => {},
        }
        match find_record_problem(&self.authority.records) {
            Some(e) => {
                return Err(e);
            },
            None => {},
        }
        match find_record_problem(&self.additional.records) {
            Some(e) => {
                return Err(e);
            },
            None => {},
        }
        proof {
            lemma_header_wire_len(counted(m));
            lemma_questions_wire_long(m.questions);
            lemma_records_wire_long(m.answers);
            lemma_records_wire_long(m.authorities);
            lemma_records_wire_long(m.additionals);
        }
        if self.question.questions.len() > BUFFER_SIZE || self.answer.answers.len() > BUFFER_SIZE
            || self.authority.records.len() > BUFFER_SIZE || self.additional.records.len()
            > BUFFER_SIZE {
            return Err(BytePacketBufferError::Overflow);
        }
        let header: DNSHeaderSection = DNSHeaderSection {
            id: self.header.id,
            qr: self.header.qr,
            opcode: self.header.opcode,
            aa: self.header.aa,
            tc: self.header.tc,
            rd: self.header.rd,
            ra: self.header.ra,
            z: self.header.z,
            ad: self.header.ad,
            cd: self.header.cd,
            rcode: self.header.rcode,
            qdcount: self.question.questions.len() as u16,
            ancount: self.answer.answers.len() as u16,
            nscount: self.authority.records.len() as u16,
            arcount: self.additional.records.len() as u16,
        };
        let saved: BytePacketBuffer = BytePacketBuffer { buf: buffer.buf, pos: buffer.pos };
        let ghost start = buffer.pos as int;
        let ghost w0 = header_wire(header);
        let ghost w1 = questions_wire(m.questions);
        let ghost w2 = records_wire(m.answers);
        let ghost w3 = records_wire(m.authorities);
        let ghost w4 = records_wire(m.additionals);
        match header.write(buffer) {
            Ok(()) => {},
            Err(e) => {
                return Err(e);
            },
        }
        let ghost b0 = *buffer;
        match write_questions(&self.question.questions, buffer) {
            Ok(()) => {},
            Err(e) => {
                *buffer = saved;
                return Err(e);
            },
        }
        let ghost b1 = *buffer;
        proof {
            lemma_carries_more(b1, b0, saved, start, w0, w1);
        }
        match write_records(&self.answer.answers, buffer) {
            Ok(()) => {},
            Err(e) => {
                *buffer = saved;
                return Err(e);
            },
        }
        let ghost b2 = *buffer;
        proof {
            lemma_carries_more(b2, b1, saved, start, w0 + w1, w2);
        }
        match write_records(&self.authority.records, buffer) {
            Ok(()) => {},
            Err(e) => {
                *buffer = saved;
                return Err(e);
            },
        }
        let ghost b3 = *buffer;
        proof {
            lemma_carries_more(b3, b2, saved, start, w0 + w1 + w2, w3);
        }
        match write_records(&self.additional.records, buffer) {
            Ok(()) => {},
            Err(e) => {
                *buffer = saved;
                return Err(e);
            },
        }
        proof {
            lemma_carries_more(*buffer, b3, saved, start, w0 + w1 + w2 + w3, w4);
        }
        self.header = header;
        Ok(())
    }

    /// The address of the first A record in the answer section.
    pub fn get_random_a(&self) -> (r: Option<u32>)
        ensures
            r == first_a(self@.answers),
    {
        let ghost all = self@.answers;
        let n: usize = self.answer.answers.len();
        let mut i: usize = 0;
        assert(all.skip(0) =~= all);
        while i < n
            invariant
                i <= n,
                n == self.answer.answers@.len(),
                all == self@.answers,
                first_a(all) == first_a(all.skip(i as int)),
            decreases n - i,
        {
            proof {
                assert(all.skip(i as int).drop_first() =~= all.skip(i + 1));
            }
            match &self.answer.answers[i] {
                DNSRecord::A(a) => {
                    return Some(a.rdata);
                },
                _ => {},
            }
            i = i + 1;
        }
        None
    }

    /// The name servers for `qname` in the authority section: owner and
    /// target of each NS record whose owner is `qname` or a parent domain of
    /// it by whole labels, without regard to the case of ASCII letters, in
    /// the order of the section.
    pub fn get_ns(&self, qname: &str) -> (r: Vec<(String, String)>)
        ensures
            pair_models(r@) == ns_for(qname@, self@.authorities),
    {
        let ghost all = self@.authorities;
        let n: usize = self.authority.records.len();
        let mut found: Vec<(String, String)> = Vec::new();
        let mut i: usize = 0;
        proof {
            assert(all.skip(0) =~= all);
        }
        while i < n
            invariant
                i <= n,
                n == self.authority.records@.len(),
                all == self@.authorities,
                ns_for(qname@, all) == pair_models(found@) + ns_for(qname@, all.skip(i as int)),
            decreases n - i,
        {
            proof {
                assert(all.skip(i as int).drop_first() =~= all.skip(i + 1));
            }
            match &self.authority.records[i] {
                DNSRecord::NS(ns) => {
                    if within(qname, ns.preamble.name.as_str()) {
                        let owner: String = ns.preamble.name.clone();
                        let target: String = ns.rdata.clone();
                        found.push((owner, target));
                    }
                },
                _ => {},
            }
            i = i + 1;
        }
        found
    }

    /// The address of the first name server for `qname` that has an A record
    /// of its own in the additional section.
    pub fn get_resolved_ns(&self, qname: &str) -> (r: Option<u32>)
        ensures
            r == resolved_ns(ns_for(qname@, self@.authorities), self@.additionals),
    {
        let servers: Vec<(String, String)> = self.get_ns(qname);
        let ghost all = pair_models(servers@);
        let n: usize = servers.len();
        let mut i: usize = 0;
        assert(all.skip(0) =~= all);
        while i < n
            invariant
                i <= n,
                n == servers@.len(),
                all == pair_models(servers@),
                all == ns_for(qname@, self@.authorities),
                resolved_ns(all, self@.additionals) == resolved_ns(
                    all.skip(i as int),
                    self@.additionals,
                ),
            decreases n - i,
        {
            proof {
                assert(all.skip(i as int).drop_first() =~= all.skip(i + 1));
            }
            match find_glue(&servers[i].1, &self.additional.records) {
                Some(address) => {
                    return Some(address);
                },
                None => {},
            }
            i = i + 1;
        }
        None
    }

    /// The name of the first name server for `qname` that has no A record of
    /// its own in the additional section.
    pub fn get_unresolved_ns(&self, qname: &str) -> (r: Option<String>)
        ensures
            match unresolved_ns(ns_for(qname@, self@.authorities), self@.additionals) {
                Some(host) => r is Some && r->Some_0@ == host,
                None => r is None,
            },
    {
        let servers: Vec<(String, String)> = self.get_ns(qname);
        let ghost all = pair_models(servers@);
        let n: usize = servers.len();
        let mut i: usize = 0;
        assert(all.skip(0) =~= all);
        while i < n
            invariant
                i <= n,
                n == servers@.len(),
                all == pair_models(servers@),
                all == ns_for(qname@, self@.authorities),
                unresolved_ns(all, self@.additionals) == unresolved_ns(
                    all.skip(i as int),
                    self@.additionals,
                ),
            decreases n - i,
        {
            proof {
                assert(all.skip(i as int).drop_first() =~= all.skip(i + 1));
            }
            if find_glue(&servers[i].1, &self.additional.records).is_none() {
                return Some(servers[i].1.clone());
            }
            i = i + 1;
        }
        None
    }
}

/// The name servers for `qname` are exactly the NS records of the authority
/// section whose owner is `qname` or a parent domain of it by whole labels:
/// a pair of owner and target is among them if and only if such a record
/// holds it.
pub proof fn law_ns_for_exact(
    qname: Seq<char>,
    authorities: Seq<RecordModel>,
    owner: Seq<char>,
    target: Seq<char>,
)
    ensures
        ns_for(qname, authorities).contains((owner, target)) <==> exists|i: int|
            0 <= i < authorities.len() && (#[trigger] authorities[i]).data == RData::NS(target)
                && authorities[i].preamble.name == owner && is_within(qname, owner),
    decreases authorities.len(),
{
    let found = ns_for(qname, authorities);
    let pair = (owner, target);
    if authorities.len() > 0 {
        let rest = authorities.drop_first();
        let rest_found = ns_for(qname, rest);
        let head = authorities[0];
        let head_is = head.data == RData::NS(target) && head.preamble.name == owner && is_within(
            qname,
            owner,
        );
        law_ns_for_exact(qname, rest, owner, target);
        if found.contains(pair) {
            let k = choose|k: int| 0 <= k < found.len() && found[k] == pair;
            if !head_is {
                assert(rest_found.contains(pair)) by {
                    match head.data {
                        RData::NS(t) => {
                            if is_within(qname, head.preamble.name) {
                                assert(k > 0);
                                assert(rest_found[k - 1] == pair);
                            } else {
                                assert(rest_found[k] == pair);
                            }
                        },
                        _ => {
                            assert(rest_found[k] == pair);
                        },
                    }
                }
                let j = choose|j: int|
                    0 <= j < rest.len() && (#[trigger] rest[j]).data == RData::NS(target)
                        && rest[j].preamble.name == owner && is_within(qname, owner);
                assert(authorities[j + 1] == rest[j]);
            }
        }
        if exists|i: int|
            0 <= i < authorities.len() && (#[trigger] authorities[i]).data == RData::NS(target)
                && authorities[i].preamble.name == owner && is_within(qname, owner) {
            let i = choose|i: int|
                0 <= i < authorities.len() && (#[trigger] authorities[i]).data == RData::NS(
                    target,
                ) && authorities[i].preamble.name == owner && is_within(qname, owner);
            if i == 0 {
                assert(found[0] == pair);
            } else {
                assert(rest[i - 1] == authorities[i]);
                assert(rest_found.contains(pair));
                let k = choose|k: int| 0 <= k < rest_found.len() && rest_found[k] == pair;
                match head.data {
                    RData::NS(t) => {
                        if is_within(qname, head.preamble.name) {
                            assert(found[k + 1] == pair);
                        } else {
                            assert(found[k] == pair);
                        }
                    },
                    _ => {
                        assert(found[k] == pair);
                    },
                }
            }
        }
    }
}

} // verus!
