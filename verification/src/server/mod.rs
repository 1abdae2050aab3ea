//! The decisions of the resolver: which query to send next, what to make of
//! each response, when to stop, and what to answer a client. Sending and
//! receiving datagrams is left to the caller.

use crate::message::byte_packet_buffer::{BytePacketBuffer, BytePacketBufferError};
use crate::message::header::{DNSHeaderSection, QRFlag, RAFlag, RCode, RDFlag};
use crate::message::packet::{
    first_a, ns_for, packet_at, resolved_ns, unresolved_ns, DNSPacket, PacketModel,
};
use crate::message::records::RecordModel;
use crate::message::{u16_at, DNSQuestion, QRClass, QRType, QuestionModel};
use vstd::prelude::*;
use vstd::string::*;

verus! {

/// The number of queries that one resolution may send, those for the
/// addresses of name servers included.
pub const MAX_ROUND_TRIPS: usize = 16;

/// The port that name servers listen on.
pub const DNS_PORT: u16 = 53;

/// The name server that a resolution asks first, 1.1.1.1, unless it is given
/// another.
pub const BOOTSTRAP_SERVER: u32 = 0x0101_0101;

/// Why a resolution came to nothing.
#[derive(Debug, Clone, Copy, PartialEq, Eq, Structural)]
pub enum ResolveError {
    /// The resolution would have needed more queries than it may send.
    IterationCapExceeded,
    /// A datagram could not be sent, or no reply came in time.
    Transport,
    /// A query could not be written, or a reply could not be read.
    Codec(BytePacketBufferError),
}

/// The identifier that `seed` gives: its bits stirred by three shifts, and
/// of that the remainder modulo 65535.
pub open spec fn packet_id(seed: u64) -> u16 {
    let a: u64 = seed ^ (seed << 21);
    let b: u64 = a ^ (a >> 35);
    let c: u64 = b ^ (b << 4);
    (c % 65535) as u16
}

/// An identifier for a query, made from `seed`; the caller passes a seed
/// that varies, such as the time in microseconds.
pub fn generate_packet_id(seed: u64) -> (id: u16)
    ensures
        id == packet_id(seed),
{
    let a: u64 = seed ^ (seed << 21);
    let b: u64 = a ^ (a >> 35);
    let c: u64 = b ^ (b << 4);
    (c % 65535) as u16
}

/// A query: the first message of an exchange with a name server, with
/// recursion not asked for and one question.
pub open spec fn query_model(
    id: u16,
    qname: Seq<char>,
    qtype: QRType,
    qclass: QRClass,
) -> PacketModel {
    PacketModel {
        header: DNSHeaderSection { id, qdcount: 1, ..DNSHeaderSection::blank() },
        questions: seq![QuestionModel { qname, qtype, qclass }],
        answers: Seq::empty(),
        authorities: Seq::empty(),
        additionals: Seq::empty(),
    }
}

/// The query for `qname` with this identifier: recursion is not asked for,
/// since the resolver follows referrals itself.
pub fn build_query(id: u16, qname: &str, qtype: QRType, qclass: QRClass) -> (p: DNSPacket)
    ensures
        p@ == query_model(id, qname@, qtype, qclass),
{
    let mut packet: DNSPacket = DNSPacket::new();
    packet.header.id = id;
    packet.header.qdcount = 1;
    packet.header.rd = RDFlag::NonDesired;
    packet.question.add_question(DNSQuestion::new(qname.to_owned(), qtype, qclass));
    proof {
        assert(packet@.questions =~= seq![QuestionModel { qname: qname@, qtype, qclass }]);
        assert(packet@.answers =~= Seq::<RecordModel>::empty());
        assert(packet@.authorities =~= Seq::<RecordModel>::empty());
        assert(packet@.additionals =~= Seq::<RecordModel>::empty());
    }
    packet
}

/// A lookup: what is asked, and of which server.
#[derive(Debug, PartialEq, Eq)]
pub struct Lookup {
    pub qname: String,
    pub qtype: QRType,
    /// The IPv4 address of the server, its four octets in network order.
    pub server: u32,
}

/// What a lookup holds.
pub struct LookupModel {
    pub qname: Seq<char>,
    pub qtype: QRType,
    pub server: u32,
}

impl View for Lookup {
    type V = LookupModel;

    open spec fn view(&self) -> LookupModel {
        LookupModel { qname: self.qname@, qtype: self.qtype, server: self.server }
    }
}

/// A lookup that waits for the address of a name server, with the response
/// that named the server.
#[derive(Debug, PartialEq, Eq)]
pub struct Waiting {
    pub lookup: Lookup,
    pub response: DNSPacket,
}

/// What a waiting lookup holds.
pub struct WaitingModel {
    pub lookup: LookupModel,
    pub response: PacketModel,
}

impl View for Waiting {
    type V = WaitingModel;

    open spec fn view(&self) -> WaitingModel {
        WaitingModel { lookup: self.lookup@, response: self.response@ }
    }
}

/// What each of a sequence of waiting lookups holds.
pub open spec fn waiting_models(waiting: Seq<Waiting>) -> Seq<WaitingModel> {
    Seq::new(waiting.len(), |i: int| waiting[i]@)
}

/// A resolution in progress.
#[derive(Debug, PartialEq, Eq)]
pub struct Resolution {
    /// The lookups that wait for the address of a name server, the one that
    /// was asked of the resolution first.
    pub waiting: Vec<Waiting>,
    /// The lookup whose query is to be sent, or was sent last.
    pub current: Lookup,
    /// The number of queries that the resolution has asked its caller to
    /// send.
    pub round_trips: usize,
    /// The server that each lookup asks first.
    pub bootstrap: u32,
}

/// What a resolution holds.
pub struct ResolutionModel {
    pub waiting: Seq<WaitingModel>,
    pub current: LookupModel,
    pub round_trips: nat,
    pub bootstrap: u32,
}

impl View for Resolution {
    type V = ResolutionModel;

    open spec fn view(&self) -> ResolutionModel {
        ResolutionModel {
            waiting: waiting_models(self.waiting@),
            current: self.current@,
            round_trips: self.round_trips as nat,
            bootstrap: self.bootstrap,
        }
    }
}

/// What a resolution wants of its caller next.
#[derive(Debug, PartialEq, Eq)]
pub enum Step {
    /// Send the query of the current lookup of this resolution to its
    /// server, and hand the reply to `on_response`.
    Ask(Resolution),
    /// The resolution has ended with this response.
    Done(DNSPacket),
    /// The resolution has come to nothing.
    Failed(ResolveError),
}

/// What a step holds.
pub enum StepModel {
    Ask(ResolutionModel),
    Done(PacketModel),
    Failed(ResolveError),
}

impl View for Step {
    type V = StepModel;

    open spec fn view(&self) -> StepModel {
        match self {
            Step::Ask(r) => StepModel::Ask(r@),
            Step::Done(p) => StepModel::Done(p@),
            Step::Failed(e) => StepModel::Failed(*e),
        }
    }
}

/// What a lookup makes of a response.
pub enum Verdict {
    /// The response is the result of the lookup.
    Return,
    /// The response refers to a name server with this address: ask it.
    Retry(u32),
    /// The response refers to a name server without an address: look up the
    /// address of this host first.
    Descend(Seq<char>),
}

/// What the lookup of `qname` makes of `response`: an answer without error,
/// or the word that the name does not exist, is its result; else it follows
/// the first name server for `qname` that comes with an address, else the
/// first that comes without; else the response is its result as it is.
pub open spec fn verdict(qname: Seq<char>, response: PacketModel) -> Verdict {
    if response.answers.len() > 0 && response.header.rcode == RCode::NoError {
        Verdict::Return
    } else if response.header.rcode == RCode::NXDomain {
        Verdict::Return
    } else {
        let servers = ns_for(qname, response.authorities);
        match resolved_ns(servers, response.additionals) {
            Some(address) => Verdict::Retry(address),
            None => match unresolved_ns(servers, response.additionals) {
                Some(host) => Verdict::Descend(host),
                None => Verdict::Return,
            },
        }
    }
}

/// The resolution asks for one more query, unless it has asked for all that
/// it may send.
pub open spec fn ask(r: ResolutionModel) -> StepModel {
    if r.round_trips >= MAX_ROUND_TRIPS {
        StepModel::Failed(ResolveError::IterationCapExceeded)
    } else {
        StepModel::Ask(ResolutionModel { round_trips: r.round_trips + 1, ..r })
    }
}

/// A lookup has ended with `result`. The lookup that waited for it last
/// goes on with the first address in the answers of `result`; where there
/// is none, it ends with the response that it has kept, and so on through
/// the lookups that wait. Where none waits, the resolution is done.
pub open spec fn deliver(r: ResolutionModel, result: PacketModel) -> StepModel
    decreases r.waiting.len(),
{
    if r.waiting.len() == 0 {
        StepModel::Done(result)
    } else {
        let last = r.waiting.last();
        let rest = ResolutionModel { waiting: r.waiting.drop_last(), ..r };
        match first_a(result.answers) {
            Some(address) => ask(
                ResolutionModel {
                    current: LookupModel { server: address, ..last.lookup },
                    ..rest
                },
            ),
            None => deliver(rest, last.response),
        }
    }
}

/// What a resolution does with the response to the query of its current
/// lookup.
pub open spec fn step(r: ResolutionModel, response: PacketModel) -> StepModel {
    match verdict(r.current.qname, response) {
        Verdict::Return => deliver(r, response),
        Verdict::Retry(address) => ask(
            ResolutionModel { current: LookupModel { server: address, ..r.current }, ..r },
        ),
        Verdict::Descend(host) => ask(
            ResolutionModel {
                waiting: r.waiting.push(WaitingModel { lookup: r.current, response }),
                current: LookupModel { qname: host, qtype: QRType::A, server: r.bootstrap },
                ..r
            },
        ),
    }
}

/// The start of the resolution of `qname`: its first query, to `bootstrap`,
/// counts as asked for.
pub open spec fn start_model(qname: Seq<char>, qtype: QRType, bootstrap: u32) -> ResolutionModel {
    ResolutionModel {
        waiting: Seq::empty(),
        current: LookupModel { qname, qtype, server: bootstrap },
        round_trips: 1,
        bootstrap,
    }
}

impl Resolution {
    /// No more lookups wait than queries were asked for, and no more queries
    /// were asked for than may be sent.
    pub open spec fn wf(&self) -> bool {
        self.waiting@.len() < self.round_trips <= MAX_ROUND_TRIPS
    }

    /// Starts the resolution of `qname`. The caller sends the query of the
    /// current lookup to its server and hands the reply to `on_response`.
    pub fn start(qname: String, qtype: QRType, bootstrap: u32) -> (r: Resolution)
        ensures
            r@ == start_model(qname@, qtype, bootstrap),
            r.wf(),
    {
        let r = Resolution {
            waiting: Vec::new(),
            current: Lookup { qname, qtype, server: bootstrap },
            round_trips: 1,
            bootstrap,
        };
        proof {
            assert(r@.waiting =~= Seq::<WaitingModel>::empty());
        }
        r
    }

    /// Asks for one more query, unless all that may be sent were asked for.
    fn ask(self) -> (s: Step)
        ensures
            s@ == ask(self@),
            s matches Step::Ask(next) ==> next.round_trips == self.round_trips + 1
                && next.round_trips <= MAX_ROUND_TRIPS && next.waiting == self.waiting,
    {
        if self.round_trips >= MAX_ROUND_TRIPS {
            Step::Failed(ResolveError::IterationCapExceeded)
        } else {
            Step::Ask(
                Resolution {
                    waiting: self.waiting,
                    current: self.current,
                    round_trips: self.round_trips + 1,
                    bootstrap: self.bootstrap,
                },
            )
        }
    }

    /// Ends the current lookup with `result` and goes on with the lookup
    /// that waited for it.
    fn deliver(self, result: DNSPacket) -> (s: Step)
        ensures
            s@ == deliver(self@, result@),
            s matches Step::Ask(next) ==> next.round_trips == self.round_trips + 1
                && next.round_trips <= MAX_ROUND_TRIPS && next.waiting@.len()
                < self.waiting@.len(),
    {
        let mut waiting: Vec<Waiting> = self.waiting;
        let mut outcome: DNSPacket = result;
        let round_trips: usize = self.round_trips;
        let bootstrap: u32 = self.bootstrap;
        let ghost current = self@.current;
        let ghost whole = deliver(self@, outcome@);
        loop
            invariant
                whole == deliver(
                    ResolutionModel {
                        waiting: waiting_models(waiting@),
                        current,
                        round_trips: round_trips as nat,
                        bootstrap,
                    },
                    outcome@,
                ),
                whole == deliver(self@, result@),
                waiting@.len() <= self.waiting@.len(),
                round_trips == self.round_trips,
            decreases waiting@.len(),
        {
            let ghost before = waiting_models(waiting@);
            match waiting.pop() {
                None => {
                    return Step::Done(outcome);
                },
                Some(last) => {
                    proof {
                        assert(waiting_models(waiting@) =~= before.drop_last());
                    }
                    match outcome.get_random_a() {
                        Some(address) => {
                            let next = Resolution {
                                waiting,
                                current: Lookup {
                                    qname: last.lookup.qname,
                                    qtype: last.lookup.qtype,
                                    server: address,
                                },
                                round_trips,
                                bootstrap,
                            };
                            return next.ask();
                        },
                        None => {
                            outcome = last.response;
                        },
                    }
                },
            }
        }
    }

    /// Takes the response to the query of the current lookup and says what
    /// the caller is to do next: send another query, or stop.
    ///
    /// An answer without error, and the word that the name does not exist,
    /// end the lookup. Else the lookup follows a name server for its name
    /// that comes with an address. Else a name server for its name comes
    /// without an address, and the lookup waits while that address is looked
    /// up, from the bootstrap server on; it goes on with the first address
    /// found, and ends with the response it has where none is found. Else
    /// the lookup ends with the response as it is. The resolution fails
    /// where it would have to ask for more queries than it may send.
    pub fn on_response(self, response: DNSPacket) -> (s: Step)
        ensures
            s@ == step(self@, response@),
            s matches Step::Ask(next) ==> next.round_trips == self.round_trips + 1
                && next.round_trips <= MAX_ROUND_TRIPS && next.waiting@.len() <= self.waiting@.len()
                + 1,
            self.wf() ==> (s matches Step::Ask(next) ==> next.wf()),
    {
        if response.answer.answers.len() > 0 && response.header.rcode == RCode::NoError {
            return self.deliver(response);
        }
        if response.header.rcode == RCode::NXDomain {
            return self.deliver(response);
        }
        match response.get_resolved_ns(self.current.qname.as_str()) {
            Some(address) => {
                let next = Resolution {
                    waiting: self.waiting,
                    current: Lookup {
                        qname: self.current.qname,
                        qtype: self.current.qtype,
                        server: address,
                    },
                    round_trips: self.round_trips,
                    bootstrap: self.bootstrap,
                };
                return next.ask();
            },
            None => {},
        }
        match response.get_unresolved_ns(self.current.qname.as_str()) {
            Some(host) => {
                let ghost before = waiting_models(self.waiting@);
                let ghost kept = WaitingModel { lookup: self.current@, response: response@ };
                let mut waiting: Vec<Waiting> = self.waiting;
                waiting.push(Waiting { lookup: self.current, response });
                proof {
                    assert(waiting_models(waiting@) =~= before.push(kept));
                }
                let next = Resolution {
                    waiting,
                    current: Lookup { qname: host, qtype: QRType::A, server: self.bootstrap },
                    round_trips: self.round_trips,
                    bootstrap: self.bootstrap,
                };
                next.ask()
            },
            None => self.deliver(response),
        }
    }
}

/// The number of queries that a resolution has asked for once `replies` have
/// been handed to it one after the other, for as long as it asks.
pub open spec fn queries_sent(r: ResolutionModel, replies: Seq<PacketModel>) -> nat
    decreases replies.len(),
{
    if replies.len() == 0 {
        r.round_trips
    } else {
        match step(r, replies[0]) {
            StepModel::Ask(next) => queries_sent(next, replies.drop_first()),
            _ => r.round_trips,
        }
    }
}

/// Delivering a result asks for at most one query more, and for none past
/// the cap.
pub proof fn lemma_deliver_counts(r: ResolutionModel, result: PacketModel)
    requires
        r.round_trips <= MAX_ROUND_TRIPS,
    ensures
        deliver(r, result) matches StepModel::Ask(next) ==> next.round_trips == r.round_trips + 1
            && next.round_trips <= MAX_ROUND_TRIPS,
    decreases r.waiting.len(),
{
    if r.waiting.len() > 0 {
        let last = r.waiting.last();
        let rest = ResolutionModel { waiting: r.waiting.drop_last(), ..r };
        if first_a(result.answers) is None {
            lemma_deliver_counts(rest, last.response);
        }
    }
}

/// A resolution never asks for more than sixteen queries, whatever the
/// replies are: the first query, those to the servers it is referred to, and
/// those for the addresses of name servers, all counted.
pub proof fn law_iteration_cap(r: ResolutionModel, replies: Seq<PacketModel>)
    requires
        r.round_trips <= MAX_ROUND_TRIPS,
    ensures
        queries_sent(r, replies) <= MAX_ROUND_TRIPS,
    decreases replies.len(),
{
    if replies.len() > 0 {
        lemma_deliver_counts(r, replies[0]);
        match step(r, replies[0]) {
            StepModel::Ask(next) => {
                law_iteration_cap(next, replies.drop_first());
            },
            _ => {},
        }
    }
}

/// The header of a reply to a client: the identifier of the request, marked
/// as a response, with recursion asked for and offered, and `rcode`.
pub open spec fn reply_header(id: u16, rcode: RCode) -> DNSHeaderSection {
    DNSHeaderSection {
        id,
        qr: QRFlag::Response,
        rd: RDFlag::Desired,
        ra: RAFlag::Available,
        rcode,
        ..DNSHeaderSection::blank()
    }
}

/// The reply to a request that could not be read or that asks nothing: a
/// format error, and no questions or records.
pub open spec fn refusal_model(id: u16) -> PacketModel {
    PacketModel {
        header: reply_header(id, RCode::FormErr),
        questions: Seq::empty(),
        answers: Seq::empty(),
        authorities: Seq::empty(),
        additionals: Seq::empty(),
    }
}

/// The reply to the client that asked `question`. Where the resolution has
/// ended with a response, the reply holds the question, the response code of
/// that response and its records, section by section. Where the resolution
/// has failed, the reply says that the server has failed, and holds nothing
/// else.
pub open spec fn answer_model(
    id: u16,
    question: QuestionModel,
    outcome: Result<PacketModel, ResolveError>,
) -> PacketModel {
    match outcome {
        Ok(result) => PacketModel {
            header: reply_header(id, result.header.rcode),
            questions: seq![question],
            answers: result.answers,
            authorities: result.authorities,
            additionals: result.additionals,
        },
        Err(_) => PacketModel {
            header: reply_header(id, RCode::ServFail),
            questions: Seq::empty(),
            answers: Seq::empty(),
            authorities: Seq::empty(),
            additionals: Seq::empty(),
        },
    }
}

/// A reply without questions or records.
fn empty_reply(id: u16, rcode: RCode) -> (p: DNSPacket)
    ensures
        p@ == (PacketModel {
            header: reply_header(id, rcode),
            questions: Seq::empty(),
            answers: Seq::empty(),
            authorities: Seq::empty(),
            additionals: Seq::empty(),
        }),
{
    let mut packet: DNSPacket = DNSPacket::new();
    packet.header.id = id;
    packet.header.rd = RDFlag::Desired;
    packet.header.ra = RAFlag::Available;
    packet.header.qr = QRFlag::Response;
    packet.header.rcode = rcode;
    proof {
        assert(packet@.questions =~= Seq::<QuestionModel>::empty());
        assert(packet@.answers =~= Seq::<RecordModel>::empty());
        assert(packet@.authorities =~= Seq::<RecordModel>::empty());
        assert(packet@.additionals =~= Seq::<RecordModel>::empty());
    }
    packet
}

/// The reply to a request that could not be read or that asks nothing.
pub fn refusal(id: u16) -> (p: DNSPacket)
    ensures
        p@ == refusal_model(id),
{
    empty_reply(id, RCode::FormErr)
}

/// The reply to the client that asked `question`, once its resolution has
/// ended with `outcome`.
pub fn answer(id: u16, question: DNSQuestion, outcome: Result<DNSPacket, ResolveError>) -> (p:
    DNSPacket)
    ensures
        match outcome {
            Ok(result) => p@ == answer_model(
                id,
                question@,
                Ok::<PacketModel, ResolveError>(result@),
            ),
            Err(e) => p@ == answer_model(id, question@, Err::<PacketModel, ResolveError>(e)),
        },
{
    match outcome {
        Ok(result) => {
            let mut packet: DNSPacket = empty_reply(id, result.header.rcode);
            let ghost asked = question@;
            packet.question.add_question(question);
            packet.answer = result.answer;
            packet.authority = result.authority;
            packet.additional = result.additional;
            proof {
                assert(packet@.questions =~= seq![asked]);
            }
            packet
        },
        Err(_) => empty_reply(id, RCode::ServFail),
    }
}

/// What a datagram from a client asks for.
#[derive(Debug, PartialEq, Eq)]
pub enum Request {
    /// Resolve this question, and answer with this identifier.
    Resolve { id: u16, question: DNSQuestion },
    /// Send this reply: the datagram could not be read, or asks nothing.
    Refuse(DNSPacket),
}

/// The identifier to answer a datagram with that could not be read: its
/// first two octets, or zero where it has none.
pub open spec fn stray_id(buf: Seq<u8>, pos: int) -> u16 {
    if pos + 2 <= buf.len() {
        u16_at(buf, pos)
    } else {
        0
    }
}

/// Reads the request under the cursor. A request that can be read and holds
/// a question is to be resolved for its first question. Any other is
/// refused with a format error: with its own identifier where it can be
/// read, else with the identifier that its first two octets spell.
pub fn read_request(buffer: &mut BytePacketBuffer) -> (r: Request)
    ensures
        final(buffer).buf == old(buffer).buf,
        old(buffer).wf() ==> final(buffer).wf(),
        match packet_at(old(buffer).buf@, old(buffer).pos as int) {
            Ok((m, end)) => if m.questions.len() > 0 {
                r matches Request::Resolve { id, question } && id == m.header.id && question@
                    == m.questions[0]
            } else {
                r matches Request::Refuse(p) && p@ == refusal_model(m.header.id)
            },
            Err(_) => r matches Request::Refuse(p) && p@ == refusal_model(
                stray_id(old(buffer).buf@, old(buffer).pos as int),
            ),
        },
{
    match DNSPacket::from_buffer(buffer) {
        Ok(request) => {
            let mut questions: Vec<DNSQuestion> = request.question.questions;
            if questions.len() > 0 {
                let question: DNSQuestion = questions.remove(0);
                Request::Resolve { id: request.header.id, question }
            } else {
                Request::Refuse(refusal(request.header.id))
            }
        },
        Err(_) => {
            let start: usize = buffer.pos;
            let id: u16 = match buffer.read_u16() {
                Ok(v) => v,
                Err(_) => 0,
            };
            buffer.pos = start;
            Request::Refuse(refusal(id))
        },
    }
}

} // verus!
