//! Questions, resource records, and the packet buffer that holds their wire images.
use vstd::prelude::*;
use crate::bytes::{append_be, be_encode, lemma_pow256_16, pow256};
use crate::error::SimpleDnsError;
use crate::header::{header_of, header_wf, header_wire, lemma_header_round_trip, u16_at, PacketHeader};
use crate::name::{labels_wf, labels_wire, Name};
use crate::rdata::{a_wire, aaaa_wire, A, AAAA};

verus! {

pub const TYPE_A: u16 = 1;
pub const TYPE_AAAA: u16 = 28;
pub const TYPE_SRV: u16 = 33;
pub const CLASS_IN: u16 = 1;

/// A question: a name, the record type and class asked for, and whether a
/// unicast response is preferred (the top bit of the class on the wire).
#[derive(Debug, Clone)]
pub struct Question {
    pub qname: Name,
    pub qtype: u16,
    pub qclass: u16,
    pub unicast_response: bool,
}

/// The name is valid and the class leaves the top bit free.
pub open spec fn question_wf(q: Question) -> bool {
    labels_wf(q.qname@) && q.qclass < 32768
}

/// The class field as written: the top bit holds the unicast-response preference.
pub open spec fn class_field(q: Question) -> nat {
    q.qclass as nat + if q.unicast_response { 32768nat } else { 0nat }
}

/// The wire image of a question with these parts.
pub open spec fn question_image(name: Seq<Seq<u8>>, qtype: u16, qclass: u16, unicast_response: bool) -> Seq<u8> {
    labels_wire(name) + be_encode(qtype as nat, 2) + be_encode(
        qclass as nat + if unicast_response { 32768nat } else { 0nat },
        2,
    )
}

pub open spec fn question_wire(q: Question) -> Seq<u8> {
    question_image(q.qname@, q.qtype, q.qclass, q.unicast_response)
}

impl Question {
    pub fn new(qname: Name, qtype: u16, qclass: u16, unicast_response: bool) -> (r: Question)
        ensures
            r.qname@ == qname@,
            r.qtype == qtype,
            r.qclass == qclass,
            r.unicast_response == unicast_response,
    {
        Question { qname, qtype, qclass, unicast_response }
    }

    /// Appends the wire image of the question to `out`.
    pub fn append_to_vec(&self, out: &mut Vec<u8>)
        requires
            question_wf(*self),
        ensures
            final(out)@ == old(out)@ + question_wire(*self),
    {
        proof {
            lemma_pow256_16();
        }
        let ghost start = out@;
        self.qname.append_to_vec(out);
        append_be(out, self.qtype as u128, 2);
        let class: u16 = if self.unicast_response { self.qclass + 32768 } else { self.qclass };
        append_be(out, class as u128, 2);
        assert(out@ =~= start + question_wire(*self));
    }
}

/// Service record data: where a service listens.
#[derive(Debug, Clone)]
pub struct SRV {
    pub priority: u16,
    pub weight: u16,
    pub port: u16,
    pub target: Name,
}

/// The payload of a resource record, by record type.
#[derive(Debug, Clone)]
pub enum RData {
    A(A),
    AAAA(AAAA),
    SRV(SRV),
}

pub open spec fn rdata_type(d: RData) -> u16 {
    match d {
        RData::A(_) => TYPE_A,
        RData::AAAA(_) => TYPE_AAAA,
        RData::SRV(_) => TYPE_SRV,
    }
}

pub open spec fn rdata_wire(d: RData) -> Seq<u8> {
    match d {
        RData::A(a) => a_wire(a.address),
        RData::AAAA(a) => aaaa_wire(a.address),
        RData::SRV(s) => be_encode(s.priority as nat, 2) + be_encode(s.weight as nat, 2) + be_encode(
            s.port as nat,
            2,
        ) + labels_wire(s.target@),
    }
}

/// A resource record; its type follows from its data.
#[derive(Debug, Clone)]
pub struct ResourceRecord {
    pub name: Name,
    pub class: u16,
    pub ttl: u32,
    pub rdata: RData,
}

pub open spec fn record_wf(r: ResourceRecord) -> bool {
    &&& labels_wf(r.name@)
    &&& r.rdata matches RData::SRV(s) ==> labels_wf(s.target@)
}

pub open spec fn record_wire(r: ResourceRecord) -> Seq<u8> {
    labels_wire(r.name@) + be_encode(rdata_type(r.rdata) as nat, 2) + be_encode(r.class as nat, 2)
        + be_encode(r.ttl as nat, 4) + be_encode(rdata_wire(r.rdata).len(), 2) + rdata_wire(r.rdata)
}

impl ResourceRecord {
    pub fn new(name: Name, class: u16, ttl: u32, rdata: RData) -> (r: ResourceRecord)
        ensures
            r.name@ == name@,
            r.class == class,
            r.ttl == ttl,
            r.rdata == rdata,
    {
        ResourceRecord { name, class, ttl, rdata }
    }

    /// Appends the wire image of the record to `out`.
    pub fn append_to_vec(&self, out: &mut Vec<u8>)
        requires
            record_wf(*self),
        ensures
            final(out)@ == old(out)@ + record_wire(*self),
    {
        proof {
            lemma_pow256_16();
        }
        let ghost start = out@;
        self.name.append_to_vec(out);
        let (rtype, rlen): (u16, usize) = match &self.rdata {
            RData::A(_) => (TYPE_A, 4),
            RData::AAAA(_) => (TYPE_AAAA, 16),
            RData::SRV(s) => (TYPE_SRV, 6 + s.target.len()),
        };
        append_be(out, rtype as u128, 2);
        append_be(out, self.class as u128, 2);
        append_be(out, self.ttl as u128, 4);
        append_be(out, rlen as u128, 2);
        let ghost mid = out@;
        match &self.rdata {
            RData::A(a) => {
                let _ = a.append_to_vec(out);
            },
            RData::AAAA(a) => {
                let _ = a.append_to_vec(out);
            },
            RData::SRV(s) => {
                append_be(out, s.priority as u128, 2);
                append_be(out, s.weight as u128, 2);
                append_be(out, s.port as u128, 2);
                s.target.append_to_vec(out);
            },
        }
        assert(out@ =~= mid + rdata_wire(self.rdata));
        assert(out@ =~= start + record_wire(*self));
    }
}

/// The entries' images, one after another.
pub open spec fn concat(s: Seq<Seq<u8>>) -> Seq<u8>
    decreases s.len(),
{
    if s.len() == 0 { Seq::empty() } else { concat(s.drop_last()) + s.last() }
}

/// An owned DNS wire image, built section by section. The header's counts
/// always match the entries written after it.
pub struct PacketBuf {
    data: Vec<u8>,
    header: Ghost<PacketHeader>,
    questions: Ghost<Seq<Seq<u8>>>,
    answers: Ghost<Seq<Seq<u8>>>,
    additional: Ghost<Seq<Seq<u8>>>,
}

impl PacketBuf {
    /// The bytes of the packet.
    pub closed spec fn wire(&self) -> Seq<u8> {
        self.data@
    }

    /// The header that the first 12 bytes hold.
    pub closed spec fn spec_header(&self) -> PacketHeader {
        self.header@
    }

    /// The wire images of the questions, in order.
    pub closed spec fn question_entries(&self) -> Seq<Seq<u8>> {
        self.questions@
    }

    /// The wire images of the answers, in order.
    pub closed spec fn answer_entries(&self) -> Seq<Seq<u8>> {
        self.answers@
    }

    /// The wire images of the additional records, in order.
    pub closed spec fn additional_entries(&self) -> Seq<Seq<u8>> {
        self.additional@
    }

    pub closed spec fn wf(&self) -> bool {
        &&& header_wf(self.header@)
        &&& self.data@ == header_wire(self.header@) + concat(self.questions@) + concat(self.answers@)
            + concat(self.additional@)
        &&& self.header@.questions_count == self.questions@.len()
        &&& self.header@.answers_count == self.answers@.len()
        &&& self.header@.authority_count == 0
        &&& self.header@.additional_count == self.additional@.len()
    }

    /// A packet with the header's id and flags and no entries.
    pub fn new(header: PacketHeader) -> (r: PacketBuf)
        requires
            header_wf(header),
        ensures
            r.wf(),
            r.spec_header() == (PacketHeader {
                questions_count: 0,
                answers_count: 0,
                authority_count: 0,
                additional_count: 0,
                ..header
            }),
            r.question_entries().len() == 0,
            r.answer_entries().len() == 0,
            r.additional_entries().len() == 0,
    {
        let h = PacketHeader {
            questions_count: 0,
            answers_count: 0,
            authority_count: 0,
            additional_count: 0,
            ..header
        };
        let mut data: Vec<u8> = Vec::new();
        h.write_to(&mut data);
        let r = PacketBuf {
            data,
            header: Ghost(h),
            questions: Ghost(Seq::empty()),
            answers: Ghost(Seq::empty()),
            additional: Ghost(Seq::empty()),
        };
        assert(r.data@ =~= header_wire(h) + concat(Seq::<Seq<u8>>::empty()) + concat(Seq::<Seq<u8>>::empty())
            + concat(Seq::<Seq<u8>>::empty()));
        r
    }

    /// The bytes of the packet.
    pub fn as_bytes(&self) -> (r: &[u8])
        ensures
            r@ == self.wire(),
    {
        self.data.as_slice()
    }

    /// The id of the packet.
    pub fn packet_id(&self) -> (r: u16)
        requires
            self.wf(),
        ensures
            r == self.spec_header().id,
    {
        proof {
            self.lemma_header_prefix();
        }
        PacketHeader::id(self.data.as_slice())
    }

    proof fn lemma_header_prefix(&self)
        requires
            self.wf(),
        ensures
            self.data@.len() >= 12,
            header_of(self.data@) == self.header@,
    {
        lemma_header_round_trip(self.header@);
        let w = header_wire(self.header@);
        let rest = concat(self.questions@) + concat(self.answers@) + concat(self.additional@);
        assert(self.data@ =~= w + rest);
        assert(self.data@.subrange(0, 2) =~= w.subrange(0, 2));
        assert(self.data@.subrange(4, 6) =~= w.subrange(4, 6));
        assert(self.data@.subrange(6, 8) =~= w.subrange(6, 8));
        assert(self.data@.subrange(8, 10) =~= w.subrange(8, 10));
        assert(self.data@.subrange(10, 12) =~= w.subrange(10, 12));
        assert(header_of(self.data@) =~= header_of(w));
    }

    /// Writes `v` over the two bytes at `pos` of the header image.
    fn set_count(&mut self, pos: usize, v: u16)
        requires
            pos + 2 <= 12,
            old(self).data@.len() >= 12,
        ensures
            final(self).data@ == old(self).data@.subrange(0, pos as int) + be_encode(v as nat, 2)
                + old(self).data@.subrange(pos + 2, old(self).data@.len() as int),
            final(self).header == old(self).header,
            final(self).questions == old(self).questions,
            final(self).answers == old(self).answers,
            final(self).additional == old(self).additional,
    {
        proof {
            lemma_pow256_16();
            assert(pow256(1) == 256);
            assert(pow256(0) == 1);
        }
        self.data.set(pos, (v / 256) as u8);
        self.data.set(pos + 1, (v % 256) as u8);
        assert(self.data@ =~= old(self).data@.subrange(0, pos as int) + be_encode(v as nat, 2)
            + old(self).data@.subrange(pos + 2, old(self).data@.len() as int));
    }

    /// Appends a question and counts it. Questions come before any record.
    pub fn add_question(&mut self, question: &Question) -> (r: Result<(), SimpleDnsError>)
        requires
            old(self).wf(),
            question_wf(*question),
        ensures
            final(self).wf(),
            r is Ok <==> (old(self).answer_entries().len() == 0 && old(self).additional_entries().len() == 0
                && old(self).question_entries().len() < 65535),
            r is Err ==> r == Err::<(), SimpleDnsError>(SimpleDnsError::InvalidDnsPacket) && *final(self) == *old(self),
            r is Ok ==> final(self).question_entries() == old(self).question_entries().push(question_wire(*question))
                && final(self).answer_entries() == old(self).answer_entries()
                && final(self).additional_entries() == old(self).additional_entries()
                && final(self).spec_header() == (PacketHeader {
                    questions_count: (old(self).spec_header().questions_count + 1) as u16,
                    ..old(self).spec_header()
                }),
    {
        proof {
            self.lemma_header_prefix();
        }
        let qd = read_count(self.data.as_slice(), 4);
        let an = read_count(self.data.as_slice(), 6);
        let ar = read_count(self.data.as_slice(), 10);
        if an != 0 || ar != 0 || qd == 65535 {
            return Err(SimpleDnsError::InvalidDnsPacket);
        }
        let ghost old_h = self.header@;
        let ghost old_q = self.questions@;
        let ghost wire = question_wire(*question);
        question.append_to_vec(&mut self.data);
        let ghost h = PacketHeader { questions_count: (qd + 1) as u16, ..old_h };
        self.header = Ghost(h);
        self.questions = Ghost(old_q.push(wire));
        self.set_count(4, qd + 1);
        proof {
            assert(old_q.push(wire).drop_last() =~= old_q);
            assert(self.data@ =~= header_wire(h) + concat(self.questions@) + concat(self.answers@)
                + concat(self.additional@));
        }
        Ok(())
    }

    /// Appends an answer record and counts it. Answers come before additional records.
    pub fn add_answer(&mut self, record: &ResourceRecord) -> (r: Result<(), SimpleDnsError>)
        requires
            old(self).wf(),
            record_wf(*record),
        ensures
            final(self).wf(),
            r is Ok <==> (old(self).additional_entries().len() == 0 && old(self).answer_entries().len() < 65535),
            r is Err ==> r == Err::<(), SimpleDnsError>(SimpleDnsError::InvalidDnsPacket) && *final(self) == *old(self),
            r is Ok ==> final(self).answer_entries() == old(self).answer_entries().push(record_wire(*record))
                && final(self).question_entries() == old(self).question_entries()
                && final(self).additional_entries() == old(self).additional_entries()
                && final(self).spec_header() == (PacketHeader {
                    answers_count: (old(self).spec_header().answers_count + 1) as u16,
                    ..old(self).spec_header()
                }),
    {
        proof {
            self.lemma_header_prefix();
        }
        let an = read_count(self.data.as_slice(), 6);
        let ar = read_count(self.data.as_slice(), 10);
        if ar != 0 || an == 65535 {
            return Err(SimpleDnsError::InvalidDnsPacket);
        }
        let ghost old_h = self.header@;
        let ghost old_a = self.answers@;
        let ghost wire = record_wire(*record);
        record.append_to_vec(&mut self.data);
        let ghost h = PacketHeader { answers_count: (an + 1) as u16, ..old_h };
        self.header = Ghost(h);
        self.answers = Ghost(old_a.push(wire));
        self.set_count(6, an + 1);
        proof {
            assert(old_a.push(wire).drop_last() =~= old_a);
            assert(self.data@ =~= header_wire(h) + concat(self.questions@) + concat(self.answers@)
                + concat(self.additional@));
        }
        Ok(())
    }

    /// Appends an additional record and counts it.
    pub fn add_additional_record(&mut self, record: &ResourceRecord) -> (r: Result<(), SimpleDnsError>)
        requires
            old(self).wf(),
            record_wf(*record),
        ensures
            final(self).wf(),
            r is Ok <==> old(self).additional_entries().len() < 65535,
            r is Err ==> r == Err::<(), SimpleDnsError>(SimpleDnsError::InvalidDnsPacket) && *final(self) == *old(self),
            r is Ok ==> final(self).additional_entries() == old(self).additional_entries().push(record_wire(*record))
                && final(self).question_entries() == old(self).question_entries()
                && final(self).answer_entries() == old(self).answer_entries()
                && final(self).spec_header() == (PacketHeader {
                    additional_count: (old(self).spec_header().additional_count + 1) as u16,
                    ..old(self).spec_header()
                }),
    {
        proof {
            self.lemma_header_prefix();
        }
        let ar = read_count(self.data.as_slice(), 10);
        if ar == 65535 {
            return Err(SimpleDnsError::InvalidDnsPacket);
        }
        let ghost old_h = self.header@;
        let ghost old_a = self.additional@;
        let ghost wire = record_wire(*record);
        record.append_to_vec(&mut self.data);
        let ghost h = PacketHeader { additional_count: (ar + 1) as u16, ..old_h };
        self.header = Ghost(h);
        self.additional = Ghost(old_a.push(wire));
        self.set_count(10, ar + 1);
        proof {
            assert(old_a.push(wire).drop_last() =~= old_a);
            assert(self.data@ =~= header_wire(h) + concat(self.questions@) + concat(self.answers@)
                + concat(self.additional@));
        }
        Ok(())
    }

    /// A well-formed packet's header, read back from its bytes, declares as many
    /// entries in each section as were appended to it.
    pub proof fn lemma_counts_match(&self)
        requires
            self.wf(),
        ensures
            header_of(self.wire()).questions_count == self.question_entries().len(),
            header_of(self.wire()).answers_count == self.answer_entries().len(),
            header_of(self.wire()).authority_count == 0,
            header_of(self.wire()).additional_count == self.additional_entries().len(),
            header_of(self.wire()) == self.spec_header(),
            u16_at(self.wire(), 0) == self.spec_header().id,
            header_wf(self.spec_header()),
            self.wire() == header_wire(self.spec_header()) + concat(self.question_entries()) + concat(
                self.answer_entries(),
            ) + concat(self.additional_entries()),
            self.wire().len() >= 12,
    {
        self.lemma_header_prefix();
        lemma_header_round_trip(self.header@);
    }
}

fn read_count(data: &[u8], pos: usize) -> (r: u16)
    requires
        pos + 2 <= data@.len(),
    ensures
        r == u16_at(data@, pos as int),
{
    proof {
        crate::bytes::lemma_be_value_bound(data@.subrange(pos as int, pos + 2));
        lemma_pow256_16();
    }
    crate::bytes::read_be(data, pos, 2) as u16
}

} // verus!
