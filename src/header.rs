//! The 12-byte DNS packet header.
use vstd::prelude::*;
use crate::bytes::{append_be, be_encode, be_value, lemma_be_round_trip, lemma_be_value_bound, lemma_pow256_16, pow256, read_be};
use crate::error::SimpleDnsError;

verus! {

/// The header of a DNS packet.
#[derive(Debug, Clone, Copy, PartialEq, Eq, Structural)]
pub struct PacketHeader {
    /// Correlates a query with its responses.
    pub id: u16,
    /// True for a query, false for a response.
    pub query: bool,
    /// Kind of query, 4 bits.
    pub opcode: u8,
    pub authoritative_answer: bool,
    pub truncated: bool,
    pub recursion_desired: bool,
    /// Response code, 4 bits.
    pub response_code: u8,
    pub questions_count: u16,
    pub answers_count: u16,
    pub authority_count: u16,
    pub additional_count: u16,
}

/// Opcode and response code fit in their 4 bits.
pub open spec fn header_wf(h: PacketHeader) -> bool {
    h.opcode < 16 && h.response_code < 16
}

/// The third header byte: QR, opcode, AA, TC and RD, most significant first.
pub open spec fn flags_hi(h: PacketHeader) -> nat {
    (if h.query { 0nat } else { 128nat }) + h.opcode as nat * 8 + (if h.authoritative_answer { 4nat } else { 0nat })
        + (if h.truncated { 2nat } else { 0nat }) + (if h.recursion_desired { 1nat } else { 0nat })
}

/// The 12 bytes that encode `h`.
pub open spec fn header_wire(h: PacketHeader) -> Seq<u8> {
    be_encode(h.id as nat, 2) + seq![flags_hi(h) as u8, h.response_code]
        + be_encode(h.questions_count as nat, 2) + be_encode(h.answers_count as nat, 2)
        + be_encode(h.authority_count as nat, 2) + be_encode(h.additional_count as nat, 2)
}

/// The 16-bit big-endian number at `pos` of `s`.
pub open spec fn u16_at(s: Seq<u8>, pos: int) -> u16 {
    be_value(s.subrange(pos, pos + 2)) as u16
}

/// The header that the first 12 bytes of `s` encode.
pub open spec fn header_of(s: Seq<u8>) -> PacketHeader {
    PacketHeader {
        id: u16_at(s, 0),
        query: s[2] < 128,
        opcode: ((s[2] / 8) % 16) as u8,
        authoritative_answer: (s[2] / 4) % 2 == 1,
        truncated: (s[2] / 2) % 2 == 1,
        recursion_desired: s[2] % 2 == 1,
        response_code: s[3] % 16,
        questions_count: u16_at(s, 4),
        answers_count: u16_at(s, 6),
        authority_count: u16_at(s, 8),
        additional_count: u16_at(s, 10),
    }
}

proof fn lemma_u16_read(s: Seq<u8>, pos: int)
    requires
        0 <= pos,
        pos + 2 <= s.len(),
    ensures
        u16_at(s, pos) as nat == be_value(s.subrange(pos, pos + 2)),
{
    lemma_be_value_bound(s.subrange(pos, pos + 2));
    lemma_pow256_16();
}

fn read_u16(data: &[u8], pos: usize) -> (r: u16)
    requires
        pos + 2 <= data@.len(),
    ensures
        r == u16_at(data@, pos as int),
{
    proof {
        lemma_u16_read(data@, pos as int);
    }
    read_be(data, pos, 2) as u16
}

fn append_u16(out: &mut Vec<u8>, v: u16)
    ensures
        final(out)@ == old(out)@ + be_encode(v as nat, 2),
{
    proof {
        lemma_pow256_16();
    }
    append_be(out, v as u128, 2);
}

impl PacketHeader {
    /// A query header with the given id and no sections.
    pub fn new_query(id: u16, recursion_desired: bool) -> (r: PacketHeader)
        ensures
            header_wf(r),
            r.id == id,
            r.query,
            r.opcode == 0,
            !r.authoritative_answer,
            !r.truncated,
            r.recursion_desired == recursion_desired,
            r.response_code == 0,
            r.questions_count == 0,
            r.answers_count == 0,
            r.authority_count == 0,
            r.additional_count == 0,
    {
        PacketHeader {
            id,
            query: true,
            opcode: 0,
            authoritative_answer: false,
            truncated: false,
            recursion_desired,
            response_code: 0,
            questions_count: 0,
            answers_count: 0,
            authority_count: 0,
            additional_count: 0,
        }
    }

    /// Reads the id from the first 2 bytes, whatever follows them.
    pub fn id(data: &[u8]) -> (r: u16)
        requires
            data@.len() >= 2,
        ensures
            r == u16_at(data@, 0),
    {
        read_u16(data, 0)
    }

    /// Reads the answers count from bytes 6 and 7, whatever else the bytes hold.
    pub fn read_answers(data: &[u8]) -> (r: u16)
        requires
            data@.len() >= 8,
        ensures
            r == u16_at(data@, 6),
    {
        read_u16(data, 6)
    }

    /// Reads a header from the first 12 bytes of `data`.
    pub fn parse(data: &[u8]) -> (r: Result<PacketHeader, SimpleDnsError>)
        ensures
            r is Err <==> data@.len() < 12,
            r is Err ==> r == Err::<PacketHeader, SimpleDnsError>(SimpleDnsError::InvalidHeaderData),
            r matches Ok(h) ==> h == header_of(data@) && header_wf(h),
    {
        if data.len() < 12 {
            return Err(SimpleDnsError::InvalidHeaderData);
        }
        let b2 = data[2];
        let b3 = data[3];
        Ok(PacketHeader {
            id: read_u16(data, 0),
            query: b2 < 128,
            opcode: (b2 / 8) % 16,
            authoritative_answer: (b2 / 4) % 2 == 1,
            truncated: (b2 / 2) % 2 == 1,
            recursion_desired: b2 % 2 == 1,
            response_code: b3 % 16,
            questions_count: read_u16(data, 4),
            answers_count: read_u16(data, 6),
            authority_count: read_u16(data, 8),
            additional_count: read_u16(data, 10),
        })
    }

    /// Appends the 12 bytes of the header to `out`.
    pub fn write_to(&self, out: &mut Vec<u8>)
        requires
            header_wf(*self),
        ensures
            final(out)@ == old(out)@ + header_wire(*self),
    {
        let ghost start = out@;
        append_u16(out, self.id);
        let hi: u8 = (if self.query { 0u8 } else { 128u8 }) + self.opcode * 8 + (if self.authoritative_answer { 4u8 } else { 0u8 })
            + (if self.truncated { 2u8 } else { 0u8 }) + (if self.recursion_desired { 1u8 } else { 0u8 });
        out.push(hi);
        out.push(self.response_code);
        append_u16(out, self.questions_count);
        append_u16(out, self.answers_count);
        append_u16(out, self.authority_count);
        append_u16(out, self.additional_count);
        assert(out@ =~= start + header_wire(*self));
    }
}

proof fn lemma_u16_round_trip(v: u16)
    ensures
        be_encode(v as nat, 2).len() == 2,
        be_value(be_encode(v as nat, 2)) == v as nat,
{
    lemma_pow256_16();
    lemma_be_round_trip(v as nat, 2);
}

/// Reading a well-formed header back from its 12-byte image gives the header.
pub proof fn lemma_header_round_trip(h: PacketHeader)
    requires
        header_wf(h),
    ensures
        header_wire(h).len() == 12,
        header_of(header_wire(h)) == h,
{
    let w = header_wire(h);
    lemma_u16_round_trip(h.id);
    lemma_u16_round_trip(h.questions_count);
    lemma_u16_round_trip(h.answers_count);
    lemma_u16_round_trip(h.authority_count);
    lemma_u16_round_trip(h.additional_count);
    assert(w.subrange(0, 2) =~= be_encode(h.id as nat, 2));
    assert(w.subrange(4, 6) =~= be_encode(h.questions_count as nat, 2));
    assert(w.subrange(6, 8) =~= be_encode(h.answers_count as nat, 2));
    assert(w.subrange(8, 10) =~= be_encode(h.authority_count as nat, 2));
    assert(w.subrange(10, 12) =~= be_encode(h.additional_count as nat, 2));
    assert(w[2] == flags_hi(h) as u8);
    assert(w[3] == h.response_code);
    let f = flags_hi(h);
    let low = f % 8;
    assert(f == (if h.query { 0nat } else { 128nat }) + h.opcode as nat * 8 + low);
    assert(f / 8 == (if h.query { 0nat } else { 16nat }) + h.opcode as nat);
    assert((f / 8) % 16 == h.opcode as nat);
    assert((f < 128) == h.query);
    assert(((f / 4) % 2 == 1) == h.authoritative_answer);
    assert(((f / 2) % 2 == 1) == h.truncated);
    assert((f % 2 == 1) == h.recursion_desired);
    assert(header_of(w).id == h.id);
    assert(header_of(w).questions_count == h.questions_count);
    assert(header_of(w).answers_count == h.answers_count);
    assert(header_of(w).authority_count == h.authority_count);
    assert(header_of(w).additional_count == h.additional_count);
    assert(header_of(w).opcode == h.opcode);
    assert(header_of(w).response_code == h.response_code);
}

/// The id read from the first two bytes is the id of the full header read.
pub proof fn lemma_id_pre_read(s: Seq<u8>)
    requires
        s.len() >= 12,
    ensures
        u16_at(s, 0) == header_of(s).id,
        u16_at(s, 6) == header_of(s).answers_count,
{
}

} // verus!
