//! One-shot mDNS queries: the resolver's settings, the query it sends, which
//! datagram it accepts, and what it reads from the accepted response.
use vstd::prelude::*;
use crate::bytes::be_value;
use crate::decode::{
    lemma_question_decodes, question_at, QuestionView,
    u16_from,
    info_view, infos_view, lemma_sections_in_bounds, packet_sections, read_sections, record_in_bounds,
    RecordInfo, RecordView,
};
use crate::error::{SimpleDnsError, SimpleMdnsError};
use crate::header::{header_of, header_wf, header_wire, lemma_header_round_trip, u16_at, PacketHeader};
use crate::name::{labels_wf, names_eq, split_dots, Name};
use crate::packet::{concat, question_image, PacketBuf, Question, CLASS_IN, TYPE_A, TYPE_AAAA, TYPE_SRV};
use crate::rdata::{A, AAAA};
use vstd::string::StringSliceAdditionalSpecFns;

verus! {

/// How long a query waits by default, in milliseconds.
pub const DEFAULT_QUERY_TIMEOUT_MS: u64 = 3000;

/// An IPv4 or IPv6 address, as its number.
#[derive(Debug, Clone, Copy, PartialEq, Eq, Structural)]
pub enum IpAddress {
    V4(u32),
    V6(u128),
}

/// An address and a port.
#[derive(Debug, Clone, Copy, PartialEq, Eq, Structural)]
pub struct SocketAddress {
    pub ip: IpAddress,
    pub port: u16,
}

/// Provides one-shot queries (legacy mDNS): every query returns the first valid
/// response to arrive, or nothing once its timeout has elapsed.
pub struct OneShotMdnsResolver {
    query_timeout_ms: u64,
    enable_loopback: bool,
    unicast_response: bool,
}

/// What the receive loop does with what the socket gave it.
#[derive(Debug, Clone, Copy, PartialEq, Eq, Structural)]
pub enum ResponseStep {
    /// The datagram answers the query: the loop ends with it.
    Matched,
    /// Keep receiving.
    Wait,
    /// The timeout has elapsed: the loop ends with no response.
    TimedOut,
}

/// A datagram is the response to query `packet_id`: a response with that id and some answer.
pub open spec fn is_response_to(s: Seq<u8>, packet_id: u16) -> bool {
    s.len() >= 12 && !header_of(s).query && header_of(s).id == packet_id && header_of(s).answers_count > 0
}

/// The address that a record holds, where it is an address record.
pub open spec fn address_in(s: Seq<u8>, r: RecordView) -> Option<IpAddress> {
    if r.rtype == TYPE_A {
        Some(IpAddress::V4(be_value(s.subrange(r.rdata_pos, r.rdata_pos + 4)) as u32))
    } else if r.rtype == TYPE_AAAA {
        Some(IpAddress::V6(be_value(s.subrange(r.rdata_pos, r.rdata_pos + 16)) as u128))
    } else {
        None
    }
}

/// The address of the first address record (A or AAAA) named `name`.
pub open spec fn first_address(s: Seq<u8>, rs: Seq<RecordView>, name: Seq<Seq<u8>>) -> Option<IpAddress>
    decreases rs.len(),
{
    if rs.len() == 0 {
        None
    } else if names_eq(rs[0].name, name) && address_in(s, rs[0]) is Some {
        address_in(s, rs[0])
    } else {
        first_address(s, rs.drop_first(), name)
    }
}

/// The port of the first service record named `name`.
pub open spec fn first_srv_port(s: Seq<u8>, rs: Seq<RecordView>, name: Seq<Seq<u8>>) -> Option<u16>
    decreases rs.len(),
{
    if rs.len() == 0 {
        None
    } else if names_eq(rs[0].name, name) && rs[0].rtype == TYPE_SRV {
        Some(u16_at(s, rs[0].rdata_pos + 4))
    } else {
        first_srv_port(s, rs.drop_first(), name)
    }
}

/// The address of the first address record (A or AAAA) named `name`.
pub open spec fn first_glue(s: Seq<u8>, rs: Seq<RecordView>, name: Seq<Seq<u8>>) -> Option<IpAddress>
    decreases rs.len(),
{
    if rs.len() == 0 {
        None
    } else if names_eq(rs[0].name, name) && (rs[0].rtype == TYPE_A || rs[0].rtype == TYPE_AAAA) {
        address_in(s, rs[0])
    } else {
        first_glue(s, rs.drop_first(), name)
    }
}

/// `p` is a query with one question, for `name` and `qtype`, of class IN, and
/// with the given unicast-response preference; its flags are those of a plain query.
pub open spec fn is_query_for(p: PacketBuf, name: Seq<Seq<u8>>, qtype: u16, unicast: bool) -> bool {
    &&& p.wf()
    &&& p.spec_header() == (PacketHeader { questions_count: 1, ..PacketHeader::spec_new_query(p.spec_header().id) })
    &&& p.question_entries() == seq![question_image(name, qtype, CLASS_IN, unicast)]
    &&& p.answer_entries().len() == 0
    &&& p.additional_entries().len() == 0
}

/// The bytes of a query built for a valid name read back as its header and its
/// one question: the name, the type, class IN and the unicast preference.
pub proof fn lemma_query_reads_back(p: PacketBuf, name: Seq<Seq<u8>>, qtype: u16, unicast: bool)
    requires
        is_query_for(p, name, qtype, unicast),
        labels_wf(name),
    ensures
        header_of(p.wire()) == p.spec_header(),
        p.spec_header().questions_count == 1,
        p.spec_header().answers_count == 0,
        p.spec_header().authority_count == 0,
        p.spec_header().additional_count == 0,
        question_at(p.wire(), 12) == Some(
            (
                QuestionView { name, qtype, qclass: CLASS_IN, unicast_response: unicast },
                p.wire().len() as int,
            ),
        ),
{
    p.lemma_counts_match();
    let qi = question_image(name, qtype, CLASS_IN, unicast);
    let e = Seq::<Seq<u8>>::empty();
    assert(seq![qi].drop_last() =~= e);
    assert(concat(e) =~= Seq::<u8>::empty());
    assert(seq![qi].last() == qi);
    assert(concat(seq![qi]) == concat(e) + qi);
    assert(concat(seq![qi]) =~= qi);
    assert(p.answer_entries() =~= e);
    assert(p.additional_entries() =~= e);
    lemma_header_round_trip(p.spec_header());
    let w = p.wire();
    assert(w =~= header_wire(p.spec_header()) + qi);
    assert(w.subrange(12, w.len() as int) =~= qi);
    lemma_question_decodes(w, name, qtype, CLASS_IN, unicast);
}

/// What a service query learned from its response.
#[derive(Debug, Clone, Copy, PartialEq, Eq, Structural)]
pub enum ServiceStep {
    /// Port and address are known.
    Resolved(SocketAddress),
    /// The port is known; the address has to be asked for on its own.
    NeedAddress(u16),
    /// No service record answered.
    NoAnswer,
}

pub open spec fn service_step(port: Option<u16>, glue: Option<IpAddress>) -> ServiceStep {
    match (port, glue) {
        (Some(p), Some(ip)) => ServiceStep::Resolved(SocketAddress { ip, port: p }),
        (Some(p), None) => ServiceStep::NeedAddress(p),
        _ => ServiceStep::NoAnswer,
    }
}

/// Relies on rand::random for a 16-bit query id; nothing is known of its value.
#[verifier::external_body]
fn random_id() -> (r: u16) {
    rand::random::<u16>()
}

impl OneShotMdnsResolver {
    /// A resolver with a 3 second timeout, without loopback, asking for unicast responses.
    pub fn new() -> (r: OneShotMdnsResolver)
        ensures
            r.spec_query_timeout_ms() == DEFAULT_QUERY_TIMEOUT_MS,
            !r.spec_enable_loopback(),
            r.spec_unicast_response(),
    {
        OneShotMdnsResolver {
            query_timeout_ms: DEFAULT_QUERY_TIMEOUT_MS,
            enable_loopback: false,
            unicast_response: true,
        }
    }

    pub closed spec fn spec_query_timeout_ms(&self) -> u64 {
        self.query_timeout_ms
    }

    pub closed spec fn spec_enable_loopback(&self) -> bool {
        self.enable_loopback
    }

    pub closed spec fn spec_unicast_response(&self) -> bool {
        self.unicast_response
    }

    /// Set the one shot mdns resolver's query timeout, in milliseconds.
    pub fn set_query_timeout(&mut self, query_timeout_ms: u64)
        ensures
            final(self).spec_query_timeout_ms() == query_timeout_ms,
            final(self).spec_enable_loopback() == old(self).spec_enable_loopback(),
            final(self).spec_unicast_response() == old(self).spec_unicast_response(),
    {
        self.query_timeout_ms = query_timeout_ms;
    }

    /// Set the one shot mdns resolver's enable loopback.
    pub fn set_enable_loopback(&mut self, enable_loopback: bool)
        ensures
            final(self).spec_enable_loopback() == enable_loopback,
            final(self).spec_query_timeout_ms() == old(self).spec_query_timeout_ms(),
            final(self).spec_unicast_response() == old(self).spec_unicast_response(),
    {
        self.enable_loopback = enable_loopback;
    }

    /// Set the one shot mdns resolver's unicast response.
    pub fn set_unicast_response(&mut self, unicast_response: bool)
        ensures
            final(self).spec_unicast_response() == unicast_response,
            final(self).spec_query_timeout_ms() == old(self).spec_query_timeout_ms(),
            final(self).spec_enable_loopback() == old(self).spec_enable_loopback(),
    {
        self.unicast_response = unicast_response;
    }

    pub fn query_timeout_ms(&self) -> (r: u64)
        ensures
            r == self.spec_query_timeout_ms(),
    {
        self.query_timeout_ms
    }

    pub fn enable_loopback(&self) -> (r: bool)
        ensures
            r == self.spec_enable_loopback(),
    {
        self.enable_loopback
    }

    pub fn unicast_response(&self) -> (r: bool)
        ensures
            r == self.spec_unicast_response(),
    {
        self.unicast_response
    }

    /// The query with id `id` for `service_name` and record type `qtype`: one
    /// question, of class IN, with the resolver's unicast-response preference.
    pub fn build_query(&self, id: u16, service_name: &str, qtype: u16) -> (r: Result<PacketBuf, SimpleMdnsError>)
        ensures
            r is Err <==> !labels_wf(split_dots(service_name.spec_bytes())),
            r is Err ==> r == Err::<PacketBuf, SimpleMdnsError>(
                SimpleMdnsError::DnsParsing(SimpleDnsError::InvalidServiceName),
            ),
            r matches Ok(p) ==> is_query_for(p, split_dots(service_name.spec_bytes()), qtype, self.spec_unicast_response())
                && p.spec_header().id == id,
    {
        let name = match Name::new(service_name) {
            Ok(n) => n,
            Err(e) => return Err(SimpleMdnsError::DnsParsing(e)),
        };
        let mut packet = PacketBuf::new(PacketHeader::new_query(id, false));
        let q = Question::new(name, qtype, CLASS_IN, self.unicast_response);
        let added = packet.add_question(&q);
        match added {
            Ok(()) => {},
            Err(e) => return Err(SimpleMdnsError::DnsParsing(e)),
        }
        assert(packet.question_entries() =~= seq![
            question_image(split_dots(service_name.spec_bytes()), qtype, CLASS_IN, self.spec_unicast_response()),
        ]);
        Ok(packet)
    }

    /// A query for `service_name` and `qtype` under a fresh random id.
    pub fn new_query(&self, service_name: &str, qtype: u16) -> (r: Result<PacketBuf, SimpleMdnsError>)
        ensures
            r is Err <==> !labels_wf(split_dots(service_name.spec_bytes())),
            r is Err ==> r == Err::<PacketBuf, SimpleMdnsError>(
                SimpleMdnsError::DnsParsing(SimpleDnsError::InvalidServiceName),
            ),
            r matches Ok(p) ==> is_query_for(p, split_dots(service_name.spec_bytes()), qtype, self.spec_unicast_response()),
    {
        let id = random_id();
        self.build_query(id, service_name, qtype)
    }
}

impl Default for OneShotMdnsResolver {
    fn default() -> (r: OneShotMdnsResolver)
        ensures
            r.spec_query_timeout_ms() == DEFAULT_QUERY_TIMEOUT_MS,
            !r.spec_enable_loopback(),
            r.spec_unicast_response(),
    {
        OneShotMdnsResolver::new()
    }
}

impl PacketHeader {
    pub open spec fn spec_new_query(id: u16) -> PacketHeader {
        PacketHeader {
            id,
            query: true,
            opcode: 0,
            authoritative_answer: false,
            truncated: false,
            recursion_desired: false,
            response_code: 0,
            questions_count: 0,
            answers_count: 0,
            authority_count: 0,
            additional_count: 0,
        }
    }
}

/// Whether a received datagram is the response to query `packet_id`.
pub fn is_matching_response(data: &[u8], packet_id: u16) -> (r: bool)
    ensures
        r == is_response_to(data@, packet_id),
{
    match PacketHeader::parse(data) {
        Ok(h) => !h.query && h.id == packet_id && h.answers_count > 0,
        Err(_) => false,
    }
}

/// One turn of the receive loop: `received` is the datagram the socket gave,
/// or `None` where the receive timed out; `elapsed_ms` is the time since the
/// query was sent. Once the timeout has elapsed the loop ends, whatever arrived.
pub fn get_first_response(received: Option<&[u8]>, packet_id: u16, elapsed_ms: u64, query_timeout_ms: u64) -> (r: ResponseStep)
    ensures
        elapsed_ms > query_timeout_ms ==> r == ResponseStep::TimedOut,
        elapsed_ms <= query_timeout_ms ==> (r == if received matches Some(d) && is_response_to(d@, packet_id) {
            ResponseStep::Matched
        } else {
            ResponseStep::Wait
        }),
{
    if elapsed_ms > query_timeout_ms {
        return ResponseStep::TimedOut;
    }
    match received {
        Some(d) => if is_matching_response(d, packet_id) {
            ResponseStep::Matched
        } else {
            ResponseStep::Wait
        },
        None => ResponseStep::Wait,
    }
}

fn address_of_record(data: &[u8], info: &RecordInfo) -> (r: Option<IpAddress>)
    requires
        record_in_bounds(data@, info_view(*info)),
    ensures
        r == address_in(data@, info_view(*info)),
{
    if info.rtype == TYPE_A {
        match A::parse(data, info.rdata_pos) {
            Ok(a) => Some(IpAddress::V4(a.address)),
            Err(_) => None,
        }
    } else if info.rtype == TYPE_AAAA {
        match AAAA::parse(data, info.rdata_pos) {
            Ok(a) => Some(IpAddress::V6(a.address)),
            Err(_) => None,
        }
    } else {
        None
    }
}

fn srv_port_of_record(data: &[u8], info: &RecordInfo) -> (r: u16)
    requires
        record_in_bounds(data@, info_view(*info)),
        info.rtype == TYPE_SRV,
    ensures
        r == u16_at(data@, info.rdata_pos + 4),
{
    let n = data.len();
    assert(info.rdata_pos + 6 <= n);
    u16_from(data, info.rdata_pos + 4)
}

/// The address that answers `name` in a response: that of the first A or AAAA
/// answer named `name`; records of other types are passed over.
pub fn answer_address(response: &[u8], name: &Name) -> (r: Result<Option<IpAddress>, SimpleMdnsError>)
    ensures
        r is Err <==> packet_sections(response@) is None,
        r is Err ==> r == Err::<Option<IpAddress>, SimpleMdnsError>(SimpleMdnsError::DnsParsing(SimpleDnsError::InvalidDnsPacket)),
        r matches Ok(a) ==> a == first_address(response@, packet_sections(response@).unwrap().0, name@),
{
    let (answers, _) = match read_sections(response) {
        Ok(x) => x,
        Err(e) => return Err(SimpleMdnsError::DnsParsing(e)),
    };
    proof {
        lemma_sections_in_bounds(response@);
    }
    let ghost rs = infos_view(answers@);
    let mut i: usize = 0;
    assert(rs.subrange(0, rs.len() as int) =~= rs);
    while i < answers.len()
        invariant
            rs == infos_view(answers@),
            packet_sections(response@) is Some,
            rs == packet_sections(response@).unwrap().0,
            i <= answers@.len(),
            forall|k: int| 0 <= k < rs.len() ==> record_in_bounds(response@, #[trigger] rs[k]),
            first_address(response@, rs, name@) == first_address(response@, rs.subrange(i as int, rs.len() as int), name@),
        decreases answers@.len() - i,
    {
        let ghost tail = rs.subrange(i as int, rs.len() as int);
        assert(tail.drop_first() =~= rs.subrange(i + 1, rs.len() as int));
        assert(tail[0] == info_view(answers@[i as int]));
        if (answers[i].rtype == TYPE_A || answers[i].rtype == TYPE_AAAA) && answers[i].name.matches(name) {
            return Ok(address_of_record(response, &answers[i]));
        }
        i = i + 1;
    }
    Ok(None)
}

/// The port of the first service record named `name` among the answers, and the
/// address of the first A or AAAA record named `name` among the additional records.
pub fn service_port_and_glue(response: &[u8], name: &Name) -> (r: Result<(Option<u16>, Option<IpAddress>), SimpleMdnsError>)
    ensures
        r is Err <==> packet_sections(response@) is None,
        r is Err ==> r == Err::<(Option<u16>, Option<IpAddress>), SimpleMdnsError>(SimpleMdnsError::DnsParsing(SimpleDnsError::InvalidDnsPacket)),
        r matches Ok((port, glue)) ==> port == first_srv_port(response@, packet_sections(response@).unwrap().0, name@)
            && glue == first_glue(response@, packet_sections(response@).unwrap().1, name@),
{
    let (answers, additional) = match read_sections(response) {
        Ok(x) => x,
        Err(e) => return Err(SimpleMdnsError::DnsParsing(e)),
    };
    proof {
        lemma_sections_in_bounds(response@);
    }
    let port = find_srv_port(response, &answers, name);
    let glue = find_glue(response, &additional, name);
    Ok((port, glue))
}

fn find_srv_port(response: &[u8], answers: &Vec<RecordInfo>, name: &Name) -> (r: Option<u16>)
    requires
        forall|k: int| 0 <= k < answers@.len() ==> record_in_bounds(response@, #[trigger] infos_view(answers@)[k]),
    ensures
        r == first_srv_port(response@, infos_view(answers@), name@),
{
    let ghost rs = infos_view(answers@);
    let mut i: usize = 0;
    assert(rs.subrange(0, rs.len() as int) =~= rs);
    while i < answers.len()
        invariant
            rs == infos_view(answers@),
            i <= answers@.len(),
            forall|k: int| 0 <= k < rs.len() ==> record_in_bounds(response@, #[trigger] rs[k]),
            first_srv_port(response@, rs, name@) == first_srv_port(response@, rs.subrange(i as int, rs.len() as int), name@),
        decreases answers@.len() - i,
    {
        let ghost tail = rs.subrange(i as int, rs.len() as int);
        assert(tail.drop_first() =~= rs.subrange(i + 1, rs.len() as int));
        assert(tail[0] == info_view(answers@[i as int]));
        if answers[i].rtype == TYPE_SRV && answers[i].name.matches(name) {
            assert(record_in_bounds(response@, rs[i as int]));
            return Some(srv_port_of_record(response, &answers[i]));
        }
        i = i + 1;
    }
    None
}

fn find_glue(response: &[u8], additional: &Vec<RecordInfo>, name: &Name) -> (r: Option<IpAddress>)
    requires
        forall|k: int| 0 <= k < additional@.len() ==> record_in_bounds(response@, #[trigger] infos_view(additional@)[k]),
    ensures
        r == first_glue(response@, infos_view(additional@), name@),
{
    let ghost ads = infos_view(additional@);
    let mut j: usize = 0;
    assert(ads.subrange(0, ads.len() as int) =~= ads);
    while j < additional.len()
        invariant
            ads == infos_view(additional@),
            j <= additional@.len(),
            forall|k: int| 0 <= k < ads.len() ==> record_in_bounds(response@, #[trigger] ads[k]),
            first_glue(response@, ads, name@) == first_glue(response@, ads.subrange(j as int, ads.len() as int), name@),
        decreases additional@.len() - j,
    {
        let ghost tail = ads.subrange(j as int, ads.len() as int);
        assert(tail.drop_first() =~= ads.subrange(j + 1, ads.len() as int));
        assert(tail[0] == info_view(additional@[j as int]));
        if (additional[j].rtype == TYPE_A || additional[j].rtype == TYPE_AAAA) && additional[j].name.matches(name) {
            assert(record_in_bounds(response@, ads[j as int]));
            return address_of_record(response, &additional[j]);
        }
        j = j + 1;
    }
    None
}

/// What a service query does next, from the port and the glue address it found.
pub fn next_service_step(port: Option<u16>, glue: Option<IpAddress>) -> (r: ServiceStep)
    ensures
        r == service_step(port, glue),
{
    match (port, glue) {
        (Some(p), Some(ip)) => ServiceStep::Resolved(SocketAddress { ip, port: p }),
        (Some(p), None) => ServiceStep::NeedAddress(p),
        _ => ServiceStep::NoAnswer,
    }
}

/// The service's socket address once a port is known and the address was asked for on its own.
pub fn with_fallback_address(port: u16, address: Option<IpAddress>) -> (r: Option<SocketAddress>)
    ensures
        r == match address {
            Some(ip) => Some(SocketAddress { ip, port }),
            None => None::<SocketAddress>,
        },
{
    match address {
        Some(ip) => Some(SocketAddress { ip, port }),
        None => None,
    }
}

} // verus!
