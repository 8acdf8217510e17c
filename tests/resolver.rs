use simple_mdns::decode::{read_name, read_question, skip_name};
use simple_mdns::error::{SimpleDnsError, SimpleMdnsError};
use simple_mdns::header::PacketHeader;
use simple_mdns::name::Name;
use simple_mdns::packet::{PacketBuf, RData, ResourceRecord, CLASS_IN, SRV, TYPE_A, TYPE_SRV};
use simple_mdns::rdata::{A, AAAA};
use simple_mdns::resolver::{
    answer_address, get_first_response, is_matching_response, next_service_step, service_port_and_glue,
    with_fallback_address, IpAddress, OneShotMdnsResolver, ResponseStep, ServiceStep, SocketAddress,
    DEFAULT_QUERY_TIMEOUT_MS,
};

const LOCALHOST: u32 = 0x7F00_0001;

fn response_header(id: u16) -> PacketHeader {
    let mut h = PacketHeader::new_query(id, false);
    h.query = false;
    h.authoritative_answer = true;
    h
}

fn address_record(name: &str, rdata: RData) -> ResourceRecord {
    ResourceRecord::new(Name::new(name).unwrap(), CLASS_IN, 0, rdata)
}

fn srv_record(name: &str, port: u16) -> ResourceRecord {
    let target = Name::new(name).unwrap();
    address_record(name, RData::SRV(SRV { priority: 0, weight: 0, port, target }))
}

#[test]
fn query_packet_round_trip() {
    let resolver = OneShotMdnsResolver::new();
    let p = resolver.build_query(0x1234, "_srv._tcp.local", TYPE_A).unwrap();
    let bytes = p.as_bytes();
    let h = PacketHeader::parse(bytes).unwrap();
    assert_eq!(h.id, 0x1234);
    assert_eq!(p.packet_id(), 0x1234);
    assert!(h.query);
    assert_eq!(h.questions_count, 1);
    assert_eq!(h.answers_count, 0);
    let name = read_name(bytes, 12).unwrap();
    assert!(name.matches(&Name::new("_srv._tcp.local").unwrap()));
    let end = skip_name(bytes, 12).unwrap();
    assert_eq!(&bytes[end..], &[0, 1, 0x80, 1]);
    let (q, next) = read_question(bytes, 12).unwrap();
    assert!(q.qname.matches(&Name::new("_srv._tcp.local").unwrap()));
    assert_eq!(q.qtype, TYPE_A);
    assert_eq!(q.qclass, CLASS_IN);
    assert!(q.unicast_response);
    assert_eq!(next, bytes.len());
}

#[test]
fn default_resolver_is_new() {
    let r = OneShotMdnsResolver::default();
    assert_eq!(r.query_timeout_ms(), 3000);
    assert!(!r.enable_loopback());
    assert!(r.unicast_response());
}

#[test]
fn query_without_unicast_preference() {
    let mut resolver = OneShotMdnsResolver::new();
    resolver.set_unicast_response(false);
    let p = resolver.build_query(1, "x.local", TYPE_SRV).unwrap();
    let bytes = p.as_bytes();
    assert_eq!(&bytes[bytes.len() - 4..], &[0, 33, 0, 1]);
    let (q, _) = read_question(bytes, 12).unwrap();
    assert!(!q.unicast_response);
    assert_eq!(q.qtype, TYPE_SRV);
    assert_eq!(
        resolver.build_query(1, "x..local", TYPE_SRV).err(),
        Some(SimpleMdnsError::DnsParsing(SimpleDnsError::InvalidServiceName))
    );
    assert!(resolver.new_query("x.local", TYPE_A).is_ok());
}

#[test]
fn resolver_settings() {
    let mut resolver = OneShotMdnsResolver::new();
    assert_eq!(resolver.query_timeout_ms(), DEFAULT_QUERY_TIMEOUT_MS);
    assert_eq!(resolver.query_timeout_ms(), 3000);
    assert!(!resolver.enable_loopback());
    assert!(resolver.unicast_response());
    resolver.set_query_timeout(1000);
    resolver.set_enable_loopback(true);
    assert_eq!(resolver.query_timeout_ms(), 1000);
    assert!(resolver.enable_loopback());
    assert!(resolver.unicast_response());
}

#[test]
fn response_filter() {
    let mut p = PacketBuf::new(response_header(42));
    assert!(!is_matching_response(p.as_bytes(), 42));
    p.add_answer(&address_record("_srv._tcp.local", RData::A(A { address: LOCALHOST }))).unwrap();
    assert!(is_matching_response(p.as_bytes(), 42));
    assert!(!is_matching_response(p.as_bytes(), 43));
    assert!(!is_matching_response(&p.as_bytes()[..11], 42));
    let mut q = PacketBuf::new(PacketHeader::new_query(42, false));
    q.add_answer(&address_record("_srv._tcp.local", RData::A(A { address: LOCALHOST }))).unwrap();
    assert!(!is_matching_response(q.as_bytes(), 42));
}

#[test]
fn one_shot_resolver_address_query() {
    let mut p = PacketBuf::new(response_header(9));
    p.add_answer(&address_record("_other._tcp.local", RData::A(A { address: 1 }))).unwrap();
    p.add_answer(&address_record("_srv._tcp.local", RData::A(A { address: LOCALHOST }))).unwrap();
    let answer = answer_address(p.as_bytes(), &Name::new("_srv._tcp.local").unwrap());
    assert!(answer.is_ok());
    let answer = answer.unwrap();
    assert!(answer.is_some());
    assert_eq!(IpAddress::V4(LOCALHOST), answer.unwrap());
}

#[test]
fn address_query_ipv6_and_absence() {
    let mut p = PacketBuf::new(response_header(9));
    p.add_answer(&address_record("h.local", RData::AAAA(AAAA { address: 1 }))).unwrap();
    let bytes = p.as_bytes();
    assert_eq!(answer_address(bytes, &Name::new("H.LOCAL").unwrap()), Ok(Some(IpAddress::V6(1))));
    assert_eq!(answer_address(bytes, &Name::new("other.local").unwrap()), Ok(None));
    assert_eq!(
        answer_address(&bytes[..bytes.len() - 1], &Name::new("h.local").unwrap()),
        Err(SimpleMdnsError::DnsParsing(SimpleDnsError::InvalidDnsPacket))
    );
}

#[test]
fn one_shot_resolver_timeout() {
    assert_eq!(get_first_response(None, 5, 250, 200), ResponseStep::TimedOut);
    assert_eq!(get_first_response(None, 5, 150, 200), ResponseStep::Wait);
    let mut p = PacketBuf::new(response_header(5));
    p.add_answer(&address_record("_srv_miss._tcp.local", RData::A(A { address: 1 }))).unwrap();
    assert_eq!(get_first_response(Some(p.as_bytes()), 6, 0, 200), ResponseStep::Wait);
    assert_eq!(get_first_response(Some(p.as_bytes()), 5, 0, 200), ResponseStep::Matched);
    assert_eq!(get_first_response(Some(p.as_bytes()), 5, 201, 200), ResponseStep::TimedOut);
    assert_eq!(get_first_response(Some(p.as_bytes()), 6, 201, 200), ResponseStep::TimedOut);
    assert_eq!(get_first_response(Some(p.as_bytes()), 5, 200, 200), ResponseStep::Matched);
}

#[test]
fn non_address_answers_are_passed_over() {
    let mut p = PacketBuf::new(response_header(9));
    p.add_answer(&srv_record("_srv._tcp.local", 8080)).unwrap();
    p.add_answer(&address_record("_srv._tcp.local", RData::A(A { address: LOCALHOST }))).unwrap();
    let answer = answer_address(p.as_bytes(), &Name::new("_srv._tcp.local").unwrap());
    assert_eq!(answer, Ok(Some(IpAddress::V4(LOCALHOST))));
}

#[test]
fn ipv6_glue_is_taken_first() {
    let mut p = PacketBuf::new(response_header(3));
    p.add_answer(&srv_record("_srv._tcp.local", 8080)).unwrap();
    p.add_additional_record(&address_record("_srv._tcp.local", RData::AAAA(AAAA { address: 1 }))).unwrap();
    p.add_additional_record(&address_record("_srv._tcp.local", RData::A(A { address: LOCALHOST }))).unwrap();
    let (port, glue) = service_port_and_glue(p.as_bytes(), &Name::new("_srv._tcp.local").unwrap()).unwrap();
    assert_eq!(glue, Some(IpAddress::V6(1)));
    assert_eq!(
        next_service_step(port, glue),
        ServiceStep::Resolved(SocketAddress { ip: IpAddress::V6(1), port: 8080 })
    );
}

#[test]
fn one_shot_resolver_address_port_query() {
    let mut p = PacketBuf::new(response_header(3));
    p.add_answer(&srv_record("_srv._tcp.local", 8080)).unwrap();
    p.add_additional_record(&address_record("_srv._tcp.local", RData::A(A { address: LOCALHOST }))).unwrap();
    let found = service_port_and_glue(p.as_bytes(), &Name::new("_srv._tcp.local").unwrap());
    assert!(found.is_ok());
    let (port, glue) = found.unwrap();
    assert_eq!(port, Some(8080));
    let answer = next_service_step(port, glue);
    assert_eq!(
        answer,
        ServiceStep::Resolved(SocketAddress { ip: IpAddress::V4(LOCALHOST), port: 8080 })
    );
}

#[test]
fn service_query_falls_back_without_glue() {
    let mut p = PacketBuf::new(response_header(3));
    p.add_answer(&srv_record("_srv._tcp.local", 8080)).unwrap();
    let (port, glue) = service_port_and_glue(p.as_bytes(), &Name::new("_srv._tcp.local").unwrap()).unwrap();
    assert_eq!(glue, None);
    assert_eq!(next_service_step(port, glue), ServiceStep::NeedAddress(8080));
    assert_eq!(
        with_fallback_address(8080, Some(IpAddress::V4(LOCALHOST))),
        Some(SocketAddress { ip: IpAddress::V4(LOCALHOST), port: 8080 })
    );
    assert_eq!(with_fallback_address(8080, None), None);
    assert_eq!(next_service_step(None, Some(IpAddress::V4(1))), ServiceStep::NoAnswer);
}
