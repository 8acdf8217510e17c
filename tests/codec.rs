use simple_mdns::decode::{read_name, read_sections, skip_name};
use simple_mdns::error::SimpleDnsError;
use simple_mdns::header::PacketHeader;
use simple_mdns::name::Name;
use simple_mdns::packet::{PacketBuf, Question, RData, ResourceRecord, CLASS_IN, TYPE_A, TYPE_SRV};
use simple_mdns::rdata::{A, AAAA};

const FF02_FB: u128 = 0xFF02_0000_0000_0000_0000_0000_0000_00FB;

#[test]
fn parse_and_write_a() {
    let address = FF02_FB;
    let a = AAAA { address };

    let mut bytes = Vec::new();
    assert!(a.append_to_vec(&mut bytes).is_ok());

    let a = AAAA::parse(&bytes, 0);
    assert!(a.is_ok());
    let a = a.unwrap();

    assert_eq!(address, a.address);
    assert_eq!(bytes.len(), a.len());
}

#[test]
fn aaaa_bytes_are_big_endian() {
    let mut bytes = Vec::new();
    AAAA { address: FF02_FB }.append_to_vec(&mut bytes).unwrap();
    assert_eq!(bytes[0], 0xFF);
    assert_eq!(bytes[1], 0x02);
    assert_eq!(bytes[15], 0xFB);
    assert!(bytes[2..15].iter().all(|b| *b == 0));
}

#[test]
fn a_round_trip_at_offset() {
    let mut bytes = vec![9u8, 9u8];
    A { address: 0x7F00_0001 }.append_to_vec(&mut bytes).unwrap();
    assert_eq!(bytes, vec![9, 9, 127, 0, 0, 1]);
    let a = A::parse(&bytes, 2).unwrap();
    assert_eq!(a.address, 0x7F00_0001);
    assert_eq!(a.len(), 4);
}

#[test]
fn short_buffers_are_rejected() {
    assert_eq!(AAAA::parse(&[0u8; 15], 0), Err(SimpleDnsError::InsufficientData));
    assert_eq!(AAAA::parse(&[0u8; 16], 1), Err(SimpleDnsError::InsufficientData));
    assert_eq!(AAAA::parse(&[0u8; 4], 20), Err(SimpleDnsError::InsufficientData));
    assert_eq!(A::parse(&[0u8; 3], 0), Err(SimpleDnsError::InsufficientData));
    assert_eq!(PacketHeader::parse(&[0u8; 11]), Err(SimpleDnsError::InvalidHeaderData));
    assert!(PacketHeader::parse(&[0u8; 12]).is_ok());
}

fn sample_header() -> PacketHeader {
    PacketHeader {
        id: 0xBEEF,
        query: false,
        opcode: 5,
        authoritative_answer: true,
        truncated: false,
        recursion_desired: true,
        response_code: 3,
        questions_count: 1,
        answers_count: 2,
        authority_count: 3,
        additional_count: 4,
    }
}

#[test]
fn header_round_trip() {
    let h = sample_header();
    let mut bytes = Vec::new();
    h.write_to(&mut bytes);
    assert_eq!(bytes.len(), 12);
    assert_eq!(bytes, vec![0xBE, 0xEF, 0xAD, 0x03, 0, 1, 0, 2, 0, 3, 0, 4]);
    assert_eq!(PacketHeader::parse(&bytes), Ok(h));
}

#[test]
fn id_and_answers_pre_read() {
    let mut bytes = Vec::new();
    sample_header().write_to(&mut bytes);
    assert_eq!(PacketHeader::id(&bytes), 0xBEEF);
    assert_eq!(PacketHeader::id(&bytes), PacketHeader::parse(&bytes).unwrap().id);
    assert_eq!(PacketHeader::read_answers(&bytes), 2);
    assert_eq!(PacketHeader::id(&[0x12, 0x34]), 0x1234);
}

#[test]
fn name_text_and_wire() {
    let n = Name::new("_srv._tcp.local").unwrap();
    let mut bytes = Vec::new();
    n.append_to_vec(&mut bytes);
    let mut expected = vec![4u8];
    expected.extend_from_slice(b"_srv");
    expected.push(4);
    expected.extend_from_slice(b"_tcp");
    expected.push(5);
    expected.extend_from_slice(b"local");
    expected.push(0);
    assert_eq!(bytes, expected);
    assert_eq!(n.len(), 17);
    assert!(n.matches(&Name::new("_SRV._Tcp.LOCAL").unwrap()));
    assert!(!n.matches(&Name::new("_srv._udp.local").unwrap()));
}

#[test]
fn invalid_names_are_rejected() {
    assert_eq!(Name::new("a..b").unwrap_err(), SimpleDnsError::InvalidServiceName);
    assert_eq!(Name::new("").unwrap_err(), SimpleDnsError::InvalidServiceName);
    let long = "a".repeat(64);
    assert_eq!(Name::new(&long).unwrap_err(), SimpleDnsError::InvalidServiceName);
    assert!(Name::new(&"a".repeat(63)).is_ok());
}

#[test]
fn compressed_names_are_followed() {
    // "local" at 0, then "_tcp" followed by a pointer to offset 0.
    let mut bytes = vec![5u8];
    bytes.extend_from_slice(b"local");
    bytes.push(0);
    bytes.push(4);
    bytes.extend_from_slice(b"_tcp");
    bytes.push(0xC0);
    bytes.push(0);
    let n = read_name(&bytes, 7).unwrap();
    assert!(n.matches(&Name::new("_tcp.local").unwrap()));
    assert_eq!(skip_name(&bytes, 7), Some(14));
    // A pointer to itself never ends.
    assert!(read_name(&[0xC0, 0], 0).is_none());
}

#[test]
fn packet_counts_follow_appends() {
    let mut p = PacketBuf::new(PacketHeader::new_query(7, false));
    let q = Question::new(Name::new("a.local").unwrap(), TYPE_A, CLASS_IN, true);
    assert!(p.add_question(&q).is_ok());
    assert!(p.add_question(&q).is_ok());
    let r = ResourceRecord::new(Name::new("a.local").unwrap(), CLASS_IN, 120, RData::A(A { address: 1 }));
    assert!(p.add_answer(&r).is_ok());
    assert!(p.add_additional_record(&r).is_ok());
    assert!(p.add_additional_record(&r).is_ok());
    assert_eq!(p.add_question(&q), Err(SimpleDnsError::InvalidDnsPacket));
    assert_eq!(p.add_answer(&r), Err(SimpleDnsError::InvalidDnsPacket));
    let h = PacketHeader::parse(p.as_bytes()).unwrap();
    assert_eq!(h.questions_count, 2);
    assert_eq!(h.answers_count, 1);
    assert_eq!(h.authority_count, 0);
    assert_eq!(h.additional_count, 2);
    assert_eq!(h.id, 7);
    let (answers, additional) = read_sections(p.as_bytes()).unwrap();
    assert_eq!(answers.len(), 1);
    assert_eq!(additional.len(), 2);
    assert_eq!(answers[0].ttl, 120);
}

#[test]
fn counts_beyond_the_bytes_are_malformed() {
    let mut p = PacketBuf::new(PacketHeader::new_query(7, false));
    let q = Question::new(Name::new("a.local").unwrap(), TYPE_SRV, CLASS_IN, false);
    p.add_question(&q).unwrap();
    let mut bytes = p.as_bytes().to_vec();
    bytes[7] = 1;
    assert!(read_sections(&bytes).is_err());
    bytes[7] = 0;
    assert!(read_sections(&bytes).is_ok());
    assert!(read_sections(&bytes[..bytes.len() - 1]).is_err());
}
