use snmp_trap::asn1::{oid_equals, ASN1Value, Error, IpAddr};
use snmp_trap::snmp::{
    decode_trap, parse_packet, ErrorStatus, GenericTrap, SnmpError, SnmpPacket, SnmpV1PDU,
    SnmpV1Packet, Trap,
};

/// A value with a one-octet length field.
fn value(tag: u8, content: &[u8]) -> Vec<u8> {
    assert!(content.len() < 127);
    let mut out = vec![tag, content.len() as u8];
    out.extend_from_slice(content);
    out
}

fn joined(parts: &[Vec<u8>]) -> Vec<u8> {
    parts.iter().flat_map(|part| part.iter().copied()).collect()
}

const ENTERPRISE: [u8; 7] = [0x06, 0x05, 0x2b, 0x06, 0x01, 0x06, 0x03];

const AGENT: [u8; 6] = [0x40, 0x04, 23, 3, 3, 4];

/// The fields of a trap body; `bindings` is the content of the last field.
fn trap_fields(generic: u8, specific: u8, ticks: u8, bindings: &[u8]) -> Vec<Vec<u8>> {
    vec![
        ENTERPRISE.to_vec(),
        AGENT.to_vec(),
        vec![0x02, 0x01, generic],
        vec![0x02, 0x01, specific],
        vec![0x43, 0x01, ticks],
        value(0x30, bindings),
    ]
}

/// A version 1 message of community "public" around the given unit.
fn message(pdu: &[u8]) -> Vec<u8> {
    let content = joined(&[vec![0x02, 0x01, 0x00], value(0x04, b"public"), pdu.to_vec()]);
    value(0x30, &content)
}

fn trap_message(generic: u8, specific: u8, ticks: u8, bindings: &[u8]) -> Vec<u8> {
    message(&value(0xa4, &joined(&trap_fields(generic, specific, ticks, bindings))))
}

fn cold_start_datagram() -> Vec<u8> {
    vec![
        0x30, 0x25, // message
        0x02, 0x01, 0x00, // version
        0x04, 0x06, b'p', b'u', b'b', b'l', b'i', b'c', // community
        0xa4, 0x18, // trap
        0x06, 0x05, 0x2b, 0x06, 0x01, 0x06, 0x03, // enterprise
        0x40, 0x04, 0x17, 0x03, 0x03, 0x04, // agent address
        0x02, 0x01, 0x00, // generic
        0x02, 0x01, 0x00, // specific
        0x43, 0x01, 0x00, // time ticks
        0x30, 0x00, // variable bindings
    ]
}

fn link_down_datagram() -> Vec<u8> {
    vec![
        0x30, 0x35, // message
        0x02, 0x01, 0x00, // version
        0x04, 0x06, b'p', b'u', b'b', b'l', b'i', b'c', // community
        0xa4, 0x28, // trap
        0x06, 0x05, 0x2b, 0x06, 0x01, 0x06, 0x03, // enterprise
        0x40, 0x04, 0x17, 0x03, 0x03, 0x04, // agent address
        0x02, 0x01, 0x02, // generic
        0x02, 0x01, 0x00, // specific
        0x43, 0x01, 0x2a, // time ticks
        0x30, 0x10, // variable bindings
        0x30, 0x0e, // one binding
        0x06, 0x09, 0x2b, 0x06, 0x01, 0x02, 0x01, 0x02, 0x02, 0x01, 0x01, // name
        0x02, 0x01, 0x02, // value
    ]
}

fn parsed_trap(bytes: &[u8]) -> Trap {
    SnmpPacket::new(bytes).unwrap().as_v1().unwrap().pdu.as_trap().unwrap()
}

#[test]
fn lib_trap_test() {
    let bytes = cold_start_datagram();
    let v = SnmpPacket::new(&bytes).unwrap();
    println!("v = {:?}", v);
    let SnmpPacket::V1(v1pkt) = v;
    assert_eq!(v1pkt.community, "public");
    let SnmpV1PDU::Trap(trap) = v1pkt.pdu;
    assert_eq!(trap.generic, GenericTrap::ColdStart);
    assert_eq!(trap.enterprise_oid, vec![1, 3, 6, 1, 6, 3]);
    assert_eq!(trap.agent_address, IpAddr::V4([23, 3, 3, 4]));
    assert_eq!(trap.specific, 0);
    assert_eq!(trap.time_ticks, 0);
    assert!(trap.variables.is_empty());
}

#[test]
fn snmp_trap_test() {
    let bytes = link_down_datagram();
    let v = SnmpPacket::new(&bytes).unwrap();

    let v1pkt = v.as_v1().unwrap();
    assert_eq!(v1pkt.community, "public");

    let trap = v1pkt.pdu.as_trap().unwrap();
    assert!(oid_equals(&[1, 3, 6, 1, 6, 3], &trap.enterprise_oid));
    assert_eq!(trap.agent_address, IpAddr::V4([23, 3, 3, 4]));
    assert_eq!(trap.generic, GenericTrap::LinkDown);
}

#[test]
fn cold_start_trap() {
    let packet = parse_packet(&cold_start_datagram()).unwrap();
    let SnmpPacket::V1(v1) = packet;
    assert_eq!(v1.community, "public");
    let SnmpV1PDU::Trap(trap) = v1.pdu;
    assert_eq!(trap.generic, GenericTrap::ColdStart);
}

#[test]
fn parse_packet_is_the_constructor() {
    for bytes in [cold_start_datagram(), link_down_datagram(), vec![], vec![0x30, 0x00]] {
        assert_eq!(parse_packet(&bytes), SnmpPacket::new(&bytes));
    }
}

#[test]
fn link_down_trap_carries_its_one_binding() {
    let trap = parsed_trap(&link_down_datagram());
    assert_eq!(trap.generic, GenericTrap::LinkDown);
    assert_eq!(trap.enterprise_oid, vec![1, 3, 6, 1, 6, 3]);
    assert_eq!(trap.specific, 0);
    assert_eq!(trap.time_ticks, 42);
    assert_eq!(
        trap.variables,
        vec![(
            ASN1Value::ObjectIdentifier(vec![1, 3, 6, 1, 2, 1, 2, 2, 1, 1]),
            ASN1Value::Integer(2)
        )]
    );
}

#[test]
fn built_messages_are_the_written_ones() {
    assert_eq!(trap_message(0, 0, 0, &[]), cold_start_datagram());
}

#[test]
fn whole_message_as_a_value() {
    let packet = SnmpPacket::new(&trap_message(3, 9, 200, &[])).unwrap();
    assert_eq!(
        packet,
        SnmpPacket::V1(SnmpV1Packet {
            community: "public".to_string(),
            pdu: SnmpV1PDU::Trap(Trap {
                enterprise_oid: vec![1, 3, 6, 1, 6, 3],
                agent_address: IpAddr::V4([23, 3, 3, 4]),
                generic: GenericTrap::LinkUp,
                specific: 9,
                time_ticks: 200,
                variables: vec![],
            }),
        })
    );
}

#[test]
fn every_generic_trap_code() {
    let expected = [
        GenericTrap::ColdStart,
        GenericTrap::WarmStart,
        GenericTrap::LinkDown,
        GenericTrap::LinkUp,
        GenericTrap::AuthenticationFailure,
        GenericTrap::EgpNeighborLoss,
        GenericTrap::EnterpriseSpecific,
    ];
    for (code, generic) in expected.iter().enumerate() {
        assert_eq!(GenericTrap::new(code as u32), Ok(*generic));
        assert_eq!(parsed_trap(&trap_message(code as u8, 0, 0, &[])).generic, *generic);
    }
}

#[test]
fn generic_trap_code_above_six_is_refused() {
    assert_eq!(GenericTrap::new(7), Err(SnmpError::Generic("idk".to_string())));
    assert_eq!(GenericTrap::new(u32::MAX), Err(SnmpError::Generic("idk".to_string())));
    assert_eq!(
        SnmpPacket::new(&trap_message(7, 0, 0, &[])),
        Err(SnmpError::Generic("idk".to_string()))
    );
}

#[test]
fn community_is_any_text() {
    let content = joined(&[
        vec![0x02, 0x01, 0x00],
        value(0x04, "caf\u{e9} 42".as_bytes()),
        value(0xa4, &joined(&trap_fields(1, 0, 0, &[]))),
    ]);
    let packet = SnmpPacket::new(&value(0x30, &content)).unwrap().as_v1().unwrap();
    assert_eq!(packet.community, "caf\u{e9} 42");
    let content = joined(&[
        vec![0x02, 0x01, 0x00],
        value(0x04, b""),
        value(0xa4, &joined(&trap_fields(1, 0, 0, &[]))),
    ]);
    let packet = SnmpPacket::new(&value(0x30, &content)).unwrap().as_v1().unwrap();
    assert_eq!(packet.community, "");
}

#[test]
fn other_version_is_unsupported() {
    for version in [1u8, 2, 3, 0x7f, 0xff] {
        let content = joined(&[
            vec![0x02, 0x01, version],
            value(0x04, b"public"),
            value(0xa4, &joined(&trap_fields(0, 0, 0, &[]))),
        ]);
        assert_eq!(
            SnmpPacket::new(&value(0x30, &content)),
            Err(SnmpError::UnsupportedVersion)
        );
    }
}

#[test]
fn other_version_is_unsupported_whatever_follows() {
    // the community is no text and the unit is no trap
    let content = joined(&[vec![0x02, 0x01, 0x01], vec![0x05, 0x00], vec![0x02, 0x01, 0x00]]);
    assert_eq!(
        SnmpPacket::new(&value(0x30, &content)),
        Err(SnmpError::UnsupportedVersion)
    );
    // the version comes as a tick count
    let content = joined(&[vec![0x43, 0x01, 0x03], vec![0x05, 0x00], vec![0x05, 0x00]]);
    assert_eq!(
        SnmpPacket::new(&value(0x30, &content)),
        Err(SnmpError::UnsupportedVersion)
    );
}

#[test]
fn version_is_judged_in_its_full_width() {
    // 2^32, 2^32 + 1, 2^33, 2^40 and 2^63: none passes for 0
    let wide: [&[u8]; 5] = [
        &[0x02, 0x05, 0x01, 0x00, 0x00, 0x00, 0x00],
        &[0x02, 0x05, 0x01, 0x00, 0x00, 0x00, 0x01],
        &[0x02, 0x05, 0x02, 0x00, 0x00, 0x00, 0x00],
        &[0x02, 0x06, 0x01, 0x00, 0x00, 0x00, 0x00, 0x00],
        &[0x02, 0x08, 0x80, 0x00, 0x00, 0x00, 0x00, 0x00, 0x00, 0x00],
    ];
    for version in wide {
        let content = joined(&[
            version.to_vec(),
            value(0x04, b"public"),
            value(0xa4, &joined(&trap_fields(0, 0, 0, &[]))),
        ]);
        assert_eq!(
            SnmpPacket::new(&value(0x30, &content)),
            Err(SnmpError::UnsupportedVersion)
        );
    }
}

#[test]
fn version_of_two_to_the_32_in_a_cold_start_datagram_is_unsupported() {
    let bytes = [
        0x30, 0x29, // message
        0x02, 0x05, 0x01, 0x00, 0x00, 0x00, 0x00, // version 4294967296
        0x04, 0x06, 0x70, 0x75, 0x62, 0x6c, 0x69, 0x63, // community
        0xa4, 0x18, // trap
        0x06, 0x05, 0x2b, 0x06, 0x01, 0x06, 0x03, // enterprise
        0x40, 0x04, 0x17, 0x03, 0x03, 0x04, // agent address
        0x02, 0x01, 0x00, // generic
        0x02, 0x01, 0x00, // specific
        0x43, 0x01, 0x00, // time ticks
        0x30, 0x00, // variable bindings
    ];
    assert_eq!(bytes.len(), 43);
    assert_eq!(SnmpPacket::new(&bytes), Err(SnmpError::UnsupportedVersion));
    assert_eq!(parse_packet(&bytes), Err(SnmpError::UnsupportedVersion));
}

#[test]
fn version_0_in_any_width_is_version_0() {
    for version in [
        vec![0x02, 0x00],
        vec![0x02, 0x01, 0x00],
        vec![0x02, 0x03, 0x00, 0x00, 0x00],
        vec![0x43, 0x01, 0x00],
    ] {
        let content = joined(&[
            version,
            value(0x04, b"public"),
            value(0xa4, &joined(&trap_fields(0, 0, 0, &[]))),
        ]);
        assert!(SnmpPacket::new(&value(0x30, &content)).is_ok());
    }
}

#[test]
fn version_of_nine_octets_that_wraps_to_0_on_decoding_is_version_0() {
    // the integer itself keeps its low 64 bits: 2^64 decodes to the number 0
    let content = joined(&[
        vec![0x02, 0x09, 0x01, 0, 0, 0, 0, 0, 0, 0, 0],
        value(0x04, b"public"),
        value(0xa4, &joined(&trap_fields(0, 0, 0, &[]))),
    ]);
    assert!(SnmpPacket::new(&value(0x30, &content)).is_ok());
}

#[test]
fn version_that_is_no_number_is_a_wrong_type() {
    let content = joined(&[
        value(0x04, b"0"),
        value(0x04, b"public"),
        value(0xa4, &joined(&trap_fields(0, 0, 0, &[]))),
    ]);
    assert_eq!(
        SnmpPacket::new(&value(0x30, &content)),
        Err(SnmpError::ASN1Error(Error::WrongType))
    );
}

#[test]
fn community_that_is_no_text_is_a_wrong_type() {
    let content = joined(&[
        vec![0x02, 0x01, 0x00],
        vec![0x02, 0x01, 0x00],
        value(0xa4, &joined(&trap_fields(0, 0, 0, &[]))),
    ]);
    assert_eq!(
        SnmpPacket::new(&value(0x30, &content)),
        Err(SnmpError::ASN1Error(Error::WrongType))
    );
}

#[test]
fn message_of_fewer_than_three_items_is_a_wrong_type() {
    assert_eq!(SnmpPacket::new(&[0x30, 0x00]), Err(SnmpError::WrongType));
    assert_eq!(
        SnmpPacket::new(&value(0x30, &[0x02, 0x01, 0x00])),
        Err(SnmpError::WrongType)
    );
    let content = joined(&[vec![0x02, 0x01, 0x00], value(0x04, b"public")]);
    assert_eq!(SnmpPacket::new(&value(0x30, &content)), Err(SnmpError::WrongType));
    // also under another version
    let content = joined(&[vec![0x02, 0x01, 0x01], value(0x04, b"public")]);
    assert_eq!(SnmpPacket::new(&value(0x30, &content)), Err(SnmpError::WrongType));
}

#[test]
fn message_that_is_no_container_is_a_wrong_type() {
    assert_eq!(
        SnmpPacket::new(&[0x02, 0x01, 0x00]),
        Err(SnmpError::ASN1Error(Error::WrongType))
    );
    assert_eq!(
        SnmpPacket::new(&[0x05, 0x00]),
        Err(SnmpError::ASN1Error(Error::WrongType))
    );
}

#[test]
fn message_under_the_trap_tag_is_read_as_a_container() {
    let content = joined(&[
        vec![0x02, 0x01, 0x00],
        value(0x04, b"public"),
        value(0xa4, &joined(&trap_fields(4, 0, 0, &[]))),
    ]);
    let packet = SnmpPacket::new(&value(0xa4, &content)).unwrap();
    let SnmpPacket::V1(v1) = packet;
    let SnmpV1PDU::Trap(trap) = v1.pdu;
    assert_eq!(trap.generic, GenericTrap::AuthenticationFailure);
}

#[test]
fn datagram_that_does_not_decode_is_a_decoding_error() {
    assert_eq!(SnmpPacket::new(&[]), Err(SnmpError::ASN1Error(Error::IoFailure)));
    assert_eq!(
        SnmpPacket::new(&[0x30, 0x10, 0x02, 0x01, 0x00]),
        Err(SnmpError::ASN1Error(Error::UnexpectedValue))
    );
    assert_eq!(
        SnmpPacket::new(&[0x99, 0x00]),
        Err(SnmpError::ASN1Error(Error::WrongType))
    );
    let mut cut = cold_start_datagram();
    cut.pop();
    assert_eq!(
        SnmpPacket::new(&cut),
        Err(SnmpError::ASN1Error(Error::UnexpectedValue))
    );
}

#[test]
fn octets_behind_the_message_are_not_looked_at() {
    let mut bytes = cold_start_datagram();
    bytes.extend_from_slice(&[0xff, 0xff, 0xff]);
    assert_eq!(
        SnmpPacket::new(&bytes),
        SnmpPacket::new(&cold_start_datagram())
    );
    assert!(SnmpPacket::new(&bytes).is_ok());
}

#[test]
fn unit_that_is_no_trap_is_unsupported() {
    for unit in [
        value(0x30, &joined(&trap_fields(0, 0, 0, &[]))),
        vec![0x02, 0x01, 0x00],
        vec![0x05, 0x00],
        value(0x04, b"trap"),
    ] {
        assert_eq!(SnmpPacket::new(&message(&unit)), Err(SnmpError::UnsupportedPdu));
    }
    assert_eq!(
        SnmpV1PDU::new(ASN1Value::Sequence(vec![])),
        Err(SnmpError::UnsupportedPdu)
    );
    assert_eq!(SnmpV1PDU::new(ASN1Value::Integer(0)), Err(SnmpError::UnsupportedPdu));
}

#[test]
fn request_units_do_not_decode() {
    for tag in [0xa0u8, 0xa1, 0xa2, 0xa3, 0xa5, 0xa6, 0xa7, 0xa8] {
        let unit = value(tag, &joined(&trap_fields(0, 0, 0, &[])));
        assert_eq!(
            SnmpPacket::new(&message(&unit)),
            Err(SnmpError::ASN1Error(Error::WrongType))
        );
    }
}

#[test]
fn trap_of_fewer_than_six_fields_is_refused() {
    let mut fields = trap_fields(0, 0, 0, &[]);
    fields.pop();
    assert_eq!(
        SnmpPacket::new(&message(&value(0xa4, &joined(&fields)))),
        Err(SnmpError::Generic("invalid length".to_string()))
    );
    assert_eq!(
        SnmpPacket::new(&message(&[0xa4, 0x00])),
        Err(SnmpError::Generic("invalid length".to_string()))
    );
    assert_eq!(
        decode_trap(&[]),
        Err(SnmpError::Generic("invalid length".to_string()))
    );
}

#[test]
fn trap_fields_behind_the_sixth_are_ignored() {
    let mut fields = trap_fields(5, 1, 2, &[]);
    fields.push(vec![0x05, 0x00]);
    fields.push(value(0x04, b"more"));
    let trap = parsed_trap(&message(&value(0xa4, &joined(&fields))));
    assert_eq!(trap.generic, GenericTrap::EgpNeighborLoss);
    assert_eq!(trap.specific, 1);
    assert_eq!(trap.time_ticks, 2);
}

fn good_fields() -> Vec<ASN1Value> {
    vec![
        ASN1Value::ObjectIdentifier(vec![1, 3, 6, 1, 4, 1, 8072]),
        ASN1Value::IPAddress(IpAddr::V4([192, 168, 0, 7])),
        ASN1Value::Integer(6),
        ASN1Value::Integer(17),
        ASN1Value::TimeTicks(123456),
        ASN1Value::Sequence(vec![]),
    ]
}

#[test]
fn decode_trap_reads_the_six_fields() {
    assert_eq!(
        decode_trap(&good_fields()),
        Ok(Trap {
            enterprise_oid: vec![1, 3, 6, 1, 4, 1, 8072],
            agent_address: IpAddr::V4([192, 168, 0, 7]),
            generic: GenericTrap::EnterpriseSpecific,
            specific: 17,
            time_ticks: 123456,
            variables: vec![],
        })
    );
}

#[test]
fn decode_trap_takes_an_ipv6_agent() {
    let mut fields = good_fields();
    fields[1] = ASN1Value::IPAddress(IpAddr::V6([0xfe80, 0, 0, 0, 0, 0, 0, 1]));
    assert_eq!(
        decode_trap(&fields).unwrap().agent_address,
        IpAddr::V6([0xfe80, 0, 0, 0, 0, 0, 0, 1])
    );
}

#[test]
fn time_ticks_may_be_an_integer_or_a_tick_count() {
    let mut fields = good_fields();
    fields[4] = ASN1Value::Integer(99);
    assert_eq!(decode_trap(&fields).unwrap().time_ticks, 99);
    fields[4] = ASN1Value::TimeTicks(100);
    assert_eq!(decode_trap(&fields).unwrap().time_ticks, 100);
    fields[3] = ASN1Value::TimeTicks(5);
    assert_eq!(decode_trap(&fields).unwrap().specific, 5);
    fields[2] = ASN1Value::TimeTicks(1);
    assert_eq!(decode_trap(&fields).unwrap().generic, GenericTrap::WarmStart);
}

#[test]
fn trap_field_of_the_wrong_type_is_a_wrong_type() {
    for index in 0..6 {
        let mut fields = good_fields();
        fields[index] = ASN1Value::Null;
        assert_eq!(
            decode_trap(&fields),
            Err(SnmpError::ASN1Error(Error::WrongType))
        );
    }
    let mut fields = good_fields();
    fields[4] = ASN1Value::Counter32(1);
    assert_eq!(
        decode_trap(&fields),
        Err(SnmpError::ASN1Error(Error::WrongType))
    );
}

#[test]
fn first_field_that_does_not_fit_decides_the_error() {
    let mut fields = good_fields();
    fields[2] = ASN1Value::Integer(9);
    fields[3] = ASN1Value::Null;
    assert_eq!(decode_trap(&fields), Err(SnmpError::Generic("idk".to_string())));
    fields[1] = ASN1Value::Null;
    assert_eq!(
        decode_trap(&fields),
        Err(SnmpError::ASN1Error(Error::WrongType))
    );
}

#[test]
fn bindings_may_stand_under_the_trap_tag() {
    let mut fields = good_fields();
    fields[5] = ASN1Value::Trap(vec![ASN1Value::Sequence(vec![
        ASN1Value::ObjectIdentifier(vec![1, 3]),
        ASN1Value::Null,
    ])]);
    assert_eq!(
        decode_trap(&fields).unwrap().variables,
        vec![(ASN1Value::ObjectIdentifier(vec![1, 3]), ASN1Value::Null)]
    );
}

#[test]
fn bindings_keep_their_order() {
    let bindings = joined(&[
        value(0x30, &joined(&[vec![0x06, 0x01, 0x2b], vec![0x02, 0x01, 0x01]])),
        value(0x30, &joined(&[vec![0x06, 0x01, 0x2c], value(0x04, b"two")])),
        value(0x30, &joined(&[vec![0x06, 0x01, 0x2d], vec![0x43, 0x01, 0x03]])),
    ]);
    let trap = parsed_trap(&trap_message(2, 0, 0, &bindings));
    assert_eq!(
        trap.variables,
        vec![
            (ASN1Value::ObjectIdentifier(vec![1, 3]), ASN1Value::Integer(1)),
            (
                ASN1Value::ObjectIdentifier(vec![1, 4]),
                ASN1Value::OctetString("two".to_string())
            ),
            (ASN1Value::ObjectIdentifier(vec![1, 5]), ASN1Value::TimeTicks(3)),
        ]
    );
}

#[test]
fn binding_of_no_element_is_skipped() {
    let bindings = joined(&[
        vec![0x30, 0x00],
        value(0x30, &joined(&[vec![0x06, 0x01, 0x2b], vec![0x02, 0x01, 0x01]])),
    ]);
    let trap = parsed_trap(&trap_message(2, 0, 0, &bindings));
    assert_eq!(
        trap.variables,
        vec![(ASN1Value::ObjectIdentifier(vec![1, 3]), ASN1Value::Integer(1))]
    );
}

#[test]
fn binding_of_one_element_is_skipped() {
    let bindings = joined(&[
        value(0x30, &joined(&[vec![0x06, 0x01, 0x2b], vec![0x02, 0x01, 0x01]])),
        value(0x30, &[0x06, 0x01, 0x2c]),
        value(0x30, &joined(&[vec![0x06, 0x01, 0x2d], vec![0x02, 0x01, 0x03]])),
    ]);
    let trap = parsed_trap(&trap_message(2, 0, 0, &bindings));
    assert_eq!(
        trap.variables,
        vec![
            (ASN1Value::ObjectIdentifier(vec![1, 3]), ASN1Value::Integer(1)),
            (ASN1Value::ObjectIdentifier(vec![1, 5]), ASN1Value::Integer(3)),
        ]
    );
}

#[test]
fn only_malformed_bindings_leave_no_binding() {
    let bindings = joined(&[vec![0x30, 0x00], value(0x30, &[0x05, 0x00]), vec![0x30, 0x00]]);
    let trap = parsed_trap(&trap_message(0, 0, 0, &bindings));
    assert!(trap.variables.is_empty());
    assert_eq!(trap.generic, GenericTrap::ColdStart);
}

#[test]
fn binding_that_is_no_container_is_skipped() {
    let mut fields = good_fields();
    fields[5] = ASN1Value::Sequence(vec![
        ASN1Value::Integer(5),
        ASN1Value::Sequence(vec![ASN1Value::Integer(1), ASN1Value::Integer(2)]),
        ASN1Value::OctetString("stray".to_string()),
    ]);
    assert_eq!(
        decode_trap(&fields).unwrap().variables,
        vec![(ASN1Value::Integer(1), ASN1Value::Integer(2))]
    );
}

#[test]
fn binding_of_more_than_two_elements_gives_its_first_two() {
    let mut fields = good_fields();
    fields[5] = ASN1Value::Sequence(vec![ASN1Value::Sequence(vec![
        ASN1Value::Integer(1),
        ASN1Value::Integer(2),
        ASN1Value::Integer(3),
    ])]);
    assert_eq!(
        decode_trap(&fields).unwrap().variables,
        vec![(ASN1Value::Integer(1), ASN1Value::Integer(2))]
    );
}

#[test]
fn binding_value_may_be_a_container() {
    let mut fields = good_fields();
    let nested = ASN1Value::Sequence(vec![ASN1Value::Null, ASN1Value::Counter64(7)]);
    fields[5] = ASN1Value::Sequence(vec![ASN1Value::Sequence(vec![
        ASN1Value::ObjectIdentifier(vec![1, 3, 6]),
        nested.clone(),
    ])]);
    assert_eq!(
        decode_trap(&fields).unwrap().variables,
        vec![(ASN1Value::ObjectIdentifier(vec![1, 3, 6]), nested)]
    );
}

#[test]
fn pdu_from_a_trap_body() {
    let pdu = SnmpV1PDU::new(ASN1Value::Trap(good_fields())).unwrap();
    let trap = pdu.as_trap().unwrap();
    assert_eq!(trap.generic, GenericTrap::EnterpriseSpecific);
    assert_eq!(
        SnmpV1PDU::new(ASN1Value::Trap(vec![])),
        Err(SnmpError::Generic("invalid length".to_string()))
    );
}

#[test]
fn packets_can_be_cloned() {
    let packet = SnmpPacket::new(&link_down_datagram()).unwrap();
    let copy = packet.clone();
    assert_eq!(copy, packet);
    let trap = copy.as_v1().unwrap().pdu.as_trap().unwrap();
    assert_eq!(trap.clone(), trap);
    assert_eq!(trap.variables.len(), 1);
}

#[test]
fn snmp_error_from_its_sources() {
    assert_eq!(
        SnmpError::from(Error::UnexpectedValue),
        SnmpError::ASN1Error(Error::UnexpectedValue)
    );
    assert_eq!(SnmpError::from("blah"), SnmpError::Generic("blah".to_string()));
}

#[test]
fn snmp_error_texts() {
    assert_eq!(SnmpError::ASN1Error(Error::WrongType).description(), "wrong type!");
    assert_eq!(SnmpError::ASN1Error(Error::WrongType).message(), "WrongType");
    assert_eq!(
        SnmpError::ASN1Error(Error::UnexpectedValue).description(),
        "unexpected value"
    );
    assert_eq!(SnmpError::WrongType.description(), "wrong type");
    assert_eq!(SnmpError::WrongType.message(), "wrong type");
    assert_eq!(SnmpError::UnsupportedVersion.message(), "unsupported version");
    assert_eq!(SnmpError::UnsupportedPdu.message(), "invalid type for pdu");
    assert_eq!(SnmpError::Generic("idk".to_string()).description(), "idk");
    assert_eq!(SnmpError::Generic("invalid length".to_string()).message(), "invalid length");
}

#[test]
fn error_status_variants_are_distinct() {
    let all = [
        ErrorStatus::NoError,
        ErrorStatus::TooBig,
        ErrorStatus::NoSuchName,
        ErrorStatus::BadValue,
        ErrorStatus::ReadOnly,
        ErrorStatus::GenErr,
    ];
    for (i, a) in all.iter().enumerate() {
        for (j, b) in all.iter().enumerate() {
            assert_eq!(a == b, i == j);
        }
    }
}
