use lib::from_wire::{parse_domain_name, parse_rdata, FromWire, FromWireError, FromWireResult, Parser};
use lib::message::{Message, MessageKind, Question, ResourceRecord, ResourceRecordData};
use lib::types::{Opcode, QClass, QType, RClass, RType, ResponseCode};
use lib::wire::{ToWire, ToWireError};

fn name(labels: &[&str]) -> Vec<Vec<u8>> {
    labels.iter().map(|l| l.as_bytes().to_vec()).collect()
}

/// id 0x1234, RD set, one question: example.com A IN.
fn simple_query_bytes() -> Vec<u8> {
    let mut b = vec![0x12, 0x34, 0x01, 0x00, 0x00, 0x01, 0x00, 0x00, 0x00, 0x00, 0x00, 0x00];
    b.extend_from_slice(&[7]);
    b.extend_from_slice(b"example");
    b.extend_from_slice(&[3]);
    b.extend_from_slice(b"com");
    b.extend_from_slice(&[0, 0x00, 0x01, 0x00, 0x01]);
    b
}

fn simple_query() -> Message {
    Message {
        id: 0x1234,
        kind: MessageKind::Query,
        opcode: Opcode::Standard,
        recursion_desired: true,
        question: vec![Question {
            qname: name(&["example", "com"]),
            qtype: QType::RType(RType::A),
            qclass: QClass::RClass(RClass::IN),
        }],
        answer: vec![],
        authority: vec![],
        additional: vec![],
    }
}

fn response_header(id: u16, qd: u16, an: u16, ns: u16, ar: u16) -> Vec<u8> {
    let mut b = Vec::new();
    b.extend_from_slice(&id.to_be_bytes());
    b.extend_from_slice(&0x8180u16.to_be_bytes());
    for c in [qd, an, ns, ar] {
        b.extend_from_slice(&c.to_be_bytes());
    }
    b
}

fn decode(buf: &[u8]) -> Result<FromWireResult, FromWireError> {
    <Message as FromWire>::from_wire(buf)
}

#[test]
fn decodes_simple_query() {
    let res = decode(&simple_query_bytes()).unwrap();
    assert!(!res.truncation);
    assert_eq!(res.message, simple_query());
}

#[test]
fn encodes_simple_query() {
    let mut buf = Vec::new();
    assert!(simple_query().to_wire(&mut buf).is_ok());
    assert_eq!(buf, simple_query_bytes());
}

#[test]
fn encode_then_decode_gives_message_back() {
    let m = Message {
        id: 0xbeef,
        kind: MessageKind::Response {
            authoritative: true,
            recursion_available: true,
            response_code: ResponseCode::NameError,
        },
        opcode: Opcode::Status,
        recursion_desired: false,
        question: vec![
            Question { qname: name(&["a", "b", "c"]), qtype: QType::MAILB, qclass: QClass::Any },
            Question {
                qname: vec![],
                qtype: QType::RType(RType::Unknown(1000)),
                qclass: QClass::RClass(RClass::Unknown(77)),
            },
        ],
        answer: vec![],
        authority: vec![],
        additional: vec![],
    };
    let mut buf = Vec::new();
    assert!(m.to_wire(&mut buf).is_ok());
    let res = decode(&buf).unwrap();
    assert!(!res.truncation);
    assert_eq!(res.message, m);
}

#[test]
fn encodes_response_header_word() {
    let m = Message {
        id: 1,
        kind: MessageKind::Response {
            authoritative: true,
            recursion_available: false,
            response_code: ResponseCode::Refused,
        },
        opcode: Opcode::Inverse,
        recursion_desired: true,
        question: vec![],
        answer: vec![],
        authority: vec![],
        additional: vec![],
    };
    let mut buf = Vec::new();
    assert!(m.to_wire(&mut buf).is_ok());
    // QR | opcode 1 | AA | RD | rcode 5
    assert_eq!(buf, vec![0, 1, 0x8d, 0x05, 0, 0, 0, 0, 0, 0, 0, 0]);
}

#[test]
fn encoding_appends_to_buffer() {
    let mut buf = vec![9u8, 9u8];
    assert!(simple_query().to_wire(&mut buf).is_ok());
    let mut expected = vec![9u8, 9u8];
    expected.extend_from_slice(&simple_query_bytes());
    assert_eq!(buf, expected);
}

#[test]
fn decodes_compressed_answer() {
    let mut b = response_header(7, 1, 1, 0, 0);
    // question: example.com A IN at offset 12
    b.extend_from_slice(&simple_query_bytes()[12..]);
    // answer: pointer to offset 12, A IN, ttl 300, 4 bytes
    b.extend_from_slice(&[0xc0, 12, 0, 1, 0, 1, 0, 0, 1, 0x2c, 0, 4, 93, 184, 216, 34]);
    let res = decode(&b).unwrap();
    let m = res.message;
    assert_eq!(m.id, 7);
    assert_eq!(
        m.kind,
        MessageKind::Response {
            authoritative: false,
            recursion_available: true,
            response_code: ResponseCode::NoError,
        }
    );
    assert!(m.recursion_desired);
    assert_eq!(m.answer.len(), 1);
    assert_eq!(
        m.answer[0],
        ResourceRecord {
            name: name(&["example", "com"]),
            class: RClass::IN,
            ttl: 300,
            rdata: ResourceRecordData::A([93, 184, 216, 34]),
        }
    );
}

#[test]
fn pointer_completes_a_name_after_labels() {
    // "com" at 0, then "www" + pointer to 0 at 5
    let buf = [3, b'c', b'o', b'm', 0, 3, b'w', b'w', b'w', 0xc0, 0, 0xff];
    let parser = Parser::new(&buf);
    let mut p = parser.at(5);
    let mut labels = Vec::new();
    assert_eq!(parse_domain_name(&mut p, &mut labels, 0, 20), Ok(()));
    assert_eq!(labels, name(&["www", "com"]));
    // the cursor is just past the pointer: the next byte is 0xff
    assert_eq!(p.read_u8(), Some(0xff));
}

#[test]
fn parse_domain_name_appends_labels() {
    let buf = [1, b'x', 0];
    let mut p = Parser::new(&buf);
    let mut labels = name(&["first"]);
    assert_eq!(parse_domain_name(&mut p, &mut labels, 0, 20), Ok(()));
    assert_eq!(labels, name(&["first", "x"]));
}

#[test]
fn pointer_chain_beyond_limit_is_rejected() {
    // root name at 0, then pointers each to the previous one.
    let mut buf = vec![0u8];
    let mut prev = 0u16;
    for _ in 0..25 {
        let here = buf.len() as u16;
        buf.extend_from_slice(&(0xc000u16 | prev).to_be_bytes());
        prev = here;
    }
    let parser = Parser::new(&buf);
    // 19 pointers and the name they reach: 20 names, within the limit
    let mut p = parser.at(1 + 2 * 18);
    let mut labels = Vec::new();
    assert_eq!(parse_domain_name(&mut p, &mut labels, 0, 20), Ok(()));
    assert!(labels.is_empty());
    // 20 pointers: 21 names
    let mut p = parser.at(1 + 2 * 19);
    let mut labels = Vec::new();
    assert_eq!(parse_domain_name(&mut p, &mut labels, 0, 20), Err(FromWireError::InvalidDomainName));
}

#[test]
fn parser_reads_fields() {
    let buf = [1u8, 2, 3, 4, 5, 6];
    let mut p = Parser::new(&buf);
    assert_eq!(p.read_u8(), Some(1));
    assert_eq!(p.read_u16(), Some(0x0203));
    assert_eq!(p.read_u32(), None);
    assert_eq!(p.read_array::<2>(), Some([4, 5]));
    assert_eq!(p.read_bytes(2), None);
    assert_eq!(p.read_bytes(1), Some(vec![6]));
    assert_eq!(p.read_u8(), None);
    let mut q = p.at(2);
    assert_eq!(q.read_u32(), Some(0x03040506));
    let mut r = p.at(100);
    assert_eq!(r.read_u8(), None);
    assert_eq!(r.read_bytes(0), None);
}

#[test]
fn error_buffer_too_short() {
    assert_eq!(decode(&[0u8; 11]).unwrap_err(), FromWireError::BufferTooShort);
}

#[test]
fn error_invalid_header() {
    // a query with AA set
    let mut b = simple_query_bytes();
    b[2] |= 0x04;
    assert_eq!(decode(&b).unwrap_err(), FromWireError::InvalidHeader);
    // a query with a non-zero RCODE
    let mut b = simple_query_bytes();
    b[3] = 0x01;
    assert_eq!(decode(&b).unwrap_err(), FromWireError::InvalidHeader);
}

#[test]
fn error_invalid_question() {
    let b = &simple_query_bytes()[..simple_query_bytes().len() - 1];
    assert_eq!(decode(b).unwrap_err(), FromWireError::InvalidQuestion);
}

#[test]
fn error_invalid_domain_name() {
    let b = &simple_query_bytes()[..18];
    assert_eq!(decode(b).unwrap_err(), FromWireError::InvalidDomainName);
}

#[test]
fn error_invalid_domain_name_pointer() {
    let mut b = response_header(1, 1, 0, 0, 0);
    // a pointer to itself
    b.extend_from_slice(&[0xc0, 12, 0, 1, 0, 1]);
    assert_eq!(decode(&b).unwrap_err(), FromWireError::InvalidDomainNamePointer);
}

#[test]
fn error_label_too_long() {
    let mut b = response_header(1, 1, 0, 0, 0);
    b.push(64);
    b.extend_from_slice(&[b'a'; 64]);
    b.extend_from_slice(&[0, 0, 1, 0, 1]);
    assert_eq!(decode(&b).unwrap_err(), FromWireError::LabelTooLong);
}

#[test]
fn error_domain_name_too_long() {
    // four labels of 63 octets: 4 * 64 + 1 = 257 octets
    let mut b = response_header(1, 1, 0, 0, 0);
    for _ in 0..4 {
        b.push(63);
        b.extend_from_slice(&[b'a'; 63]);
    }
    b.extend_from_slice(&[0, 0, 1, 0, 1]);
    assert_eq!(decode(&b).unwrap_err(), FromWireError::DomainNameTooLong);
}

#[test]
fn longest_domain_name_is_accepted() {
    // three labels of 63 octets and one of 61: 3 * 64 + 62 + 1 = 255 octets
    let mut b = response_header(1, 1, 0, 0, 0);
    for _ in 0..3 {
        b.push(63);
        b.extend_from_slice(&[b'a'; 63]);
    }
    b.push(61);
    b.extend_from_slice(&[b'b'; 61]);
    b.extend_from_slice(&[0, 0, 1, 0, 1]);
    let m = decode(&b).unwrap().message;
    assert_eq!(m.question[0].qname.len(), 4);
}

#[test]
fn error_trailing_bytes() {
    let mut b = simple_query_bytes();
    b.push(0);
    assert_eq!(decode(&b).unwrap_err(), FromWireError::TrailingBytes);
}

fn record_bytes(rtype: u16, class: u16, rdata: &[u8], rdlength: u16) -> Vec<u8> {
    let mut b = response_header(1, 0, 1, 0, 0);
    b.push(0); // root name
    b.extend_from_slice(&rtype.to_be_bytes());
    b.extend_from_slice(&class.to_be_bytes());
    b.extend_from_slice(&60u32.to_be_bytes());
    b.extend_from_slice(&rdlength.to_be_bytes());
    b.extend_from_slice(rdata);
    b
}

fn decode_rdata(rtype: u16, class: u16, rdata: &[u8]) -> Result<ResourceRecordData, FromWireError> {
    let b = record_bytes(rtype, class, rdata, rdata.len() as u16);
    decode(&b).map(|r| r.message.answer[0].rdata.clone())
}

#[test]
fn error_invalid_resource_record_length_mismatch() {
    // an A record whose RDLENGTH says 5
    let b = record_bytes(1, 1, &[1, 2, 3, 4, 5], 5);
    assert_eq!(decode(&b).unwrap_err(), FromWireError::InvalidResourceRecord);
}

#[test]
fn error_invalid_character_string() {
    assert_eq!(decode_rdata(13, 1, &[5, b'a']).unwrap_err(), FromWireError::InvalidCharacterString);
}

#[test]
fn decodes_txt_record() {
    let d = decode_rdata(16, 1, &[2, b'h', b'i', 0, 3, b'a', b'b', b'c']).unwrap();
    assert_eq!(d, ResourceRecordData::TXT(vec![b"hi".to_vec(), vec![], b"abc".to_vec()]));
}

#[test]
fn txt_record_needs_a_string() {
    assert_eq!(decode_rdata(16, 1, &[]).unwrap_err(), FromWireError::InvalidResourceRecord);
}

#[test]
fn txt_string_may_not_overrun_rdata() {
    // RDLENGTH 2, but the string claims 3 octets
    let mut b = record_bytes(16, 1, &[3, b'a', b'b', b'c'], 2);
    assert_eq!(decode(&b).unwrap_err(), FromWireError::InvalidResourceRecord);
    b.truncate(b.len() - 2);
    assert!(decode(&b).is_err());
}

#[test]
fn decodes_mx_soa_hinfo_minfo_records() {
    let mx = decode_rdata(15, 1, &[0, 10, 2, b'm', b'x', 0]).unwrap();
    assert_eq!(mx, ResourceRecordData::MX { preference: 10, exchange: name(&["mx"]) });

    let mut soa = vec![1, b'a', 0, 1, b'b', 0];
    for v in [1u32, 2, 3, 4, 5] {
        soa.extend_from_slice(&v.to_be_bytes());
    }
    assert_eq!(
        decode_rdata(6, 1, &soa).unwrap(),
        ResourceRecordData::SOA {
            mname: name(&["a"]),
            rname: name(&["b"]),
            serial: 1,
            refresh: 2,
            retry: 3,
            expire: 4,
            minimum: 5,
        }
    );

    assert_eq!(
        decode_rdata(13, 1, &[1, b'x', 2, b'o', b's']).unwrap(),
        ResourceRecordData::HINFO { cpu: b"x".to_vec(), os: b"os".to_vec() }
    );
    assert_eq!(
        decode_rdata(14, 1, &[1, b'r', 0, 1, b'e', 0]).unwrap(),
        ResourceRecordData::MINFO { rmailbx: name(&["r"]), emailbx: name(&["e"]) }
    );
    assert_eq!(decode_rdata(12, 1, &[1, b'p', 0]).unwrap(), ResourceRecordData::PTR(name(&["p"])));
    assert_eq!(decode_rdata(2, 1, &[1, b'n', 0]).unwrap(), ResourceRecordData::NS(name(&["n"])));
    assert_eq!(decode_rdata(10, 1, &[9, 8, 7]).unwrap(), ResourceRecordData::NULL(vec![9, 8, 7]));
}

#[test]
fn decodes_wks_record() {
    assert_eq!(
        decode_rdata(11, 1, &[10, 0, 0, 1, 6, 0xff, 0x01]).unwrap(),
        ResourceRecordData::WKS { address: [10, 0, 0, 1], protocol: 6, bitmap: vec![0xff, 0x01] }
    );
    // RDLENGTH shorter than address and protocol
    let b = record_bytes(11, 1, &[10, 0, 0, 1, 6], 3);
    assert_eq!(decode(&b).unwrap_err(), FromWireError::InvalidResourceRecord);
}

#[test]
fn address_records_outside_in_are_opaque() {
    assert_eq!(
        decode_rdata(1, 3, &[1, 2, 3]).unwrap(),
        ResourceRecordData::Unknown { rtype: 1, rdata: vec![1, 2, 3] }
    );
    assert_eq!(
        decode_rdata(11, 4, &[7]).unwrap(),
        ResourceRecordData::Unknown { rtype: 11, rdata: vec![7] }
    );
    assert_eq!(
        decode_rdata(4242, 1, &[5, 5]).unwrap(),
        ResourceRecordData::Unknown { rtype: 4242, rdata: vec![5, 5] }
    );
}

#[test]
fn parse_rdata_reads_from_cursor() {
    let buf = [0xaa, 192, 0, 2, 1];
    let mut p = Parser::new(&buf).at(1);
    assert_eq!(parse_rdata(&mut p, RType::A, RClass::IN, 4), Ok(ResourceRecordData::A([192, 0, 2, 1])));
    let mut p = Parser::new(&buf).at(2);
    assert_eq!(parse_rdata(&mut p, RType::A, RClass::IN, 4), Err(FromWireError::InvalidResourceRecord));
}

#[test]
fn record_data_type_matches_wire_type() {
    for (t, c, d) in [(1u16, 1u16, vec![1u8, 2, 3, 4]), (1, 2, vec![1]), (16, 1, vec![0]), (300, 1, vec![])] {
        let data = decode_rdata(t, c, &d).unwrap();
        assert_eq!(u16::from(&data), t);
    }
    assert_eq!(RType::from(&ResourceRecordData::A([0; 4])), RType::A);
    assert_eq!(RType::from(&ResourceRecordData::Unknown { rtype: 1, rdata: vec![] }), RType::Unknown(1));
    assert_eq!(u16::from(&ResourceRecordData::TXT(vec![])), 16);
}

#[test]
fn to_wire_error_label_too_long() {
    let long = vec![b'z'; 64];
    let n: Vec<Vec<u8>> = vec![b"ok".to_vec(), long.clone(), b"later".to_vec()];
    let mut buf = Vec::new();
    match n.to_wire(&mut buf) {
        Err(ToWireError::LabelTooLong(l)) => assert_eq!(l, &long[..]),
        other => panic!("unexpected {:?}", other),
    }
    // what came before the offending label was written
    assert_eq!(buf, vec![2, b'o', b'k']);
}

#[test]
fn to_wire_error_too_many_questions() {
    let mut m = simple_query();
    m.question = vec![
        Question { qname: vec![], qtype: QType::Any, qclass: QClass::Any };
        65536
    ];
    let mut buf = Vec::new();
    assert!(matches!(m.to_wire(&mut buf), Err(ToWireError::TooManyQuestionRecords)));
    assert_eq!(buf.len(), 4);
}

fn sample_record() -> ResourceRecord {
    ResourceRecord { name: vec![], class: RClass::IN, ttl: 0, rdata: ResourceRecordData::NULL(vec![]) }
}

#[test]
fn to_wire_error_too_many_records() {
    let base = Message {
        id: 0,
        kind: MessageKind::Response {
            authoritative: false,
            recursion_available: false,
            response_code: ResponseCode::NoError,
        },
        opcode: Opcode::Standard,
        recursion_desired: false,
        question: vec![],
        answer: vec![],
        authority: vec![],
        additional: vec![],
    };
    let many = vec![sample_record(); 65536];
    let mut m = Message { answer: many.clone(), ..base };
    let mut buf = Vec::new();
    assert!(matches!(m.to_wire(&mut buf), Err(ToWireError::TooManyAnswerRecords)));
    m.answer = vec![];
    m.authority = many.clone();
    assert!(matches!(m.to_wire(&mut Vec::new()), Err(ToWireError::TooManyAuthorityRecords)));
    m.authority = vec![];
    m.additional = many;
    assert!(matches!(m.to_wire(&mut Vec::new()), Err(ToWireError::TooManyAdditionalRecords)));
}

#[test]
fn query_counts_no_records() {
    let mut m = simple_query();
    m.answer = vec![sample_record()];
    let mut buf = Vec::new();
    assert!(m.to_wire(&mut buf).is_ok());
    assert_eq!(&buf[6..12], &[0, 0, 0, 0, 0, 0]);
}

#[test]
fn question_encoding() {
    let q = Question { qname: name(&["a"]), qtype: QType::AXFR, qclass: QClass::RClass(RClass::CH) };
    let mut buf = Vec::new();
    assert!(q.to_wire(&mut buf).is_ok());
    assert_eq!(buf, vec![1, b'a', 0, 0, 252, 0, 3]);
}

#[test]
fn codes_decode_then_encode_to_themselves() {
    for c in 0..=u16::MAX {
        assert_eq!(u16::from(QType::from(c)), c);
        assert_eq!(u16::from(QClass::from(c)), c);
        assert_eq!(u16::from(RType::from(c)), c);
        assert_eq!(u16::from(RClass::from(c)), c);
    }
    for c in 0..=u8::MAX {
        assert_eq!(u8::from(Opcode::from(c)), c);
        assert_eq!(u8::from(ResponseCode::from(c)), c);
    }
}

#[test]
fn canonical_values_encode_then_decode_to_themselves() {
    let qtypes = [QType::AXFR, QType::MAILB, QType::MAILA, QType::Any, QType::RType(RType::TXT), QType::RType(RType::Unknown(17))];
    for q in qtypes {
        assert_eq!(QType::from(u16::from(q)), q);
    }
    let qclasses = [QClass::Any, QClass::RClass(RClass::HS), QClass::RClass(RClass::Unknown(254))];
    for q in qclasses {
        assert_eq!(QClass::from(u16::from(q)), q);
    }
    assert_eq!(Opcode::from(u8::from(Opcode::Unknown(9))), Opcode::Unknown(9));
    assert_eq!(ResponseCode::from(u16::from(ResponseCode::NotImplemented)), ResponseCode::NotImplemented);
    // a value that is not canonical does not come back
    assert_eq!(QType::from(u16::from(QType::RType(RType::Unknown(255)))), QType::Any);
    assert_eq!(Opcode::from(u16::from(Opcode::Status)), Opcode::Status);
}

#[test]
fn truncation_bit_is_reported() {
    let mut b = simple_query_bytes();
    b[2] |= 0x02;
    let res = decode(&b).unwrap();
    assert!(res.truncation);
    assert_eq!(res.message, simple_query());
}

#[test]
fn opcode_and_unknown_response_code_decode() {
    let mut b = response_header(3, 0, 0, 0, 0);
    b[2] = 0x80 | (5 << 3); // response, opcode 5
    b[3] = 0x0b; // rcode 11
    let m = decode(&b).unwrap().message;
    assert_eq!(m.opcode, Opcode::Unknown(5));
    assert_eq!(
        m.kind,
        MessageKind::Response {
            authoritative: false,
            recursion_available: false,
            response_code: ResponseCode::Unknown(11),
        }
    );
}

#[test]
fn wide_codes_keep_to_their_header_fields() {
    let mut m = simple_query();
    m.opcode = Opcode::Unknown(0x1f);
    m.recursion_desired = false;
    m.question = vec![];
    let mut buf = Vec::new();
    assert!(m.to_wire(&mut buf).is_ok());
    let info = u16::from_be_bytes([buf[2], buf[3]]);
    // QR stays clear in a query; OPCODE holds the low four bits
    assert_eq!(info, 0x0f << 11);

    m.kind = MessageKind::Response {
        authoritative: false,
        recursion_available: false,
        response_code: ResponseCode::Unknown(0x1b),
    };
    m.opcode = Opcode::Standard;
    let mut buf = Vec::new();
    assert!(m.to_wire(&mut buf).is_ok());
    let info = u16::from_be_bytes([buf[2], buf[3]]);
    // RA and the reserved bits stay clear; RCODE holds the low four bits
    assert_eq!(info, 0x8000 | 0x0b);
}

#[test]
fn cursor_after_record_data_errors() {
    let buf = [0xaa, 0xbb];
    // TXT with RDLENGTH 0: no string, and nothing read
    let mut p = Parser::new(&buf);
    assert_eq!(parse_rdata(&mut p, RType::TXT, RClass::IN, 0), Err(FromWireError::InvalidResourceRecord));
    assert_eq!(p.read_u8(), Some(0xaa));
    // NULL data longer than the buffer: nothing read
    let mut p = Parser::new(&buf);
    assert_eq!(parse_rdata(&mut p, RType::NULL, RClass::IN, 3), Err(FromWireError::InvalidResourceRecord));
    assert_eq!(p.read_u8(), Some(0xaa));
    let mut p = Parser::new(&buf);
    assert_eq!(parse_rdata(&mut p, RType::Unknown(99), RClass::IN, 5), Err(FromWireError::InvalidResourceRecord));
    assert_eq!(p.read_u8(), Some(0xaa));
}

#[test]
fn cursor_after_domain_name_errors() {
    // a label of 64 octets: the cursor stands past its length octet
    let mut buf = vec![64u8];
    buf.extend_from_slice(&[b'q'; 64]);
    let mut p = Parser::new(&buf);
    let mut labels = Vec::new();
    assert_eq!(parse_domain_name(&mut p, &mut labels, 0, 20), Err(FromWireError::LabelTooLong));
    assert_eq!(p.read_u8(), Some(b'q'));
    // a forward pointer: the cursor stands past the pointer
    let buf = [0xc0, 0x05, 0x77];
    let mut p = Parser::new(&buf);
    let mut labels = Vec::new();
    assert_eq!(
        parse_domain_name(&mut p, &mut labels, 0, 20),
        Err(FromWireError::InvalidDomainNamePointer)
    );
    assert_eq!(p.read_u8(), Some(0x77));
}
