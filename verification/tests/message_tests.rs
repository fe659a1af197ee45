use dns_codec::errors::DnsError;
use dns_codec::header::{OpCode, ResponseCode};
use dns_codec::message::Message;
use dns_codec::name::{DomainName, Label};
use dns_codec::question::{Class, Question, RecordType};
use dns_codec::record::{ResourceRecord, ResourceRecordData};

/// A query with id 1234, opcode Query, RD set, and one question for
/// "codecrafters.io" (type A, class IN).
fn query_bytes() -> Vec<u8> {
    let mut buf = vec![0x04u8, 0xd2, 0x01, 0x00, 0x00, 0x01, 0, 0, 0, 0, 0, 0];
    buf.extend_from_slice(b"\x0ccodecrafters\x02io\x00");
    buf.extend_from_slice(&[0, 1, 0, 1]);
    buf
}

#[test]
fn message_parse_query() {
    let buf = query_bytes();
    let msg = Message::parse(&buf).unwrap();
    assert_eq!(msg.header.packet_id, 1234);
    assert!(!msg.header.is_response);
    assert_eq!(msg.header.op_code, OpCode::Query);
    assert!(msg.header.recursion_desired);
    assert_eq!(msg.header.question_count, 1);
    assert_eq!(msg.questions.len(), 1);
    let q = &msg.questions[0];
    assert_eq!(
        q.name.labels,
        vec![
            Label::Value(b"codecrafters".to_vec()),
            Label::Value(b"io".to_vec()),
        ]
    );
    assert_eq!(q.ty, RecordType::Address);
    assert_eq!(q.class, Class::Internet);
    assert!(msg.answers.is_empty());
    assert!(msg.authorities.is_empty());
    assert!(msg.additionals.is_empty());
}

#[test]
fn message_parse_ignores_trailing_bytes() {
    let mut buf = query_bytes();
    buf.extend_from_slice(&[9, 9, 9]);
    let msg = Message::parse(&buf).unwrap();
    assert_eq!(msg.questions.len(), 1);
}

#[test]
fn message_parse_rejects_short_header() {
    let buf = [0u8; 11];
    assert_eq!(Message::parse(&buf), Err(DnsError::Truncated));
}

#[test]
fn message_parse_rejects_missing_question() {
    // the header promises two questions, only one is present
    let mut buf = query_bytes();
    buf[5] = 2;
    assert_eq!(Message::parse(&buf), Err(DnsError::Truncated));
}

#[test]
fn message_parse_refuses_record_sections() {
    // record decoding is a deliberate stub: distinct from a malformed packet
    let mut buf = query_bytes();
    buf[7] = 1; // ANCOUNT = 1
    assert_eq!(Message::parse(&buf), Err(DnsError::Unsupported));
}

#[test]
fn record_parse_is_unsupported() {
    assert_eq!(
        ResourceRecord::parse(&[0u8; 32], 0),
        Err(DnsError::Unsupported)
    );
    assert_eq!(
        ResourceRecordData::_parse(&[0u8; 32], 0),
        Err(DnsError::Unsupported)
    );
}

#[test]
fn pointer_resolution_into_question() {
    // one question "codecrafters.io"; an answer's name is a pointer to
    // offset 12, the start of the question's name
    let msg = Message::parse(&query_bytes()).unwrap();
    let (ptr_name, _) = DomainName::parse(&[0xc0u8, 0x0c], 0).unwrap();
    let answer = ResourceRecord::new(
        ptr_name,
        RecordType::Address,
        Class::Internet,
        60,
        ResourceRecordData::IPv4([8, 8, 8, 8]),
    );
    let resolved = answer.decompressed_clone(&msg).unwrap();
    assert_eq!(
        resolved.name.labels,
        vec![
            Label::Value(b"codecrafters".to_vec()),
            Label::Value(b"io".to_vec()),
        ]
    );
    assert_eq!(resolved.ty, RecordType::Address);
    assert_eq!(resolved.time_to_live, 60);
    assert_eq!(resolved.length, 4);
}

#[test]
fn pointer_to_second_label() {
    // "codecrafters" takes bytes 12..=24, so "io" starts at offset 25
    let msg = Message::parse(&query_bytes()).unwrap();
    let labels = msg.get_labels(25).unwrap();
    assert_eq!(labels, vec![b"io".to_vec()]);
}

#[test]
fn pointer_into_header_is_rejected() {
    // offset 5 lands inside the 12-byte header
    let msg = Message::parse(&query_bytes()).unwrap();
    assert_eq!(msg.get_labels(5), Err(DnsError::InvalidOffset));
    let (ptr_name, _) = DomainName::parse(&[0xc0u8, 0x05], 0).unwrap();
    assert_eq!(ptr_name.decompress(&msg), Err(DnsError::InvalidOffset));
}

#[test]
fn pointer_past_questions_is_rejected() {
    let msg = Message::parse(&query_bytes()).unwrap();
    // the single question spans offsets 12..33
    assert_eq!(msg.get_labels(33), Err(DnsError::InvalidOffset));
    assert_eq!(msg.get_labels(500), Err(DnsError::InvalidOffset));
}

#[test]
fn pointer_into_type_class_is_rejected() {
    let msg = Message::parse(&query_bytes()).unwrap();
    // the name spans offsets 12..=28; 30 lands in the type/class bytes
    assert_eq!(msg.get_labels(30), Err(DnsError::InvalidOffset));
}

#[test]
fn pointer_inside_label_is_rejected() {
    let msg = Message::parse(&query_bytes()).unwrap();
    assert_eq!(msg.get_labels(13), Err(DnsError::InvalidOffset));
}

fn two_answers(msg: &Message) -> Vec<ResourceRecord> {
    let name = || {
        msg.questions[0]
            .decompressed_clone(msg)
            .unwrap()
            .name
    };
    vec![
        ResourceRecord::new(
            name(),
            RecordType::Address,
            Class::Internet,
            60,
            ResourceRecordData::IPv4([8, 8, 8, 8]),
        ),
        ResourceRecord::new(
            name(),
            RecordType::Address,
            Class::Internet,
            60,
            ResourceRecordData::IPv4([1, 1, 1, 1]),
        ),
    ]
}

#[test]
fn reply_derivation() {
    let msg = Message::parse(&query_bytes()).unwrap();
    let questions = vec![msg.questions[0].decompressed_clone(&msg).unwrap()];
    let answers = two_answers(&msg);
    let reply = Message::new_reply(&msg, questions, answers);
    assert_eq!(reply.header.packet_id, 1234);
    assert!(reply.header.is_response);
    assert_eq!(reply.header.op_code, OpCode::Query);
    assert_eq!(reply.header.response_code, ResponseCode::NoError);
    assert_eq!(reply.header.question_count, 1);
    assert_eq!(reply.header.answer_record_count, 2);
    assert_eq!(reply.header.authority_record_count, 0);
    assert_eq!(reply.header.additional_record_count, 0);
    assert!(!reply.header.recursion_desired);
    assert!(!reply.header.recursion_available);
    assert!(!reply.header.authoritative_answer);
    assert!(!reply.header.truncation);
}

#[test]
fn reply_to_non_query_opcode_is_not_implemented() {
    let mut buf = query_bytes();
    buf[2] = 2 << 3; // opcode Status
    let msg = Message::parse(&buf).unwrap();
    let reply = Message::new_reply(&msg, Vec::new(), Vec::new());
    assert_eq!(reply.header.op_code, OpCode::Status);
    assert_eq!(reply.header.response_code, ResponseCode::NotImplemented);
}

#[test]
fn message_write_exact_bytes() {
    let msg = Message::parse(&query_bytes()).unwrap();
    let questions = vec![msg.questions[0].decompressed_clone(&msg).unwrap()];
    let answers = two_answers(&msg);
    let reply = Message::new_reply(&msg, questions, answers);
    let mut buf = bytes::BytesMut::new();
    reply.write(&mut buf).unwrap();

    let mut expected = vec![0x04u8, 0xd2, 0x80, 0x00, 0x00, 0x01, 0x00, 0x02, 0, 0, 0, 0];
    expected.extend_from_slice(b"\x0ccodecrafters\x02io\x00");
    expected.extend_from_slice(&[0, 1, 0, 1]);
    for ip in [[8u8, 8, 8, 8], [1, 1, 1, 1]] {
        expected.extend_from_slice(b"\x0ccodecrafters\x02io\x00");
        expected.extend_from_slice(&[0, 1, 0, 1]);
        expected.extend_from_slice(&[0, 0, 0, 60]);
        expected.extend_from_slice(&[0, 4]);
        expected.extend_from_slice(&ip);
    }
    assert_eq!(&buf[..], &expected[..]);
}

#[test]
fn message_encode_is_idempotent() {
    let msg = Message::parse(&query_bytes()).unwrap();
    let questions = vec![msg.questions[0].decompressed_clone(&msg).unwrap()];
    let answers = two_answers(&msg);
    let reply = Message::new_reply(&msg, questions, answers);
    let mut first = bytes::BytesMut::new();
    reply.write(&mut first).unwrap();
    let mut second = bytes::BytesMut::new();
    reply.write(&mut second).unwrap();
    assert_eq!(&first[..], &second[..]);
}

#[test]
fn new_query_encode_is_idempotent() {
    // the random id is drawn at construction, never on encode
    let question = Question {
        name: DomainName::name_from_bytes(b"abc.io").unwrap(),
        ty: RecordType::Address,
        class: Class::Internet,
    };
    let msg = Message::new_query(vec![question]);
    let mut first = bytes::BytesMut::new();
    msg.write(&mut first).unwrap();
    let mut second = bytes::BytesMut::new();
    msg.write(&mut second).unwrap();
    assert_eq!(&first[..], &second[..]);
    assert_eq!(first.len(), 12 + 8 + 4);
}

#[test]
fn message_write_failure_leaves_buffer_untouched() {
    let mut msg = Message::parse(&query_bytes()).unwrap();
    msg.questions[0].name.labels.push(Label::Pointer(12));
    let mut buf = bytes::BytesMut::new();
    buf.extend_from_slice(b"zz");
    assert_eq!(msg.write(&mut buf), Err(DnsError::Unsupported));
    assert_eq!(&buf[..], b"zz");
}

#[test]
fn question_write_exact_bytes() {
    let q = Question {
        name: DomainName::name_from_bytes(b"abc.io").unwrap(),
        ty: RecordType::MailExchange,
        class: Class::Chaos,
    };
    let mut buf = bytes::BytesMut::new();
    q.write(&mut buf).unwrap();
    let expected = [3u8, b'a', b'b', b'c', 2, b'i', b'o', 0, 0, 15, 0, 3];
    assert_eq!(&buf[..], &expected[..]);
}

#[test]
fn question_parse_unknown_type_and_class() {
    let mut wire = b"\x02io\x00".to_vec();
    wire.extend_from_slice(&[0x00, 99, 0x00, 77]);
    let (q, end) = Question::parse(&wire, 0).unwrap();
    assert_eq!(end, wire.len());
    assert_eq!(q.ty, RecordType::Invalid(99));
    assert_eq!(q.class, Class::Invalid(77));
}

#[test]
fn question_parse_rejects_truncated_type() {
    let wire = b"\x02io\x00\x00".to_vec();
    assert_eq!(Question::parse(&wire, 0), Err(DnsError::Truncated));
}

#[test]
fn question_length_and_labels() {
    let msg = Message::parse(&query_bytes()).unwrap();
    let q = &msg.questions[0];
    assert_eq!(q.length(), 17 + 4);
    assert_eq!(q.get_label(0).unwrap(), b"codecrafters".to_vec());
    assert_eq!(q.get_label(13).unwrap(), b"io".to_vec());
    // inside the type/class tail
    assert_eq!(q.get_label(17), Err(DnsError::InvalidOffset));
    assert_eq!(
        q.get_labels(0).unwrap(),
        vec![b"codecrafters".to_vec(), b"io".to_vec()]
    );
}

#[test]
fn record_write_exact_bytes() {
    let rr = ResourceRecord::new(
        DomainName::name_from_bytes(b"abc.io").unwrap(),
        RecordType::Address,
        Class::Internet,
        0x01020304,
        ResourceRecordData::IPv4([10, 20, 30, 40]),
    );
    assert_eq!(rr.length, 4);
    let mut buf = bytes::BytesMut::new();
    rr.write(&mut buf).unwrap();
    let expected = [
        3u8, b'a', b'b', b'c', 2, b'i', b'o', 0, // name
        0, 1, // type A
        0, 1, // class IN
        1, 2, 3, 4, // TTL
        0, 4, // RDLENGTH
        10, 20, 30, 40, // RDATA
    ];
    assert_eq!(&buf[..], &expected[..]);
}

#[test]
fn record_type_and_class_codes() {
    assert_eq!(RecordType::parse(1), RecordType::Address);
    assert_eq!(RecordType::parse(16), RecordType::Text);
    assert_eq!(RecordType::parse(0), RecordType::Invalid(0));
    assert_eq!(RecordType::parse(700), RecordType::Invalid(700));
    assert_eq!(RecordType::parse(700).code(), 700);
    assert_eq!(RecordType::Pointer.code(), 12);
    assert_eq!(Class::parse(1), Class::Internet);
    assert_eq!(Class::parse(4), Class::Hesiod);
    assert_eq!(Class::parse(9), Class::Invalid(9));
    assert_eq!(Class::parse(9).code(), 9);
    assert_eq!(Class::Chaos.code(), 3);
}
