use dns_codec::errors::DnsError;
use dns_codec::header::{Header, OpCode, ResponseCode};

fn sample_header() -> Header {
    Header {
        packet_id: 0x1234,
        is_response: true,
        op_code: OpCode::Status,
        authoritative_answer: false,
        truncation: true,
        recursion_desired: true,
        recursion_available: true,
        reserved: 3,
        response_code: ResponseCode::Refused,
        question_count: 1,
        answer_record_count: 2,
        authority_record_count: 3,
        additional_record_count: 4,
    }
}

#[test]
fn header_write_exact_bytes() {
    let h = sample_header();
    let mut buf = bytes::BytesMut::new();
    h.write(&mut buf);
    let expected: [u8; 12] = [
        0x12, 0x34, 0x93, 0xb5, 0x00, 0x01, 0x00, 0x02, 0x00, 0x03, 0x00, 0x04,
    ];
    assert_eq!(&buf[..], &expected[..]);
}

#[test]
fn header_parse_exact_fields() {
    let bytes: [u8; 12] = [
        0x12, 0x34, 0x93, 0xb5, 0x00, 0x01, 0x00, 0x02, 0x00, 0x03, 0x00, 0x04,
    ];
    let h = Header::parse(&bytes).unwrap();
    assert_eq!(h, sample_header());
}

#[test]
fn header_roundtrip_encode_decode_encode() {
    let h = sample_header();
    let mut first = bytes::BytesMut::new();
    h.write(&mut first);
    let decoded = Header::parse(&first[..]).unwrap();
    let mut second = bytes::BytesMut::new();
    decoded.write(&mut second);
    assert_eq!(&first[..], &second[..]);
    assert_eq!(decoded, h);
}

#[test]
fn header_roundtrip_unknown_codes() {
    // an unrecognized opcode and response code survive a round trip
    let bytes: [u8; 12] = [
        0x00, 0x07, 0x78, 0x0e, 0x00, 0x00, 0x00, 0x00, 0x00, 0x00, 0x00, 0x00,
    ];
    let h = Header::parse(&bytes).unwrap();
    assert_eq!(h.op_code, OpCode::Invalid(15));
    assert_eq!(h.response_code, ResponseCode::Invalid(14));
    let mut buf = bytes::BytesMut::new();
    h.write(&mut buf);
    assert_eq!(&buf[..], &bytes[..]);
}

#[test]
fn header_rejects_short_buffer() {
    let short = [0u8; 11];
    assert_eq!(Header::parse(&short), Err(DnsError::Truncated));
    assert_eq!(Header::parse(&[]), Err(DnsError::Truncated));
}

#[test]
fn header_new_query_fields() {
    let h = Header::new_query(7);
    assert!(!h.is_response);
    assert_eq!(h.op_code, OpCode::Query);
    assert!(!h.authoritative_answer);
    assert!(!h.truncation);
    assert!(!h.recursion_desired);
    assert!(!h.recursion_available);
    assert_eq!(h.reserved, 0);
    assert_eq!(h.response_code, ResponseCode::NoError);
    assert_eq!(h.question_count, 7);
    assert_eq!(h.answer_record_count, 0);
    assert_eq!(h.authority_record_count, 0);
    assert_eq!(h.additional_record_count, 0);
}

#[test]
fn opcode_parse_and_code() {
    assert_eq!(OpCode::parse(0), OpCode::Query);
    assert_eq!(OpCode::parse(1), OpCode::IQuery);
    assert_eq!(OpCode::parse(2), OpCode::Status);
    assert_eq!(OpCode::parse(9), OpCode::Invalid(9));
    assert_eq!(OpCode::parse(9).code(), 9);
    assert_eq!(OpCode::Status.code(), 2);
}

#[test]
fn response_code_parse_and_code() {
    assert_eq!(ResponseCode::parse(0), ResponseCode::NoError);
    assert_eq!(ResponseCode::parse(1), ResponseCode::FormatError);
    assert_eq!(ResponseCode::parse(2), ResponseCode::ServerFailure);
    assert_eq!(ResponseCode::parse(3), ResponseCode::NameError);
    assert_eq!(ResponseCode::parse(4), ResponseCode::NotImplemented);
    assert_eq!(ResponseCode::parse(5), ResponseCode::Refused);
    assert_eq!(ResponseCode::parse(11), ResponseCode::Invalid(11));
    assert_eq!(ResponseCode::parse(11).code(), 11);
}
