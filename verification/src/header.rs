//! The fixed 12-byte message header: bit-field packing and unpacking.

use vstd::prelude::*;
use rand::Rng;

use crate::errors::DnsError;
use crate::outbuf::{buf_contents, buf_put_u16, buf_put_u8};
use crate::wire::{be16, combine16, read_u16_at};

verus! {

/// OPCODE: the kind of operation a message asks for. An unrecognized wire
/// value is kept in `Invalid` so that re-encoding reproduces it.
#[derive(Debug, Clone, Copy, PartialEq, Eq, Structural)]
pub enum OpCode {
    /// QUERY: a standard query.
    Query,
    /// IQUERY: an inverse query.
    IQuery,
    /// STATUS: a server status request.
    Status,
    /// Any other 4-bit wire value, kept as read.
    Invalid(u8),
}

/// RCODE: the status a response reports. An unrecognized wire value is kept
/// in `Invalid` so that re-encoding reproduces it.
#[derive(Debug, Clone, Copy, PartialEq, Eq, Structural)]
pub enum ResponseCode {
    /// No error condition.
    NoError,
    /// Format error: the name server was unable to interpret the query.
    FormatError,
    /// Server failure: the name server could not process the query.
    ServerFailure,
    /// Name error: the queried domain name does not exist.
    NameError,
    /// Not implemented: the server does not support this kind of query.
    NotImplemented,
    /// Refused: the server refuses the operation for policy reasons.
    Refused,
    /// Any other 4-bit wire value, kept as read.
    Invalid(u8),
}

/// The 12-byte header that opens every message.
#[derive(Debug, Clone, Copy, PartialEq, Eq, Structural)]
pub struct Header {
    /// ID: a random ID assigned to query packets; replies echo it.
    pub packet_id: u16,
    /// QR: true for a reply packet, false for a question packet.
    pub is_response: bool,
    /// OPCODE: the kind of query, a 4-bit field.
    pub op_code: OpCode,
    /// AA: true if the responding server owns the queried domain.
    pub authoritative_answer: bool,
    /// TC: true if the message was truncated to fit a datagram.
    pub truncation: bool,
    /// RD: true if the sender asks the server to resolve recursively.
    pub recursion_desired: bool,
    /// RA: true if the server offers recursion.
    pub recursion_available: bool,
    /// Z: reserved, a 3-bit field.
    pub reserved: u8,
    /// RCODE: the status of a response, a 4-bit field.
    pub response_code: ResponseCode,
    /// QDCOUNT: number of entries in the question section.
    pub question_count: u16,
    /// ANCOUNT: number of records in the answer section.
    pub answer_record_count: u16,
    /// NSCOUNT: number of records in the authority section.
    pub authority_record_count: u16,
    /// ARCOUNT: number of records in the additional section.
    pub additional_record_count: u16,
}

/// The opcode a 4-bit wire value decodes to.
pub open spec fn spec_opcode_of(v: u8) -> OpCode {
    if v == 0 {
        OpCode::Query
    } else if v == 1 {
        OpCode::IQuery
    } else if v == 2 {
        OpCode::Status
    } else {
        OpCode::Invalid(v)
    }
}

/// The wire value an opcode encodes to.
pub open spec fn spec_opcode_code(op: OpCode) -> u8 {
    match op {
        OpCode::Query => 0,
        OpCode::IQuery => 1,
        OpCode::Status => 2,
        OpCode::Invalid(v) => v,
    }
}

/// An opcode as the decoder can produce it: an `Invalid` tag only carries an
/// unrecognized 4-bit value.
pub open spec fn spec_opcode_wf(op: OpCode) -> bool {
    match op {
        OpCode::Invalid(v) => 3 <= v < 16,
        _ => true,
    }
}

/// The response code a 4-bit wire value decodes to.
pub open spec fn spec_rcode_of(v: u8) -> ResponseCode {
    if v == 0 {
        ResponseCode::NoError
    } else if v == 1 {
        ResponseCode::FormatError
    } else if v == 2 {
        ResponseCode::ServerFailure
    } else if v == 3 {
        ResponseCode::NameError
    } else if v == 4 {
        ResponseCode::NotImplemented
    } else if v == 5 {
        ResponseCode::Refused
    } else {
        ResponseCode::Invalid(v)
    }
}

/// The wire value a response code encodes to.
pub open spec fn spec_rcode_code(rc: ResponseCode) -> u8 {
    match rc {
        ResponseCode::NoError => 0,
        ResponseCode::FormatError => 1,
        ResponseCode::ServerFailure => 2,
        ResponseCode::NameError => 3,
        ResponseCode::NotImplemented => 4,
        ResponseCode::Refused => 5,
        ResponseCode::Invalid(v) => v,
    }
}

/// A response code as the decoder can produce it.
pub open spec fn spec_rcode_wf(rc: ResponseCode) -> bool {
    match rc {
        ResponseCode::Invalid(v) => 6 <= v < 16,
        _ => true,
    }
}

/// 1 for true, 0 for false: a flag as its wire bit.
pub open spec fn bool_bit(b: bool) -> u8 {
    if b {
        1
    } else {
        0
    }
}

/// A header whose fields all fit their wire bit widths.
pub open spec fn spec_header_wf(h: Header) -> bool {
    &&& spec_opcode_wf(h.op_code)
    &&& spec_rcode_wf(h.response_code)
    &&& h.reserved < 8
}

/// The third wire byte: QR(1) OPCODE(4) AA(1) TC(1) RD(1).
pub open spec fn spec_flag_byte1(h: Header) -> u8 {
    (bool_bit(h.is_response) << 7) | (spec_opcode_code(h.op_code) << 3)
        | (bool_bit(h.authoritative_answer) << 2) | (bool_bit(h.truncation) << 1)
        | bool_bit(h.recursion_desired)
}

/// The fourth wire byte: RA(1) Z(3) RCODE(4).
pub open spec fn spec_flag_byte2(h: Header) -> u8 {
    (bool_bit(h.recursion_available) << 7) | (h.reserved << 4)
        | spec_rcode_code(h.response_code)
}

/// The 12 bytes a header encodes to.
pub open spec fn spec_header_bytes(h: Header) -> Seq<u8> {
    be16(h.packet_id) + seq![spec_flag_byte1(h), spec_flag_byte2(h)]
        + be16(h.question_count) + be16(h.answer_record_count)
        + be16(h.authority_record_count) + be16(h.additional_record_count)
}

/// What decoding a header from the start of `buf` yields: the twelve bytes
/// unpacked field by field, or `Truncated` when fewer than 12 are there.
pub open spec fn spec_parse_header(buf: Seq<u8>) -> Result<Header, DnsError> {
    if buf.len() < 12 {
        Err(DnsError::Truncated)
    } else {
        Ok(
            Header {
                packet_id: combine16(buf[0], buf[1]),
                is_response: ((buf[2] >> 7) & 1) == 1,
                op_code: spec_opcode_of((buf[2] >> 3) & 0xf),
                authoritative_answer: ((buf[2] >> 2) & 1) == 1,
                truncation: ((buf[2] >> 1) & 1) == 1,
                recursion_desired: (buf[2] & 1) == 1,
                recursion_available: ((buf[3] >> 7) & 1) == 1,
                reserved: (buf[3] >> 4) & 7,
                response_code: spec_rcode_of(buf[3] & 0xf),
                question_count: combine16(buf[4], buf[5]),
                answer_record_count: combine16(buf[6], buf[7]),
                authority_record_count: combine16(buf[8], buf[9]),
                additional_record_count: combine16(buf[10], buf[11]),
            },
        )
    }
}

impl OpCode {
    /// Decodes a 4-bit opcode value; unknown values become `Invalid`.
    pub fn parse(value: u8) -> (r: OpCode)
        ensures
            r == spec_opcode_of(value),
    {
        match value {
            0 => OpCode::Query,
            1 => OpCode::IQuery,
            2 => OpCode::Status,
            _ => OpCode::Invalid(value),
        }
    }

    /// The wire value this opcode encodes to.
    pub fn code(&self) -> (r: u8)
        ensures
            r == spec_opcode_code(*self),
    {
        match self {
            OpCode::Query => 0,
            OpCode::IQuery => 1,
            OpCode::Status => 2,
            OpCode::Invalid(v) => *v,
        }
    }
}

impl ResponseCode {
    /// Decodes a 4-bit response-code value; unknown values become `Invalid`.
    pub fn parse(value: u8) -> (r: ResponseCode)
        ensures
            r == spec_rcode_of(value),
    {
        match value {
            0 => ResponseCode::NoError,
            1 => ResponseCode::FormatError,
            2 => ResponseCode::ServerFailure,
            3 => ResponseCode::NameError,
            4 => ResponseCode::NotImplemented,
            5 => ResponseCode::Refused,
            _ => ResponseCode::Invalid(value),
        }
    }

    /// The wire value this response code encodes to.
    pub fn code(&self) -> (r: u8)
        ensures
            r == spec_rcode_code(*self),
    {
        match self {
            ResponseCode::NoError => 0,
            ResponseCode::FormatError => 1,
            ResponseCode::ServerFailure => 2,
            ResponseCode::NameError => 3,
            ResponseCode::NotImplemented => 4,
            ResponseCode::Refused => 5,
            ResponseCode::Invalid(v) => *v,
        }
    }
}

/// Relies on `rand::thread_rng` and `rand::Rng::gen`: a fresh pseudo-random
/// 16-bit identifier. Nothing is promised of the value.
#[verifier::external_body]
fn random_u16() -> u16 {
    rand::thread_rng().gen::<u16>()
}

impl Header {
    /// A header for a fresh outbound query: a random packet id, every flag
    /// clear, and all counts zero except the question count.
    pub fn new_query(question_count: u16) -> (r: Header)
        ensures
            !r.is_response,
            r.op_code == OpCode::Query,
            !r.authoritative_answer,
            !r.truncation,
            !r.recursion_desired,
            !r.recursion_available,
            r.reserved == 0,
            r.response_code == ResponseCode::NoError,
            r.question_count == question_count,
            r.answer_record_count == 0,
            r.authority_record_count == 0,
            r.additional_record_count == 0,
            spec_header_wf(r),
    {
        Header {
            packet_id: random_u16(),
            is_response: false,
            op_code: OpCode::Query,
            authoritative_answer: false,
            truncation: false,
            recursion_desired: false,
            recursion_available: false,
            reserved: 0,
            response_code: ResponseCode::NoError,
            question_count,
            answer_record_count: 0,
            authority_record_count: 0,
            additional_record_count: 0,
        }
    }

    /// Decodes the first 12 bytes of `buf`; rejects a shorter buffer.
    pub fn parse(buf: &[u8]) -> (r: Result<Header, DnsError>)
        ensures
            r == spec_parse_header(buf@),
    {
        if buf.len() < 12 {
            return Err(DnsError::Truncated);
        }
        let packet_id = read_u16_at(buf, 0);
        let byte2 = buf[2];
        let byte3 = buf[3];
        Ok(
            Header {
                packet_id,
                is_response: ((byte2 >> 7) & 1) == 1,
                op_code: OpCode::parse((byte2 >> 3) & 0xf),
                authoritative_answer: ((byte2 >> 2) & 1) == 1,
                truncation: ((byte2 >> 1) & 1) == 1,
                recursion_desired: (byte2 & 1) == 1,
                recursion_available: ((byte3 >> 7) & 1) == 1,
                reserved: (byte3 >> 4) & 7,
                response_code: ResponseCode::parse(byte3 & 0xf),
                question_count: read_u16_at(buf, 4),
                answer_record_count: read_u16_at(buf, 6),
                authority_record_count: read_u16_at(buf, 8),
                additional_record_count: read_u16_at(buf, 10),
            },
        )
    }

    /// Appends the 12 header bytes to `buf`.
    pub fn write(&self, buf: &mut bytes::BytesMut)
        requires
            spec_header_wf(*self),
            buf_contents(*old(buf)).len() + 12 <= isize::MAX,
        ensures
            buf_contents(*final(buf)) == buf_contents(*old(buf)) + spec_header_bytes(*self),
    {
        let ghost c0 = buf_contents(*buf);
        buf_put_u16(buf, self.packet_id);

        let qr: u8 = if self.is_response { 1 } else { 0 };
        let aa: u8 = if self.authoritative_answer { 1 } else { 0 };
        let tc: u8 = if self.truncation { 1 } else { 0 };
        let rd: u8 = if self.recursion_desired { 1 } else { 0 };
        let byte2: u8 = (qr << 7) | (self.op_code.code() << 3) | (aa << 2) | (tc << 1) | rd;
        buf_put_u8(buf, byte2);

        let ra: u8 = if self.recursion_available { 1 } else { 0 };
        let byte3: u8 = (ra << 7) | (self.reserved << 4) | self.response_code.code();
        buf_put_u8(buf, byte3);

        buf_put_u16(buf, self.question_count);
        buf_put_u16(buf, self.answer_record_count);
        buf_put_u16(buf, self.authority_record_count);
        buf_put_u16(buf, self.additional_record_count);

        assert(buf_contents(*buf) =~= c0 + spec_header_bytes(*self));
    }
}

/// Any header the decoder yields has every field inside its wire bit width.
pub proof fn lemma_parse_header_wf(buf: Seq<u8>)
    ensures
        spec_parse_header(buf) matches Ok(h) ==> spec_header_wf(h),
{
    if buf.len() >= 12 {
        let b2 = buf[2];
        let b3 = buf[3];
        assert(((b2 >> 3) & 0xf) < 16) by (bit_vector);
        assert((b3 & 0xf) < 16) by (bit_vector);
        assert(((b3 >> 4) & 7) < 8) by (bit_vector);
    }
}

/// Round trip: decoding the 12 bytes a well-formed header encodes to yields
/// that header back, field for field. In particular
/// `encode(decode(encode(h))) == encode(h)` for every such header.
pub proof fn lemma_header_roundtrip(h: Header)
    requires
        spec_header_wf(h),
    ensures
        spec_parse_header(spec_header_bytes(h)) == Ok::<Header, DnsError>(h),
{
    let bs = spec_header_bytes(h);
    assert(bs =~= seq![
        (h.packet_id >> 8) as u8,
        (h.packet_id & 0xff) as u8,
        spec_flag_byte1(h),
        spec_flag_byte2(h),
        (h.question_count >> 8) as u8,
        (h.question_count & 0xff) as u8,
        (h.answer_record_count >> 8) as u8,
        (h.answer_record_count & 0xff) as u8,
        (h.authority_record_count >> 8) as u8,
        (h.authority_record_count & 0xff) as u8,
        (h.additional_record_count >> 8) as u8,
        (h.additional_record_count & 0xff) as u8,
    ]);
    crate::wire::lemma_be16_roundtrip(h.packet_id);
    crate::wire::lemma_be16_roundtrip(h.question_count);
    crate::wire::lemma_be16_roundtrip(h.answer_record_count);
    crate::wire::lemma_be16_roundtrip(h.authority_record_count);
    crate::wire::lemma_be16_roundtrip(h.additional_record_count);

    let qr = bool_bit(h.is_response);
    let op = spec_opcode_code(h.op_code);
    let aa = bool_bit(h.authoritative_answer);
    let tc = bool_bit(h.truncation);
    let rd = bool_bit(h.recursion_desired);
    let b2 = spec_flag_byte1(h);
    assert(op < 16);
    assert(b2 == (qr << 7) | (op << 3) | (aa << 2) | (tc << 1) | rd);
    assert(((b2 >> 7) & 1) == qr && ((b2 >> 3) & 0xf) == op && ((b2 >> 2) & 1) == aa
        && ((b2 >> 1) & 1) == tc && (b2 & 1) == rd) by (bit_vector)
        requires
            qr <= 1,
            op < 16,
            aa <= 1,
            tc <= 1,
            rd <= 1,
            b2 == (qr << 7) | (op << 3) | (aa << 2) | (tc << 1) | rd,
    ;

    let ra = bool_bit(h.recursion_available);
    let z = h.reserved;
    let rc = spec_rcode_code(h.response_code);
    let b3 = spec_flag_byte2(h);
    assert(rc < 16);
    assert(((b3 >> 7) & 1) == ra && ((b3 >> 4) & 7) == z && (b3 & 0xf) == rc) by (bit_vector)
        requires
            ra <= 1,
            z < 8,
            rc < 16,
            b3 == (ra << 7) | (z << 4) | rc,
    ;
}

} // verus!
