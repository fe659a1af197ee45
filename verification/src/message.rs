//! The message container: a header and four record sections, with the
//! parse/serialize ordering and the pointer-offset lookup that compression
//! resolution needs.

use vstd::prelude::*;

use crate::errors::DnsError;
use crate::header::{
    spec_header_bytes, spec_header_wf, spec_opcode_wf, spec_parse_header, Header, OpCode,
    ResponseCode,
};
use crate::name::{lemma_labels_cost_nonneg, name_encoded_len};
use crate::outbuf::buf_contents;
use crate::question::{
    question_len, question_wire, question_write_err, spec_parse_question,
    spec_question_get_labels, Question, QuestionV,
};
use crate::record::{record_wire, record_write_err, RecordV, ResourceRecord};
use crate::wire::{lemma_flatten_prefix_len, lemma_flatten_take_step};

verus! {

/// A whole message: header, questions, and the three record sections.
#[derive(Debug, PartialEq)]
pub struct Message {
    /// The 12-byte header; its counts drive parsing and mirror the sections.
    pub header: Header,
    /// The question section.
    pub questions: Vec<Question>,
    /// The answer section.
    pub answers: Vec<ResourceRecord>,
    /// The authority section.
    pub authorities: Vec<ResourceRecord>,
    /// The additional section.
    pub additionals: Vec<ResourceRecord>,
}

/// The views of a run of questions.
pub open spec fn questions_view(qs: Seq<Question>) -> Seq<QuestionV> {
    Seq::new(qs.len(), |i: int| qs[i]@)
}

/// The views of a run of records.
pub open spec fn records_view(rs: Seq<ResourceRecord>) -> Seq<RecordV> {
    Seq::new(rs.len(), |i: int| rs[i]@)
}

/// The wire bytes of each question in turn.
pub open spec fn questions_wires(qs: Seq<QuestionV>) -> Seq<Seq<u8>> {
    Seq::new(qs.len(), |i: int| question_wire(qs[i]))
}

/// The wire bytes of each record in turn.
pub open spec fn records_wires(rs: Seq<RecordV>) -> Seq<Seq<u8>> {
    Seq::new(rs.len(), |i: int| record_wire(rs[i]))
}

/// The wire bytes of a whole message: header, then the questions, answers,
/// authorities and additionals in order.
pub open spec fn message_wire(m: Message) -> Seq<u8> {
    spec_header_bytes(m.header) + questions_wires(questions_view(m.questions@)).flatten()
        + records_wires(records_view(m.answers@)).flatten()
        + records_wires(records_view(m.authorities@)).flatten()
        + records_wires(records_view(m.additionals@)).flatten()
}

/// The first reason any question refuses to encode.
pub open spec fn questions_write_err(qs: Seq<QuestionV>) -> Option<DnsError>
    decreases qs.len(),
{
    if qs.len() == 0 {
        None
    } else {
        match question_write_err(qs[0]) {
            Some(e) => Some(e),
            None => questions_write_err(qs.drop_first()),
        }
    }
}

/// The first reason any record refuses to encode.
pub open spec fn records_write_err(rs: Seq<RecordV>) -> Option<DnsError>
    decreases rs.len(),
{
    if rs.len() == 0 {
        None
    } else {
        match record_write_err(rs[0]) {
            Some(e) => Some(e),
            None => records_write_err(rs.drop_first()),
        }
    }
}

/// The first reason any element of the message refuses to encode, scanning
/// the sections in serialization order.
pub open spec fn message_write_err(m: Message) -> Option<DnsError> {
    match questions_write_err(questions_view(m.questions@)) {
        Some(e) => Some(e),
        None => match records_write_err(records_view(m.answers@)) {
            Some(e) => Some(e),
            None => match records_write_err(records_view(m.authorities@)) {
                Some(e) => Some(e),
                None => records_write_err(records_view(m.additionals@)),
            },
        },
    }
}

/// What decoding `n` questions in a row from `pos` yields.
pub open spec fn spec_parse_questions(buf: Seq<u8>, pos: int, n: int) -> Result<
    (Seq<QuestionV>, int),
    DnsError,
>
    decreases n,
{
    if n <= 0 {
        Ok((seq![], pos))
    } else {
        match spec_parse_question(buf, pos) {
            Err(e) => Err(e),
            Ok((q, p2)) => match spec_parse_questions(buf, p2, n - 1) {
                Ok((qs, end)) => Ok((seq![q] + qs, end)),
                Err(e) => Err(e),
            },
        }
    }
}

/// What decoding a whole message yields: the header, then exactly
/// `question_count` questions; a nonzero record count is refused, because
/// record decoding is a deliberate stub.
pub open spec fn spec_parse_message(buf: Seq<u8>) -> Result<(Header, Seq<QuestionV>), DnsError> {
    match spec_parse_header(buf) {
        Err(e) => Err(e),
        Ok(h) => match spec_parse_questions(buf, 12, h.question_count as int) {
            Err(e) => Err(e),
            Ok((qs, _end)) => if h.answer_record_count != 0 || h.authority_record_count != 0
                || h.additional_record_count != 0 {
                Err(DnsError::Unsupported)
            } else {
                Ok((h, qs))
            },
        },
    }
}

/// The summed on-wire length of a run of questions.
pub open spec fn questions_total_len(qs: Seq<QuestionV>) -> int
    decreases qs.len(),
{
    if qs.len() == 0 {
        0
    } else {
        questions_total_len(qs.drop_last()) + question_len(qs.last())
    }
}

/// Questions whose pointer-offset bookkeeping cannot overflow: every name is
/// nonempty, and the whole section fits in 16 bits together with the header.
pub open spec fn questions_sane(qs: Seq<QuestionV>) -> bool {
    &&& forall|i: int| 0 <= i < qs.len() ==> (#[trigger] qs[i]).name.len() >= 1
    &&& 12 + questions_total_len(qs) <= u16::MAX
}

/// The literal labels at a section-relative offset within the questions:
/// the offset is walked across the questions' spans, and the owning question
/// answers for it.
pub open spec fn spec_get_labels_in_questions(qs: Seq<QuestionV>, off: int) -> Result<
    Seq<Seq<u8>>,
    DnsError,
>
    decreases qs.len(),
{
    if qs.len() == 0 {
        Err(DnsError::InvalidOffset)
    } else if off < question_len(qs[0]) {
        spec_question_get_labels(qs[0], off)
    } else {
        spec_get_labels_in_questions(qs.drop_first(), off - question_len(qs[0]))
    }
}

/// The literal labels at a message-absolute offset: offsets inside the
/// 12-byte header are refused, the rest is looked up in the questions.
pub open spec fn spec_message_get_labels(m: Message, off: u16) -> Result<Seq<Seq<u8>>, DnsError> {
    if off < 12 {
        Err(DnsError::InvalidOffset)
    } else {
        spec_get_labels_in_questions(questions_view(m.questions@), off - 12)
    }
}

/// One question's length is never negative.
pub proof fn lemma_question_len_nonneg(q: QuestionV)
    ensures
        question_len(q) >= 0,
{
    lemma_labels_cost_nonneg(q.name);
}

/// Appending one question adds its length.
pub proof fn lemma_questions_total_take_step(qs: Seq<QuestionV>, i: int)
    requires
        0 <= i < qs.len(),
    ensures
        questions_total_len(qs.take(i + 1)) == questions_total_len(qs.take(i)) + question_len(
            qs[i],
        ),
{
    assert(qs.take(i + 1).drop_last() =~= qs.take(i));
    assert(qs.take(i + 1).last() == qs[i]);
}

/// A prefix of the section is never longer than the whole section.
pub proof fn lemma_questions_total_prefix_le(qs: Seq<QuestionV>, i: int)
    requires
        0 <= i <= qs.len(),
    ensures
        questions_total_len(qs.take(i)) <= questions_total_len(qs),
    decreases qs.len() - i,
{
    if i == qs.len() {
        assert(qs.take(i) =~= qs);
    } else {
        lemma_questions_total_take_step(qs, i);
        lemma_question_len_nonneg(qs[i]);
        lemma_questions_total_prefix_le(qs, i + 1);
    }
}

/// No prefix of the section has negative length.
pub proof fn lemma_questions_total_nonneg(qs: Seq<QuestionV>)
    ensures
        questions_total_len(qs) >= 0,
    decreases qs.len(),
{
    if qs.len() > 0 {
        lemma_questions_total_nonneg(qs.drop_last());
        lemma_question_len_nonneg(qs.last());
    }
}

/// When no question refuses to encode, none of them does.
pub proof fn lemma_questions_write_ok(qs: Seq<QuestionV>)
    requires
        questions_write_err(qs) is None,
    ensures
        forall|i: int| 0 <= i < qs.len() ==> question_write_err(#[trigger] qs[i]) is None,
    decreases qs.len(),
{
    if qs.len() > 0 {
        lemma_questions_write_ok(qs.drop_first());
        assert forall|i: int|
            0 <= i < qs.len() implies question_write_err(#[trigger] qs[i]) is None by {
            if i > 0 {
                assert(qs[i] == qs.drop_first()[i - 1]);
            }
        }
    }
}

/// When no record refuses to encode, none of them does.
pub proof fn lemma_records_write_ok(rs: Seq<RecordV>)
    requires
        records_write_err(rs) is None,
    ensures
        forall|i: int| 0 <= i < rs.len() ==> record_write_err(#[trigger] rs[i]) is None,
    decreases rs.len(),
{
    if rs.len() > 0 {
        lemma_records_write_ok(rs.drop_first());
        assert forall|i: int|
            0 <= i < rs.len() implies record_write_err(#[trigger] rs[i]) is None by {
            if i > 0 {
                assert(rs[i] == rs.drop_first()[i - 1]);
            }
        }
    }
}

/// The first reason any record of `rs` refuses to encode, found by scanning.
fn records_check(rs: &Vec<ResourceRecord>) -> (r: Option<DnsError>)
    ensures
        r == records_write_err(records_view(rs@)),
{
    let ghost rsv = records_view(rs@);
    proof {
        assert(rsv.skip(0) =~= rsv);
    }
    let mut i: usize = 0;
    while i < rs.len()
        invariant
            i <= rs@.len(),
            rsv == records_view(rs@),
            records_write_err(rsv) == records_write_err(rsv.skip(i as int)),
        decreases rs@.len() - i,
    {
        proof {
            assert(rsv.skip(i as int)[0] == rsv[i as int]);
            assert(rsv.skip(i as int).drop_first() =~= rsv.skip(i + 1));
        }
        match rs[i].name.write_check() {
            Some(e) => {
                return Some(e);
            },
            None => {},
        }
        i = i + 1;
    }
    proof {
        assert(rsv.skip(rsv.len() as int) =~= Seq::<RecordV>::empty());
    }
    None
}

/// Writes the whole question section, each question already known to encode.
fn write_questions(qs: &Vec<Question>, buf: &mut bytes::BytesMut)
    requires
        questions_write_err(questions_view(qs@)) is None,
        buf_contents(*old(buf)).len() + questions_wires(questions_view(qs@)).flatten().len()
            <= isize::MAX,
    ensures
        buf_contents(*final(buf)) == buf_contents(*old(buf)) + questions_wires(
            questions_view(qs@),
        ).flatten(),
{
    let ghost c0 = buf_contents(*buf);
    let ghost qsv = questions_view(qs@);
    let ghost ws = questions_wires(qsv);
    proof {
        lemma_questions_write_ok(qsv);
        assert(ws.take(0).flatten() =~= Seq::<u8>::empty());
        assert(c0 + Seq::<u8>::empty() =~= c0);
    }
    let mut i: usize = 0;
    while i < qs.len()
        invariant
            i <= qs@.len(),
            qsv == questions_view(qs@),
            ws == questions_wires(qsv),
            forall|j: int| 0 <= j < qsv.len() ==> question_write_err(#[trigger] qsv[j]) is None,
            buf_contents(*buf) == c0 + ws.take(i as int).flatten(),
            c0.len() + ws.flatten().len() <= isize::MAX,
        decreases qs@.len() - i,
    {
        proof {
            lemma_flatten_take_step(ws, i as int);
            lemma_flatten_prefix_len(ws, i + 1);
        }
        let _ = qs[i].write(buf);
        proof {
            assert(buf_contents(*buf) =~= c0 + ws.take(i + 1).flatten());
        }
        i = i + 1;
    }
    proof {
        assert(ws.take(ws.len() as int) =~= ws);
    }
}

/// Writes a whole record section, each record already known to encode.
fn write_records(rs: &Vec<ResourceRecord>, buf: &mut bytes::BytesMut)
    requires
        records_write_err(records_view(rs@)) is None,
        buf_contents(*old(buf)).len() + records_wires(records_view(rs@)).flatten().len()
            <= isize::MAX,
    ensures
        buf_contents(*final(buf)) == buf_contents(*old(buf)) + records_wires(
            records_view(rs@),
        ).flatten(),
{
    let ghost c0 = buf_contents(*buf);
    let ghost rsv = records_view(rs@);
    let ghost ws = records_wires(rsv);
    proof {
        lemma_records_write_ok(rsv);
        assert(ws.take(0).flatten() =~= Seq::<u8>::empty());
        assert(c0 + Seq::<u8>::empty() =~= c0);
    }
    let mut i: usize = 0;
    while i < rs.len()
        invariant
            i <= rs@.len(),
            rsv == records_view(rs@),
            ws == records_wires(rsv),
            forall|j: int| 0 <= j < rsv.len() ==> record_write_err(#[trigger] rsv[j]) is None,
            buf_contents(*buf) == c0 + ws.take(i as int).flatten(),
            c0.len() + ws.flatten().len() <= isize::MAX,
        decreases rs@.len() - i,
    {
        proof {
            lemma_flatten_take_step(ws, i as int);
            lemma_flatten_prefix_len(ws, i + 1);
        }
        let _ = rs[i].write(buf);
        proof {
            assert(buf_contents(*buf) =~= c0 + ws.take(i + 1).flatten());
        }
        i = i + 1;
    }
    proof {
        assert(ws.take(ws.len() as int) =~= ws);
    }
}

impl Message {
    /// A fresh outbound query wrapping the given questions; the header draws
    /// a random id and carries the question count.
    pub fn new_query(questions: Vec<Question>) -> (r: Message)
        requires
            questions@.len() <= u16::MAX,
        ensures
            !r.header.is_response,
            r.header.op_code == OpCode::Query,
            !r.header.authoritative_answer,
            !r.header.truncation,
            !r.header.recursion_desired,
            !r.header.recursion_available,
            r.header.reserved == 0,
            r.header.response_code == ResponseCode::NoError,
            r.header.question_count == questions@.len(),
            r.header.answer_record_count == 0,
            r.header.authority_record_count == 0,
            r.header.additional_record_count == 0,
            spec_header_wf(r.header),
            r.questions == questions,
            r.answers@.len() == 0,
            r.authorities@.len() == 0,
            r.additionals@.len() == 0,
    {
        let header = Header::new_query(questions.len() as u16);
        Message {
            header,
            questions,
            answers: Vec::new(),
            authorities: Vec::new(),
            additionals: Vec::new(),
        }
    }

    /// The reply to a query: the packet id and opcode are echoed, every flag
    /// and the reserved field are cleared, the response code is `NoError` for
    /// a standard query and `NotImplemented` for anything else, and the
    /// counts mirror the supplied sections.
    pub fn new_reply(
        query_message: &Message,
        questions: Vec<Question>,
        answers: Vec<ResourceRecord>,
    ) -> (r: Message)
        requires
            questions@.len() <= u16::MAX,
            answers@.len() <= u16::MAX,
        ensures
            r.header.packet_id == query_message.header.packet_id,
            r.header.is_response,
            r.header.op_code == query_message.header.op_code,
            !r.header.authoritative_answer,
            !r.header.truncation,
            !r.header.recursion_desired,
            !r.header.recursion_available,
            r.header.reserved == 0,
            r.header.response_code == (if query_message.header.op_code is Query {
                ResponseCode::NoError
            } else {
                ResponseCode::NotImplemented
            }),
            r.header.question_count == questions@.len(),
            r.header.answer_record_count == answers@.len(),
            r.header.authority_record_count == 0,
            r.header.additional_record_count == 0,
            spec_opcode_wf(query_message.header.op_code) ==> spec_header_wf(r.header),
            r.questions == questions,
            r.answers == answers,
            r.authorities@.len() == 0,
            r.additionals@.len() == 0,
    {
        let response_code = match query_message.header.op_code {
            OpCode::Query => ResponseCode::NoError,
            _ => ResponseCode::NotImplemented,
        };
        Message {
            header: Header {
                packet_id: query_message.header.packet_id,
                is_response: true,
                op_code: query_message.header.op_code,
                authoritative_answer: false,
                truncation: false,
                recursion_desired: false,
                recursion_available: false,
                reserved: 0,
                response_code,
                question_count: questions.len() as u16,
                answer_record_count: answers.len() as u16,
                authority_record_count: 0,
                additional_record_count: 0,
            },
            questions,
            answers,
            authorities: Vec::new(),
            additionals: Vec::new(),
        }
    }

    /// Decodes a whole message: the header, then exactly `question_count`
    /// questions. A nonzero record count is refused with `Unsupported`,
    /// record decoding being a deliberate stub; trailing bytes are ignored.
    pub fn parse(buf: &[u8]) -> (r: Result<Message, DnsError>)
        ensures
            match r {
                Ok(m) => spec_parse_message(buf@) == Ok::<(Header, Seq<QuestionV>), DnsError>(
                    (m.header, questions_view(m.questions@)),
                ) && m.answers@.len() == 0 && m.authorities@.len() == 0
                    && m.additionals@.len() == 0 && spec_header_wf(m.header),
                Err(e) => spec_parse_message(buf@) == Err::<(Header, Seq<QuestionV>), DnsError>(
                    e,
                ),
            },
    {
        let header = match Header::parse(buf) {
            Ok(h) => h,
            Err(e) => {
                return Err(e);
            },
        };
        proof {
            crate::header::lemma_parse_header_wf(buf@);
        }
        let n = header.question_count;
        let mut questions: Vec<Question> = Vec::new();
        let mut cur: usize = 12;
        let mut i: u16 = 0;
        proof {
            assert(questions_view(questions@) =~= Seq::<QuestionV>::empty());
        }
        while i < n
            invariant
                i <= n,
                cur <= buf@.len(),
                n == header.question_count,
                spec_parse_header(buf@) == Ok::<Header, DnsError>(header),
                spec_parse_questions(buf@, 12, n as int) == (match spec_parse_questions(
                    buf@,
                    cur as int,
                    n - i,
                ) {
                    Ok((rest, end)) => Ok::<(Seq<QuestionV>, int), DnsError>(
                        (questions_view(questions@) + rest, end),
                    ),
                    Err(e) => Err::<(Seq<QuestionV>, int), DnsError>(e),
                }),
            decreases n - i,
        {
            match Question::parse(buf, cur) {
                Err(e) => {
                    proof {
                        assert(spec_parse_questions(buf@, cur as int, n - i)
                            == Err::<(Seq<QuestionV>, int), DnsError>(e));
                        assert(spec_parse_questions(buf@, 12, n as int)
                            == Err::<(Seq<QuestionV>, int), DnsError>(e));
                    }
                    return Err(e);
                },
                Ok((q, end)) => {
                    let ghost qv_old = questions_view(questions@);
                    let ghost one = seq![q@];
                    questions.push(q);
                    proof {
                        assert(questions_view(questions@) =~= qv_old + one);
                    }
                    cur = end;
                    proof {
                        let sp = spec_parse_questions(buf@, cur as int, n - i - 1);
                        if sp is Ok {
                            let rest = sp->Ok_0.0;
                            assert(qv_old + (one + rest) =~= (qv_old + one) + rest);
                        }
                    }
                },
            }
            i = i + 1;
        }
        proof {
            assert(questions_view(questions@) + Seq::<QuestionV>::empty() =~= questions_view(
                questions@,
            ));
        }
        if header.answer_record_count > 0 || header.authority_record_count > 0
            || header.additional_record_count > 0 {
            // record decoding is a deliberate stub; a message that demands it
            // is refused loudly rather than mis-parsed
            return Err(DnsError::Unsupported);
        }
        Ok(
            Message {
                header,
                questions,
                answers: Vec::new(),
                authorities: Vec::new(),
                additionals: Vec::new(),
            },
        )
    }

    /// The first reason any element of this message refuses to encode.
    fn check_writable(&self) -> (r: Option<DnsError>)
        ensures
            r == message_write_err(*self),
    {
        let ghost qsv = questions_view(self.questions@);
        proof {
            assert(qsv.skip(0) =~= qsv);
        }
        let mut i: usize = 0;
        while i < self.questions.len()
            invariant
                i <= self.questions@.len(),
                qsv == questions_view(self.questions@),
                questions_write_err(qsv) == questions_write_err(qsv.skip(i as int)),
            decreases self.questions@.len() - i,
        {
            proof {
                assert(qsv.skip(i as int)[0] == qsv[i as int]);
                assert(qsv.skip(i as int).drop_first() =~= qsv.skip(i + 1));
            }
            match self.questions[i].name.write_check() {
                Some(e) => {
                    return Some(e);
                },
                None => {},
            }
            i = i + 1;
        }
        proof {
            assert(qsv.skip(qsv.len() as int) =~= Seq::<QuestionV>::empty());
        }
        match records_check(&self.answers) {
            Some(e) => {
                return Some(e);
            },
            None => {},
        }
        match records_check(&self.authorities) {
            Some(e) => {
                return Some(e);
            },
            None => {},
        }
        records_check(&self.additionals)
    }

    /// Encodes this message: header, then every section in order. When any
    /// element refuses, its error is returned and the buffer is untouched.
    #[verifier::rlimit(50)]
    pub fn write(&self, buf: &mut bytes::BytesMut) -> (r: Result<(), DnsError>)
        requires
            spec_header_wf(self.header),
            buf_contents(*old(buf)).len() + message_wire(*self).len() <= isize::MAX,
        ensures
            match r {
                Ok(()) => message_write_err(*self) is None && buf_contents(*final(buf))
                    == buf_contents(*old(buf)) + message_wire(*self),
                Err(e) => message_write_err(*self) == Some(e) && buf_contents(*final(buf))
                    == buf_contents(*old(buf)),
            },
    {
        let ghost c0 = buf_contents(*buf);
        match self.check_writable() {
            Some(e) => {
                return Err(e);
            },
            None => {},
        }
        self.header.write(buf);
        write_questions(&self.questions, buf);
        let ghost c2 = buf_contents(*buf);
        write_records(&self.answers, buf);
        let ghost c3 = buf_contents(*buf);
        write_records(&self.authorities, buf);
        let ghost c4 = buf_contents(*buf);
        write_records(&self.additionals, buf);
        proof {
            let aw = records_wires(records_view(self.answers@)).flatten();
            let uw = records_wires(records_view(self.authorities@)).flatten();
            let dw = records_wires(records_view(self.additionals@)).flatten();
            assert(c3 == c2 + aw);
            assert(c4 == c3 + uw);
            assert(buf_contents(*buf) == c4 + dw);
            assert(buf_contents(*buf) =~= c0 + message_wire(*self));
        }
        Ok(())
    }

    /// The literal labels at a message-absolute byte offset: the offset is
    /// walked across the questions' spans and resolved inside the question it
    /// falls in; offsets in the header or past the questions are refused.
    pub fn get_labels(&self, offset: u16) -> (r: Result<Vec<Vec<u8>>, DnsError>)
        requires
            questions_sane(questions_view(self.questions@)),
        ensures
            match r {
                Ok(v) => spec_message_get_labels(*self, offset) == Ok::<Seq<Seq<u8>>, DnsError>(
                    v.deep_view(),
                ),
                Err(e) => spec_message_get_labels(*self, offset) == Err::<
                    Seq<Seq<u8>>,
                    DnsError,
                >(e),
            },
    {
        if offset < 12 {
            return Err(DnsError::InvalidOffset);
        }
        let ghost qsv = questions_view(self.questions@);
        proof {
            assert(qsv.skip(0) =~= qsv);
        }
        let mut msg_offset: u16 = 12;
        let mut i: usize = 0;
        while i < self.questions.len()
            invariant
                i <= self.questions@.len(),
                qsv == questions_view(self.questions@),
                questions_sane(qsv),
                12 <= msg_offset <= offset,
                msg_offset == 12 + questions_total_len(qsv.take(i as int)),
                spec_get_labels_in_questions(qsv, offset - 12) == spec_get_labels_in_questions(
                    qsv.skip(i as int),
                    offset - msg_offset,
                ),
            decreases self.questions@.len() - i,
        {
            proof {
                lemma_questions_total_take_step(qsv, i as int);
                lemma_questions_total_prefix_le(qsv, i + 1);
                lemma_questions_total_nonneg(qsv.take(i as int));
                assert(qsv.skip(i as int)[0] == qsv[i as int]);
                assert(qsv.skip(i as int).drop_first() =~= qsv.skip(i + 1));
            }
            let q = &self.questions[i];
            let qlen = q.length();
            if offset < msg_offset + qlen {
                return q.get_labels(offset - msg_offset);
            }
            msg_offset = msg_offset + qlen;
            i = i + 1;
        }
        proof {
            assert(qsv.skip(qsv.len() as int) =~= Seq::<QuestionV>::empty());
        }
        Err(DnsError::InvalidOffset)
    }
}

/// Encoding is a pure function of the in-memory message: two encodings of the
/// same message, whatever buffers they append to, add byte-identical output.
/// In particular no fresh identifier is drawn on re-encode.
pub proof fn lemma_encode_idempotent(m: Message, c1: Seq<u8>, c2: Seq<u8>, out1: Seq<u8>, out2: Seq<u8>)
    requires
        out1 == c1 + message_wire(m),
        out2 == c2 + message_wire(m),
    ensures
        out1.skip(c1.len() as int) == out2.skip(c2.len() as int),
{
    assert(out1.skip(c1.len() as int) =~= message_wire(m));
    assert(out2.skip(c2.len() as int) =~= message_wire(m));
}

} // verus!
