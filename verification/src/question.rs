//! Questions: a domain name asked about, with a record type and a class.

use vstd::prelude::*;

use crate::errors::DnsError;
use crate::name::{
    name_encoded_len, name_wire, name_write_err, spec_get_label, spec_get_labels,
    spec_parse_name, DomainName, LabelV,
};
use crate::outbuf::{buf_contents, buf_put_u16};
use crate::wire::{be16, combine16, read_u16_at};

verus! {

/// TYPE: what kind of record a question asks for or a record carries. An
/// unrecognized wire value is kept in `Invalid` so re-encoding reproduces it.
#[derive(Debug, Clone, Copy, PartialEq, Eq, Structural)]
pub enum RecordType {
    /// A: a host address.
    Address,
    /// NS: an authoritative name server.
    NameServer,
    /// MD: a mail destination (obsolete).
    MailDestination,
    /// MF: a mail forwarder (obsolete).
    MailForwarder,
    /// CNAME: the canonical name for an alias.
    CName,
    /// SOA: the start of a zone of authority.
    StartOfAuthority,
    /// MB: a mailbox domain name (experimental).
    Mailbox,
    /// MG: a mail group member (experimental).
    MailGroup,
    /// MR: a mail rename domain name (experimental).
    MailRename,
    /// NULL: a null record (experimental).
    Null,
    /// WKS: a well known service description.
    WellKnownService,
    /// PTR: a domain name pointer.
    Pointer,
    /// HINFO: host information.
    HostInfo,
    /// MINFO: mailbox or mail list information.
    MailboxInfo,
    /// MX: a mail exchange.
    MailExchange,
    /// TXT: text strings.
    Text,
    /// Any other 16-bit wire value, kept as read.
    Invalid(u16),
}

/// CLASS: the protocol family a record belongs to. An unrecognized wire value
/// is kept in `Invalid` so re-encoding reproduces it.
#[derive(Debug, Clone, Copy, PartialEq, Eq, Structural)]
pub enum Class {
    /// IN: the internet.
    Internet,
    /// CS: the CSNET class (obsolete).
    CSNet,
    /// CH: the CHAOS class.
    Chaos,
    /// HS: Hesiod.
    Hesiod,
    /// Any other 16-bit wire value, kept as read.
    Invalid(u16),
}

/// The record type a 16-bit wire value decodes to.
pub open spec fn spec_rt_of(v: u16) -> RecordType {
    if v == 1 {
        RecordType::Address
    } else if v == 2 {
        RecordType::NameServer
    } else if v == 3 {
        RecordType::MailDestination
    } else if v == 4 {
        RecordType::MailForwarder
    } else if v == 5 {
        RecordType::CName
    } else if v == 6 {
        RecordType::StartOfAuthority
    } else if v == 7 {
        RecordType::Mailbox
    } else if v == 8 {
        RecordType::MailGroup
    } else if v == 9 {
        RecordType::MailRename
    } else if v == 10 {
        RecordType::Null
    } else if v == 11 {
        RecordType::WellKnownService
    } else if v == 12 {
        RecordType::Pointer
    } else if v == 13 {
        RecordType::HostInfo
    } else if v == 14 {
        RecordType::MailboxInfo
    } else if v == 15 {
        RecordType::MailExchange
    } else if v == 16 {
        RecordType::Text
    } else {
        RecordType::Invalid(v)
    }
}

/// The wire value a record type encodes to.
pub open spec fn spec_rt_code(rt: RecordType) -> u16 {
    match rt {
        RecordType::Address => 1,
        RecordType::NameServer => 2,
        RecordType::MailDestination => 3,
        RecordType::MailForwarder => 4,
        RecordType::CName => 5,
        RecordType::StartOfAuthority => 6,
        RecordType::Mailbox => 7,
        RecordType::MailGroup => 8,
        RecordType::MailRename => 9,
        RecordType::Null => 10,
        RecordType::WellKnownService => 11,
        RecordType::Pointer => 12,
        RecordType::HostInfo => 13,
        RecordType::MailboxInfo => 14,
        RecordType::MailExchange => 15,
        RecordType::Text => 16,
        RecordType::Invalid(v) => v,
    }
}

/// The class a 16-bit wire value decodes to.
pub open spec fn spec_class_of(v: u16) -> Class {
    if v == 1 {
        Class::Internet
    } else if v == 2 {
        Class::CSNet
    } else if v == 3 {
        Class::Chaos
    } else if v == 4 {
        Class::Hesiod
    } else {
        Class::Invalid(v)
    }
}

/// The wire value a class encodes to.
pub open spec fn spec_class_code(c: Class) -> u16 {
    match c {
        Class::Internet => 1,
        Class::CSNet => 2,
        Class::Chaos => 3,
        Class::Hesiod => 4,
        Class::Invalid(v) => v,
    }
}

impl RecordType {
    /// Decodes a 16-bit record-type value; unknown values become `Invalid`.
    pub fn parse(value: u16) -> (r: RecordType)
        ensures
            r == spec_rt_of(value),
    {
        match value {
            1 => RecordType::Address,
            2 => RecordType::NameServer,
            3 => RecordType::MailDestination,
            4 => RecordType::MailForwarder,
            5 => RecordType::CName,
            6 => RecordType::StartOfAuthority,
            7 => RecordType::Mailbox,
            8 => RecordType::MailGroup,
            9 => RecordType::MailRename,
            10 => RecordType::Null,
            11 => RecordType::WellKnownService,
            12 => RecordType::Pointer,
            13 => RecordType::HostInfo,
            14 => RecordType::MailboxInfo,
            15 => RecordType::MailExchange,
            16 => RecordType::Text,
            _ => RecordType::Invalid(value),
        }
    }

    /// The wire value this record type encodes to.
    pub fn code(&self) -> (r: u16)
        ensures
            r == spec_rt_code(*self),
    {
        match self {
            RecordType::Address => 1,
            RecordType::NameServer => 2,
            RecordType::MailDestination => 3,
            RecordType::MailForwarder => 4,
            RecordType::CName => 5,
            RecordType::StartOfAuthority => 6,
            RecordType::Mailbox => 7,
            RecordType::MailGroup => 8,
            RecordType::MailRename => 9,
            RecordType::Null => 10,
            RecordType::WellKnownService => 11,
            RecordType::Pointer => 12,
            RecordType::HostInfo => 13,
            RecordType::MailboxInfo => 14,
            RecordType::MailExchange => 15,
            RecordType::Text => 16,
            RecordType::Invalid(v) => *v,
        }
    }
}

impl Class {
    /// Decodes a 16-bit class value; unknown values become `Invalid`.
    pub fn parse(value: u16) -> (r: Class)
        ensures
            r == spec_class_of(value),
    {
        match value {
            1 => Class::Internet,
            2 => Class::CSNet,
            3 => Class::Chaos,
            4 => Class::Hesiod,
            _ => Class::Invalid(value),
        }
    }

    /// The wire value this class encodes to.
    pub fn code(&self) -> (r: u16)
        ensures
            r == spec_class_code(*self),
    {
        match self {
            Class::Internet => 1,
            Class::CSNet => 2,
            Class::Chaos => 3,
            Class::Hesiod => 4,
            Class::Invalid(v) => *v,
        }
    }
}

/// One entry of the question section.
#[derive(Debug, Clone, PartialEq)]
pub struct Question {
    /// The domain name asked about.
    pub name: DomainName,
    /// The type of record asked for.
    pub ty: RecordType,
    /// The class, usually `Internet`.
    pub class: Class,
}

/// The mathematical shape of a `Question`.
pub ghost struct QuestionV {
    pub name: Seq<LabelV>,
    pub ty: RecordType,
    pub class: Class,
}

impl View for Question {
    type V = QuestionV;

    open spec fn view(&self) -> QuestionV {
        QuestionV { name: self.name@, ty: self.ty, class: self.class }
    }
}

/// The on-wire length of a question: its name plus two 16-bit fields.
pub open spec fn question_len(q: QuestionV) -> int {
    name_encoded_len(q.name) + 4
}

/// The wire bytes of a question.
pub open spec fn question_wire(q: QuestionV) -> Seq<u8> {
    name_wire(q.name) + be16(spec_rt_code(q.ty)) + be16(spec_class_code(q.class))
}

/// Whether a question can be encoded; only its name can refuse.
pub open spec fn question_write_err(q: QuestionV) -> Option<DnsError> {
    name_write_err(q.name)
}

/// What decoding a question at `pos` yields: a name, then type and class.
pub open spec fn spec_parse_question(buf: Seq<u8>, pos: int) -> Result<(QuestionV, int), DnsError> {
    match spec_parse_name(buf, pos) {
        Err(e) => Err(e),
        Ok((ls, p)) => if p + 4 > buf.len() {
            Err(DnsError::Truncated)
        } else {
            Ok(
                (
                    QuestionV {
                        name: ls,
                        ty: spec_rt_of(combine16(buf[p], buf[p + 1])),
                        class: spec_class_of(combine16(buf[p + 2], buf[p + 3])),
                    },
                    p + 4,
                ),
            )
        },
    }
}

/// The literal label starting `off` bytes into the question's encoding; the
/// four trailing type/class bytes hold no label.
pub open spec fn spec_question_get_label(q: QuestionV, off: int) -> Result<Seq<u8>, DnsError> {
    if off >= name_encoded_len(q.name) {
        Err(DnsError::InvalidOffset)
    } else {
        spec_get_label(q.name, off)
    }
}

/// The literal labels from `off` to the end of the question's name.
pub open spec fn spec_question_get_labels(q: QuestionV, off: int) -> Result<
    Seq<Seq<u8>>,
    DnsError,
> {
    if off >= name_encoded_len(q.name) {
        Err(DnsError::InvalidOffset)
    } else {
        spec_get_labels(q.name, off)
    }
}

impl Question {
    /// Decodes a question at `pos`: a name, a 16-bit type, a 16-bit class.
    pub fn parse(buf: &[u8], pos: usize) -> (r: Result<(Question, usize), DnsError>)
        ensures
            match r {
                Ok((q, end)) => spec_parse_question(buf@, pos as int)
                    == Ok::<(QuestionV, int), DnsError>((q@, end as int))
                    && pos <= end <= buf@.len(),
                Err(e) => spec_parse_question(buf@, pos as int)
                    == Err::<(QuestionV, int), DnsError>(e),
            },
    {
        let (name, p) = match DomainName::parse(buf, pos) {
            Ok(x) => x,
            Err(e) => {
                return Err(e);
            },
        };
        if buf.len() - p < 4 {
            return Err(DnsError::Truncated);
        }
        let ty = RecordType::parse(read_u16_at(buf, p));
        let class = Class::parse(read_u16_at(buf, p + 2));
        Ok((Question { name, ty, class }, p + 4))
    }

    /// The on-wire length of this question: its name's encoded length plus
    /// the four type/class bytes.
    pub fn length(&self) -> (r: u16)
        requires
            self.name@.len() >= 1,
            question_len(self@) <= u16::MAX,
        ensures
            r == question_len(self@),
    {
        self.name.length() + 4
    }

    /// The literal label starting exactly `offset` bytes into this question's
    /// encoding; an offset inside the type/class bytes is refused.
    pub fn get_label(&self, offset: u16) -> (r: Result<Vec<u8>, DnsError>)
        requires
            self.name@.len() >= 1,
            question_len(self@) <= u16::MAX,
        ensures
            match r {
                Ok(v) => spec_question_get_label(self@, offset as int)
                    == Ok::<Seq<u8>, DnsError>(v@),
                Err(e) => spec_question_get_label(self@, offset as int)
                    == Err::<Seq<u8>, DnsError>(e),
            },
    {
        if offset >= self.name.length() {
            return Err(DnsError::InvalidOffset);
        }
        self.name.get_label(offset)
    }

    /// The literal labels from `offset` to the end of this question's name.
    pub fn get_labels(&self, offset: u16) -> (r: Result<Vec<Vec<u8>>, DnsError>)
        requires
            self.name@.len() >= 1,
            question_len(self@) <= u16::MAX,
        ensures
            match r {
                Ok(v) => spec_question_get_labels(self@, offset as int)
                    == Ok::<Seq<Seq<u8>>, DnsError>(v.deep_view()),
                Err(e) => spec_question_get_labels(self@, offset as int)
                    == Err::<Seq<Seq<u8>>, DnsError>(e),
            },
    {
        if offset >= self.name.length() {
            return Err(DnsError::InvalidOffset);
        }
        self.name.get_labels(offset)
    }

    /// A copy of this question whose name has every pointer resolved against
    /// the message it was decoded from.
    pub fn decompressed_clone(&self, message: &crate::message::Message) -> (r: Result<
        Question,
        DnsError,
    >)
        requires
            crate::message::questions_sane(
                crate::message::questions_view(message.questions@),
            ),
        ensures
            match r {
                Ok(q) => crate::name::spec_decompress(self.name@, *message)
                    == Ok::<Seq<LabelV>, DnsError>(q.name@) && q.ty == self.ty
                    && q.class == self.class,
                Err(e) => crate::name::spec_decompress(self.name@, *message)
                    == Err::<Seq<LabelV>, DnsError>(e),
            },
    {
        let name = match self.name.decompress(message) {
            Ok(n) => n,
            Err(e) => {
                return Err(e);
            },
        };
        Ok(Question { name, ty: self.ty, class: self.class })
    }

    /// Encodes this question: its name, then type and class; on failure the
    /// buffer is untouched.
    pub fn write(&self, buf: &mut bytes::BytesMut) -> (r: Result<(), DnsError>)
        requires
            buf_contents(*old(buf)).len() + question_wire(self@).len() <= isize::MAX,
        ensures
            match r {
                Ok(()) => question_write_err(self@) is None && buf_contents(*final(buf))
                    == buf_contents(*old(buf)) + question_wire(self@),
                Err(e) => question_write_err(self@) == Some(e) && buf_contents(*final(buf))
                    == buf_contents(*old(buf)),
            },
    {
        let ghost c0 = buf_contents(*buf);
        match self.name.write(buf) {
            Err(e) => {
                return Err(e);
            },
            Ok(()) => {},
        }
        buf_put_u16(buf, self.ty.code());
        buf_put_u16(buf, self.class.code());
        proof {
            assert(buf_contents(*buf) =~= c0 + question_wire(self@));
        }
        Ok(())
    }
}

} // verus!
