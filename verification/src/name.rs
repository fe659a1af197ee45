//! Domain names: label sequences with compression-pointer support.
//!
//! A name on the wire is a run of length-prefixed labels ended either by a
//! zero byte or by a two-byte compression pointer whose 14-bit offset points
//! back into the enclosing message.

use vstd::prelude::*;
use vstd::slice::{slice_subrange, slice_to_vec};

use vstd::string::StringSliceAdditionalSpecFns;

use crate::errors::DnsError;
use crate::message::{questions_sane, questions_view, spec_message_get_labels, Message};
use crate::outbuf::{buf_contents, buf_put_slice, buf_put_u8};
use crate::wire::{lemma_flatten_prefix_len, lemma_flatten_take_step};

verus! {

/// The longest literal label the wire format can carry.
pub const MAX_LABEL_SIZE: usize = 63;

/// One element of a domain name.
#[derive(Debug, Clone, PartialEq)]
pub enum Label {
    /// A literal label, as its raw bytes.
    Value(Vec<u8>),
    /// A message-absolute byte offset at which the rest of the name stands.
    Pointer(u16),
}

/// The mathematical shape of a `Label`.
pub ghost enum LabelV {
    Value(Seq<u8>),
    Pointer(u16),
}

impl View for Label {
    type V = LabelV;

    open spec fn view(&self) -> LabelV {
        match self {
            Label::Value(v) => LabelV::Value(v@),
            Label::Pointer(p) => LabelV::Pointer(*p),
        }
    }
}

/// A domain name as an ordered sequence of labels.
#[derive(Debug, Clone, PartialEq)]
pub struct DomainName {
    /// The labels, in order; a pointer, when present, is the final element.
    pub labels: Vec<Label>,
}

/// The views of a sequence of labels.
pub open spec fn labels_view(ls: Seq<Label>) -> Seq<LabelV> {
    Seq::new(ls.len(), |i: int| ls[i]@)
}

impl View for DomainName {
    type V = Seq<LabelV>;

    open spec fn view(&self) -> Seq<LabelV> {
        labels_view(self.labels@)
    }
}

/// The on-wire byte cost of one label: its length prefix plus its bytes, or
/// the two bytes of a pointer.
pub open spec fn label_cost(l: LabelV) -> int {
    match l {
        LabelV::Value(v) => 1 + v.len() as int,
        LabelV::Pointer(_) => 2,
    }
}

/// The summed on-wire cost of a run of labels, terminator not included.
pub open spec fn labels_cost(ls: Seq<LabelV>) -> int
    decreases ls.len(),
{
    if ls.len() == 0 {
        0
    } else {
        labels_cost(ls.drop_last()) + label_cost(ls.last())
    }
}

/// The full encoded length of a name: the labels' cost, plus the one-byte
/// terminator unless a trailing pointer ends the name.
pub open spec fn name_encoded_len(ls: Seq<LabelV>) -> int {
    labels_cost(ls) + if ls.len() == 0 || ls.last() is Value {
        1int
    } else {
        0int
    }
}

/// The wire bytes of one label.
pub open spec fn label_wire(l: LabelV) -> Seq<u8> {
    match l {
        LabelV::Value(v) => seq![v.len() as u8] + v,
        LabelV::Pointer(p) => seq![(0xc0u8 | ((p >> 8) as u8)), (p & 0xff) as u8],
    }
}

/// The wire bytes of each label in turn.
pub open spec fn label_wires(ls: Seq<LabelV>) -> Seq<Seq<u8>> {
    Seq::new(ls.len(), |i: int| label_wire(ls[i]))
}

/// The wire bytes of a whole name: every label's bytes, and the zero
/// terminator unless a trailing pointer ends the name.
pub open spec fn name_wire(ls: Seq<LabelV>) -> Seq<u8> {
    label_wires(ls).flatten() + if ls.len() == 0 || ls.last() is Value {
        seq![0u8]
    } else {
        Seq::<u8>::empty()
    }
}

/// Whether a name can be encoded, and if not, why: the first pointer makes it
/// `Unsupported` (encoding a compressed name is out of scope), the first
/// over-long literal label makes it `LabelTooLong`.
pub open spec fn name_write_err(ls: Seq<LabelV>) -> Option<DnsError>
    decreases ls.len(),
{
    if ls.len() == 0 {
        None
    } else {
        match ls[0] {
            LabelV::Pointer(_) => Some(DnsError::Unsupported),
            LabelV::Value(v) => if v.len() > 63 {
                Some(DnsError::LabelTooLong)
            } else {
                name_write_err(ls.drop_first())
            },
        }
    }
}

/// What decoding a name at `pos` yields: the label sequence and the position
/// one past the name, or the error the wire data forces.
pub open spec fn spec_parse_name(buf: Seq<u8>, pos: int) -> Result<(Seq<LabelV>, int), DnsError>
    decreases buf.len() - pos,
{
    if pos < 0 || pos >= buf.len() {
        Err(DnsError::Truncated)
    } else {
        let b = buf[pos];
        if b == 0 {
            Ok((seq![], pos + 1))
        } else if (b >> 6) == 3 {
            if pos + 1 >= buf.len() {
                Err(DnsError::Truncated)
            } else {
                Ok((seq![LabelV::Pointer((((b & 0x3f) as u16) << 8) | (buf[pos + 1] as u16))], pos + 2))
            }
        } else if b > 63 {
            Err(DnsError::LabelTooLong)
        } else if pos + 1 + b > buf.len() {
            Err(DnsError::Truncated)
        } else {
            match spec_parse_name(buf, pos + 1 + b) {
                Ok((rest, end)) => Ok(
                    (seq![LabelV::Value(buf.subrange(pos + 1, pos + 1 + b))] + rest, end),
                ),
                Err(e) => Err(e),
            }
        }
    }
}

/// The label that starts exactly `off` bytes into a name's encoding, walking
/// label by label; any offset that is not a label start is refused.
pub open spec fn spec_label_at(ls: Seq<LabelV>, off: int) -> Result<LabelV, DnsError>
    decreases ls.len(),
{
    if ls.len() == 0 {
        Err(DnsError::InvalidOffset)
    } else if off == 0 {
        Ok(ls[0])
    } else if off >= label_cost(ls[0]) {
        spec_label_at(ls.drop_first(), off - label_cost(ls[0]))
    } else {
        Err(DnsError::InvalidOffset)
    }
}

/// The literal label at offset `off`; a pointer there is refused.
pub open spec fn spec_get_label(ls: Seq<LabelV>, off: int) -> Result<Seq<u8>, DnsError> {
    match spec_label_at(ls, off) {
        Ok(LabelV::Value(v)) => Ok(v),
        Ok(LabelV::Pointer(_)) => Err(DnsError::InvalidOffset),
        Err(e) => Err(e),
    }
}

/// The label suffix that starts exactly `off` bytes into a name's encoding.
pub open spec fn spec_labels_from(ls: Seq<LabelV>, off: int) -> Result<Seq<LabelV>, DnsError>
    decreases ls.len(),
{
    if ls.len() == 0 {
        Err(DnsError::InvalidOffset)
    } else if off == 0 {
        Ok(ls)
    } else if off >= label_cost(ls[0]) {
        spec_labels_from(ls.drop_first(), off - label_cost(ls[0]))
    } else {
        Err(DnsError::InvalidOffset)
    }
}

/// Every label is a literal.
pub open spec fn all_value_labels(ls: Seq<LabelV>) -> bool {
    forall|i: int| 0 <= i < ls.len() ==> ls[i] is Value
}

/// The byte strings of a run of literal labels.
pub open spec fn label_values(ls: Seq<LabelV>) -> Seq<Seq<u8>> {
    Seq::new(ls.len(), |i: int| ls[i]->Value_0)
}

/// The literal labels from offset `off` to the end of the name; a pointer
/// anywhere in that suffix is refused.
pub open spec fn spec_get_labels(ls: Seq<LabelV>, off: int) -> Result<Seq<Seq<u8>>, DnsError> {
    match spec_labels_from(ls, off) {
        Ok(suffix) => if all_value_labels(suffix) {
            Ok(label_values(suffix))
        } else {
            Err(DnsError::InvalidOffset)
        },
        Err(e) => Err(e),
    }
}

/// Appending one label adds its cost.
pub proof fn lemma_labels_cost_take_step(ls: Seq<LabelV>, i: int)
    requires
        0 <= i < ls.len(),
    ensures
        labels_cost(ls.take(i + 1)) == labels_cost(ls.take(i)) + label_cost(ls[i]),
{
    assert(ls.take(i + 1).drop_last() =~= ls.take(i));
    assert(ls.take(i + 1).last() == ls[i]);
}

/// The labels' wire bytes are exactly as many as their summed cost.
pub proof fn lemma_label_wires_flatten_len(ls: Seq<LabelV>)
    ensures
        label_wires(ls).flatten().len() == labels_cost(ls),
    decreases ls.len(),
{
    if ls.len() == 0 {
        assert(label_wires(ls) =~= Seq::<Seq<u8>>::empty());
    } else {
        lemma_label_wires_flatten_len(ls.drop_last());
        assert(label_wires(ls) =~= label_wires(ls.drop_last()).push(label_wire(ls.last())));
        label_wires(ls.drop_last()).lemma_flatten_push(label_wire(ls.last()));
    }
}

/// A name encodes to exactly `name_encoded_len` bytes: the quantity `length`
/// returns is the name's true on-wire size, terminator included for a name of
/// literals and excluded after a trailing pointer.
pub proof fn lemma_name_wire_len(ls: Seq<LabelV>)
    ensures
        name_wire(ls).len() == name_encoded_len(ls),
{
    lemma_label_wires_flatten_len(ls);
}

/// A name's wire cost is never negative.
pub proof fn lemma_labels_cost_nonneg(ls: Seq<LabelV>)
    ensures
        labels_cost(ls) >= 0,
    decreases ls.len(),
{
    if ls.len() > 0 {
        lemma_labels_cost_nonneg(ls.drop_last());
    }
}

/// A prefix of a name never costs more than the whole name.
pub proof fn lemma_labels_cost_prefix_le(ls: Seq<LabelV>, i: int)
    requires
        0 <= i <= ls.len(),
    ensures
        labels_cost(ls.take(i)) <= labels_cost(ls),
    decreases ls.len() - i,
{
    if i == ls.len() {
        assert(ls.take(i) =~= ls);
    } else {
        lemma_labels_cost_take_step(ls, i);
        lemma_labels_cost_prefix_le(ls, i + 1);
    }
}

/// A byte-copy of a label's bytes.
fn clone_bytes(v: &Vec<u8>) -> (r: Vec<u8>)
    ensures
        r@ == v@,
{
    slice_to_vec(v.as_slice())
}

impl DomainName {
    /// Splits a dotted name into literal labels; a chunk longer than 63 bytes
    /// is refused, exactly as the wire format would refuse it.
    pub fn name_from_bytes(bytes: &[u8]) -> (r: Result<DomainName, DnsError>)
        ensures
            match r {
                Ok(d) => d@ == values_to_labels(spec_split_labels(bytes@))
                    && (forall|i: int|
                        0 <= i < spec_split_labels(bytes@).len()
                            ==> (#[trigger] spec_split_labels(bytes@)[i]).len() <= 63),
                Err(e) => e == DnsError::LabelTooLong && (exists|i: int|
                    0 <= i < spec_split_labels(bytes@).len()
                        && (#[trigger] spec_split_labels(bytes@)[i]).len() > 63),
            },
    {
        let ghost chunks = spec_split_labels(bytes@);
        let mut labels: Vec<Label> = Vec::new();
        let mut start: usize = 0;
        proof {
            assert(bytes@.skip(0) =~= bytes@);
            assert(labels_view(labels@).map_values(|l: LabelV| l->Value_0)
                =~= Seq::<Seq<u8>>::empty());
        }
        loop
            invariant
                start <= bytes@.len(),
                spec_split_labels(bytes@) =~= labels_view(labels@).map_values(
                    |l: LabelV| l->Value_0,
                ) + spec_split_labels(bytes@.skip(start as int)),
                forall|i: int|
                    0 <= i < labels@.len() ==> labels@[i]@ is Value
                        && (#[trigger] labels@[i]@)->Value_0.len() <= 63,
                labels_view(labels@).map_values(|l: LabelV| l->Value_0).len() == labels@.len(),
            decreases bytes@.len() - start,
        {
            // scan the current chunk up to the next dot or the end
            let mut k: usize = 0;
            while k < bytes.len() - start && bytes[start + k] != 46
                invariant
                    start <= bytes@.len(),
                    start + k <= bytes@.len(),
                    forall|j: int| 0 <= j < k ==> #[trigger] bytes@[start + j] != 46,
                decreases bytes@.len() - start - k,
            {
                k = k + 1;
            }
            proof {
                let rest = bytes@.skip(start as int);
                assert forall|j: int| 0 <= j < k implies rest[j] != 46 by {
                    assert(rest[j] == bytes@[start + j]);
                }
                if (k as int) < rest.len() {
                    assert(rest[k as int] == bytes@[start + k]);
                }
                lemma_first_chunk_len(rest, k as int);
            }
            if k > MAX_LABEL_SIZE {
                proof {
                    let rest = bytes@.skip(start as int);
                    assert(spec_split_labels(rest)[0].len() > 63);
                    let n = labels_view(labels@).map_values(|l: LabelV| l->Value_0).len();
                    assert(spec_split_labels(bytes@)[n as int].len() > 63);
                }
                return Err(DnsError::LabelTooLong);
            }
            let chunk = slice_to_vec(slice_subrange(bytes, start, start + k));
            labels.push(Label::Value(chunk));
            proof {
                let rest = bytes@.skip(start as int);
                assert(rest.take(k as int) =~= bytes@.subrange(start as int, start + k));
                assert(labels_view(labels@) =~= labels_view(labels@.drop_last()).push(
                    LabelV::Value(bytes@.subrange(start as int, start + k)),
                ));
                assert(labels_view(labels@).map_values(|l: LabelV| l->Value_0)
                    =~= labels_view(labels@.drop_last()).map_values(|l: LabelV| l->Value_0).push(
                    bytes@.subrange(start as int, start + k),
                ));
            }
            if start + k == bytes.len() {
                // final chunk
                proof {
                    let rest = bytes@.skip(start as int);
                    assert(spec_split_labels(rest) =~= seq![rest]);
                    assert(rest =~= bytes@.subrange(start as int, start + k));
                    assert(spec_split_labels(bytes@) =~= labels_view(labels@).map_values(
                        |l: LabelV| l->Value_0,
                    ));
                    assert(values_to_labels(spec_split_labels(bytes@)) =~= labels_view(labels@));
                }
                return Ok(DomainName { labels });
            }
            proof {
                let rest = bytes@.skip(start as int);
                assert(rest.skip(k + 1) =~= bytes@.skip(start + k + 1));
                assert(spec_split_labels(rest) =~= seq![rest.take(k as int)] + spec_split_labels(
                    bytes@.skip(start + k + 1),
                ));
            }
            start = start + k + 1;
        }
    }

    /// Splits a dotted name into literal labels, working on the string's
    /// UTF-8 bytes; a label longer than 63 bytes is refused.
    pub fn _new(name: &str) -> (r: Result<DomainName, DnsError>)
        ensures
            match r {
                Ok(d) => d@ == values_to_labels(spec_split_labels(name.spec_bytes()))
                    && (forall|i: int|
                        0 <= i < spec_split_labels(name.spec_bytes()).len()
                            ==> (#[trigger] spec_split_labels(name.spec_bytes())[i]).len() <= 63),
                Err(e) => e == DnsError::LabelTooLong && (exists|i: int|
                    0 <= i < spec_split_labels(name.spec_bytes()).len()
                        && (#[trigger] spec_split_labels(name.spec_bytes())[i]).len() > 63),
            },
    {
        DomainName::name_from_bytes(name.as_bytes())
    }

    /// The encoded length of this name: each literal label costs its length
    /// plus one prefix byte, a pointer costs two bytes, and a one-byte
    /// terminator is added unless a pointer ends the name.
    pub fn length(&self) -> (r: u16)
        requires
            self@.len() >= 1,
            name_encoded_len(self@) <= u16::MAX,
        ensures
            r == name_encoded_len(self@),
    {
        let ghost ls = self@;
        let mut total: u16 = 0;
        let mut i: usize = 0;
        while i < self.labels.len()
            invariant
                i <= self.labels@.len(),
                ls == labels_view(self.labels@),
                total == labels_cost(ls.take(i as int)),
                name_encoded_len(ls) <= u16::MAX,
            decreases self.labels@.len() - i,
        {
            proof {
                lemma_labels_cost_take_step(ls, i as int);
                lemma_labels_cost_prefix_le(ls, i + 1);
            }
            let c: u16 = match &self.labels[i] {
                Label::Value(v) => 1 + (v.len() as u16),
                Label::Pointer(_) => 2,
            };
            total = total + c;
            i = i + 1;
        }
        proof {
            assert(ls.take(ls.len() as int) =~= ls);
        }
        let last_is_value = match &self.labels[self.labels.len() - 1] {
            Label::Value(_) => true,
            Label::Pointer(_) => false,
        };
        if last_is_value {
            total = total + 1;
        }
        total
    }

    /// The literal label that starts exactly `offset` bytes into this name's
    /// encoding; any other offset, or a pointer there, is refused.
    pub fn get_label(&self, offset: u16) -> (r: Result<Vec<u8>, DnsError>)
        requires
            labels_cost(self@) <= u16::MAX,
        ensures
            match r {
                Ok(v) => spec_get_label(self@, offset as int) == Ok::<Seq<u8>, DnsError>(v@),
                Err(e) => spec_get_label(self@, offset as int) == Err::<Seq<u8>, DnsError>(e),
            },
    {
        let ghost ls = self@;
        proof {
            assert(ls.skip(0) =~= ls);
        }
        let mut name_offset: u16 = 0;
        let mut i: usize = 0;
        while i < self.labels.len()
            invariant
                i <= self.labels@.len(),
                ls == labels_view(self.labels@),
                labels_cost(ls) <= u16::MAX,
                name_offset == labels_cost(ls.take(i as int)),
                spec_label_at(ls, offset as int) == spec_label_at(
                    ls.skip(i as int),
                    offset - name_offset,
                ),
            decreases self.labels@.len() - i,
        {
            proof {
                lemma_labels_cost_take_step(ls, i as int);
                lemma_labels_cost_prefix_le(ls, i + 1);
                assert(ls.skip(i as int)[0] == ls[i as int]);
                assert(ls.skip(i as int).drop_first() =~= ls.skip(i + 1));
            }
            if offset == name_offset {
                return match &self.labels[i] {
                    Label::Value(v) => Ok(clone_bytes(v)),
                    Label::Pointer(_) => Err(DnsError::InvalidOffset),
                };
            }
            let c: u16 = match &self.labels[i] {
                Label::Value(v) => 1 + (v.len() as u16),
                Label::Pointer(_) => 2,
            };
            name_offset = name_offset + c;
            i = i + 1;
        }
        proof {
            assert(ls.skip(ls.len() as int) =~= Seq::<LabelV>::empty());
        }
        Err(DnsError::InvalidOffset)
    }
}

impl DomainName {
    /// Decodes a name starting at `pos`: length-prefixed labels until a zero
    /// byte or a two-byte pointer ends the name. Returns the name and the
    /// position one past it.
    pub fn parse(buf: &[u8], pos: usize) -> (r: Result<(DomainName, usize), DnsError>)
        ensures
            match r {
                Ok((name, end)) => spec_parse_name(buf@, pos as int)
                    == Ok::<(Seq<LabelV>, int), DnsError>((name@, end as int))
                    && pos <= end <= buf@.len(),
                Err(e) => spec_parse_name(buf@, pos as int)
                    == Err::<(Seq<LabelV>, int), DnsError>(e),
            },
    {
        let mut labels: Vec<Label> = Vec::new();
        let mut cur = pos;
        loop
            invariant
                pos <= cur,
                spec_parse_name(buf@, pos as int) == (match spec_parse_name(buf@, cur as int) {
                    Ok((rest, end)) => Ok::<(Seq<LabelV>, int), DnsError>(
                        (labels_view(labels@) + rest, end),
                    ),
                    Err(e) => Err::<(Seq<LabelV>, int), DnsError>(e),
                }),
            decreases buf@.len() - cur,
        {
            if cur >= buf.len() {
                return Err(DnsError::Truncated);
            }
            let b = buf[cur];
            if b == 0 {
                proof {
                    assert(labels_view(labels@) + Seq::<LabelV>::empty()
                        =~= labels_view(labels@));
                }
                return Ok((DomainName { labels }, cur + 1));
            }
            if (b >> 6) == 3 {
                if cur + 1 >= buf.len() {
                    return Err(DnsError::Truncated);
                }
                let b2 = buf[cur + 1];
                let ptr: u16 = (((b & 0x3f) as u16) << 8) | (b2 as u16);
                let ghost lv_old = labels_view(labels@);
                labels.push(Label::Pointer(ptr));
                proof {
                    assert(labels_view(labels@) =~= lv_old + seq![LabelV::Pointer(ptr)]);
                }
                return Ok((DomainName { labels }, cur + 2));
            }
            if b > 63 {
                return Err(DnsError::LabelTooLong);
            }
            let blen = b as usize;
            if blen > buf.len() - (cur + 1) {
                return Err(DnsError::Truncated);
            }
            let v = slice_to_vec(slice_subrange(buf, cur + 1, cur + 1 + blen));
            let ghost lv_old = labels_view(labels@);
            labels.push(Label::Value(v));
            let ghost one = seq![LabelV::Value(buf@.subrange(cur + 1, cur + 1 + blen as int))];
            proof {
                assert(labels_view(labels@) =~= lv_old + one);
            }
            cur = cur + 1 + blen;
            proof {
                let sp = spec_parse_name(buf@, cur as int);
                if sp is Ok {
                    let rest = sp->Ok_0.0;
                    assert(lv_old + (one + rest) =~= (lv_old + one) + rest);
                }
            }
        }
    }

    /// Whether this name can be encoded; the first offending label decides
    /// the error.
    pub(crate) fn write_check(&self) -> (r: Option<DnsError>)
        ensures
            r == name_write_err(self@),
    {
        let ghost ls = self@;
        proof {
            assert(ls.skip(0) =~= ls);
        }
        let mut i: usize = 0;
        while i < self.labels.len()
            invariant
                i <= self.labels@.len(),
                ls == labels_view(self.labels@),
                name_write_err(ls) == name_write_err(ls.skip(i as int)),
            decreases self.labels@.len() - i,
        {
            proof {
                assert(ls.skip(i as int)[0] == ls[i as int]);
                assert(ls.skip(i as int).drop_first() =~= ls.skip(i + 1));
            }
            match &self.labels[i] {
                Label::Pointer(_) => {
                    return Some(DnsError::Unsupported);
                },
                Label::Value(v) => {
                    if v.len() > MAX_LABEL_SIZE {
                        return Some(DnsError::LabelTooLong);
                    }
                },
            }
            i = i + 1;
        }
        proof {
            assert(ls.skip(ls.len() as int) =~= Seq::<LabelV>::empty());
        }
        None
    }

    /// Encodes this name: each literal label as a length-prefixed byte
    /// string, closed by a zero byte. A name still holding a pointer is
    /// refused (`Unsupported`), as is an over-long label (`LabelTooLong`);
    /// on failure the buffer is untouched.
    pub fn write(&self, buf: &mut bytes::BytesMut) -> (r: Result<(), DnsError>)
        requires
            buf_contents(*old(buf)).len() + name_wire(self@).len() <= isize::MAX,
        ensures
            match r {
                Ok(()) => name_write_err(self@) is None && buf_contents(*final(buf))
                    == buf_contents(*old(buf)) + name_wire(self@),
                Err(e) => name_write_err(self@) == Some(e) && buf_contents(*final(buf))
                    == buf_contents(*old(buf)),
            },
    {
        let ghost ls = self@;
        let ghost c0 = buf_contents(*buf);
        match self.write_check() {
            Some(e) => {
                return Err(e);
            },
            None => {},
        }
        proof {
            lemma_name_write_ok(ls);
            assert(label_wires(ls).take(0).flatten() =~= Seq::<u8>::empty());
            assert(c0 + Seq::<u8>::empty() =~= c0);
        }
        let mut i: usize = 0;
        while i < self.labels.len()
            invariant
                i <= self.labels@.len(),
                ls == labels_view(self.labels@),
                forall|j: int|
                    0 <= j < ls.len() ==> (#[trigger] ls[j]) is Value
                        && (ls[j]->Value_0).len() <= 63,
                buf_contents(*buf) == c0 + label_wires(ls).take(i as int).flatten(),
                c0.len() + name_wire(ls).len() <= isize::MAX,
            decreases self.labels@.len() - i,
        {
            proof {
                lemma_flatten_take_step(label_wires(ls), i as int);
                lemma_flatten_prefix_len(label_wires(ls), i + 1);
            }
            match &self.labels[i] {
                Label::Value(v) => {
                    buf_put_u8(buf, v.len() as u8);
                    buf_put_slice(buf, v.as_slice());
                    proof {
                        assert(label_wire(ls[i as int]) =~= seq![v@.len() as u8] + v@);
                        assert(buf_contents(*buf) =~= c0 + label_wires(ls).take(
                            i + 1,
                        ).flatten());
                    }
                },
                Label::Pointer(_) => {
                    // dead: the check above refused any pointer label
                    proof {
                        assert(false);
                    }
                },
            }
            i = i + 1;
        }
        proof {
            assert(label_wires(ls).take(ls.len() as int) =~= label_wires(ls));
        }
        buf_put_u8(buf, 0);
        proof {
            assert(buf_contents(*buf) =~= c0 + name_wire(ls));
        }
        Ok(())
    }

    /// The literal labels from offset `offset` to the end of this name; any
    /// offset that is not the start of a literal label, or a pointer within
    /// the suffix, is refused.
    pub fn get_labels(&self, offset: u16) -> (r: Result<Vec<Vec<u8>>, DnsError>)
        requires
            labels_cost(self@) <= u16::MAX,
        ensures
            match r {
                Ok(v) => spec_get_labels(self@, offset as int)
                    == Ok::<Seq<Seq<u8>>, DnsError>(v.deep_view()),
                Err(e) => spec_get_labels(self@, offset as int)
                    == Err::<Seq<Seq<u8>>, DnsError>(e),
            },
    {
        let ghost ls = self@;
        proof {
            assert(ls.skip(0) =~= ls);
        }
        let mut name_offset: u16 = 0;
        let mut i: usize = 0;
        while i < self.labels.len() && name_offset != offset
            invariant
                i <= self.labels@.len(),
                ls == labels_view(self.labels@),
                labels_cost(ls) <= u16::MAX,
                name_offset == labels_cost(ls.take(i as int)),
                spec_labels_from(ls, offset as int) == spec_labels_from(
                    ls.skip(i as int),
                    offset - name_offset,
                ),
            decreases self.labels@.len() - i,
        {
            proof {
                lemma_labels_cost_take_step(ls, i as int);
                lemma_labels_cost_prefix_le(ls, i + 1);
                assert(ls.skip(i as int)[0] == ls[i as int]);
                assert(ls.skip(i as int).drop_first() =~= ls.skip(i + 1));
            }
            let c: u16 = match &self.labels[i] {
                Label::Value(v) => 1 + (v.len() as u16),
                Label::Pointer(_) => 2,
            };
            name_offset = name_offset + c;
            i = i + 1;
        }
        if i == self.labels.len() {
            proof {
                assert(ls.skip(ls.len() as int) =~= Seq::<LabelV>::empty());
            }
            return Err(DnsError::InvalidOffset);
        }
        let ghost suffix = ls.skip(i as int);
        let start = i;
        let mut out: Vec<Vec<u8>> = Vec::new();
        let mut j = i;
        while j < self.labels.len()
            invariant
                start <= j <= self.labels@.len(),
                start < self.labels@.len(),
                ls == labels_view(self.labels@),
                suffix == ls.skip(start as int),
                spec_labels_from(ls, offset as int) == Ok::<Seq<LabelV>, DnsError>(suffix),
                forall|t: int| 0 <= t < j - start ==> (#[trigger] suffix[t]) is Value,
                out.deep_view() =~= label_values(suffix).take(j - start),
            decreases self.labels@.len() - j,
        {
            proof {
                assert(suffix[j - start] == ls[j as int]);
            }
            match &self.labels[j] {
                Label::Value(v) => {
                    let ghost out_old = out.deep_view();
                    out.push(clone_bytes(v));
                    proof {
                        assert(out.deep_view() =~~= out_old.push(v@));
                        assert(out.deep_view() =~~= label_values(suffix).take(j + 1 - start));
                    }
                },
                Label::Pointer(_) => {
                    proof {
                        assert(!all_value_labels(suffix));
                    }
                    return Err(DnsError::InvalidOffset);
                },
            }
            j = j + 1;
        }
        proof {
            assert(label_values(suffix).take(j - start) =~= label_values(suffix));
            assert(all_value_labels(suffix));
        }
        Ok(out)
    }
}

/// What one label becomes under decompression: a literal stays as it is, a
/// pointer is replaced by the literal labels found at its target offset.
pub open spec fn spec_expand_one(l: LabelV, m: Message) -> Result<Seq<LabelV>, DnsError> {
    match l {
        LabelV::Value(v) => Ok(seq![LabelV::Value(v)]),
        LabelV::Pointer(p) => match spec_message_get_labels(m, p) {
            Ok(vs) => Ok(values_to_labels(vs)),
            Err(e) => Err(e),
        },
    }
}

/// The labels after every pointer is chased into the message's question
/// section, label by label.
pub open spec fn spec_decompress(ls: Seq<LabelV>, m: Message) -> Result<Seq<LabelV>, DnsError>
    decreases ls.len(),
{
    if ls.len() == 0 {
        Ok(seq![])
    } else {
        match spec_expand_one(ls[0], m) {
            Err(e) => Err(e),
            Ok(f) => match spec_decompress(ls.drop_first(), m) {
                Ok(rest) => Ok(f + rest),
                Err(e) => Err(e),
            },
        }
    }
}

impl DomainName {
    /// A copy of this name with every label materialized as a literal, each
    /// pointer resolved against the message the name was decoded from.
    pub fn decompress(&self, message: &Message) -> (r: Result<DomainName, DnsError>)
        requires
            questions_sane(questions_view(message.questions@)),
        ensures
            match r {
                Ok(d) => spec_decompress(self@, *message) == Ok::<Seq<LabelV>, DnsError>(d@),
                Err(e) => spec_decompress(self@, *message) == Err::<Seq<LabelV>, DnsError>(e),
            },
    {
        let ghost ls = self@;
        proof {
            assert(ls.skip(0) =~= ls);
            assert(labels_view(Seq::<Label>::empty()) =~= Seq::<LabelV>::empty());
        }
        let mut out: Vec<Label> = Vec::new();
        let mut i: usize = 0;
        while i < self.labels.len()
            invariant
                i <= self.labels@.len(),
                ls == labels_view(self.labels@),
                questions_sane(questions_view(message.questions@)),
                spec_decompress(ls, *message) == (match spec_decompress(
                    ls.skip(i as int),
                    *message,
                ) {
                    Ok(rest) => Ok::<Seq<LabelV>, DnsError>(labels_view(out@) + rest),
                    Err(e) => Err::<Seq<LabelV>, DnsError>(e),
                }),
            decreases self.labels@.len() - i,
        {
            proof {
                assert(ls.skip(i as int)[0] == ls[i as int]);
                assert(ls.skip(i as int).drop_first() =~= ls.skip(i + 1));
            }
            let ghost out_old = labels_view(out@);
            match &self.labels[i] {
                Label::Value(v) => {
                    out.push(Label::Value(clone_bytes(v)));
                    proof {
                        assert(labels_view(out@) =~= out_old + spec_expand_one(
                            ls[i as int],
                            *message,
                        )->Ok_0);
                    }
                },
                Label::Pointer(p) => {
                    match message.get_labels(*p) {
                        Err(e) => {
                            return Err(e);
                        },
                        Ok(vs) => {
                            let ghost f = values_to_labels(vs.deep_view());
                            proof {
                                assert(spec_expand_one(ls[i as int], *message)
                                    == Ok::<Seq<LabelV>, DnsError>(f));
                                assert(labels_view(out@) =~= out_old + f.take(0));
                            }
                            let mut k: usize = 0;
                            while k < vs.len()
                                invariant
                                    k <= vs@.len(),
                                    f == values_to_labels(vs.deep_view()),
                                    f.len() == vs@.len(),
                                    labels_view(out@) =~= out_old + f.take(k as int),
                                decreases vs@.len() - k,
                            {
                                let ghost before = labels_view(out@);
                                out.push(Label::Value(clone_bytes(&vs[k])));
                                proof {
                                    assert(vs@[k as int].deep_view() =~= vs@[k as int]@);
                                    assert(f[k as int] == LabelV::Value(vs@[k as int]@));
                                    assert(labels_view(out@) =~= before.push(f[k as int]));
                                    assert(out_old + f.take(k + 1) =~= (out_old + f.take(
                                        k as int,
                                    )).push(f[k as int]));
                                }
                                k = k + 1;
                            }
                            proof {
                                assert(f.take(f.len() as int) =~= f);
                            }
                        },
                    }
                },
            }
            i = i + 1;
            proof {
                let fo = spec_expand_one(ls[i - 1], *message);
                let sp = spec_decompress(ls.skip(i as int), *message);
                if sp is Ok {
                    assert(out_old + (fo->Ok_0 + sp->Ok_0) =~= (out_old + fo->Ok_0) + sp->Ok_0);
                }
            }
        }
        proof {
            assert(ls.skip(ls.len() as int) =~= Seq::<LabelV>::empty());
            assert(labels_view(out@) + Seq::<LabelV>::empty() =~= labels_view(out@));
        }
        Ok(DomainName { labels: out })
    }
}

/// Every label a successful encode covers is a literal of at most 63 bytes.
pub proof fn lemma_name_write_ok(ls: Seq<LabelV>)
    requires
        name_write_err(ls) is None,
    ensures
        forall|i: int|
            0 <= i < ls.len() ==> (#[trigger] ls[i]) is Value && (ls[i]->Value_0).len() <= 63,
    decreases ls.len(),
{
    if ls.len() > 0 {
        lemma_name_write_ok(ls.drop_first());
        assert forall|i: int|
            0 <= i < ls.len() implies (#[trigger] ls[i]) is Value
            && (ls[i]->Value_0).len() <= 63 by {
            if i > 0 {
                assert(ls[i] == ls.drop_first()[i - 1]);
            }
        }
    }
}

/// Decoding right after `prefix` the bytes that a pointer-free name encodes
/// to yields that name's labels back and stops exactly at the end.
pub proof fn lemma_parse_name_at(prefix: Seq<u8>, ls: Seq<LabelV>)
    requires
        forall|i: int|
            0 <= i < ls.len() ==> (#[trigger] ls[i]) is Value
                && 1 <= (ls[i]->Value_0).len() <= 63,
    ensures
        spec_parse_name(prefix + name_wire(ls), prefix.len() as int)
            == Ok::<(Seq<LabelV>, int), DnsError>(
            (ls, prefix.len() + name_wire(ls).len() as int),
        ),
    decreases ls.len(),
{
    let buf = prefix + name_wire(ls);
    let pos = prefix.len() as int;
    if ls.len() == 0 {
        assert(label_wires(ls).flatten() =~= Seq::<u8>::empty());
        assert(name_wire(ls) =~= seq![0u8]);
        assert(buf[pos] == 0);
        assert(ls =~= Seq::<LabelV>::empty());
    } else {
        let v = ls[0]->Value_0;
        let rest = ls.drop_first();
        assert(label_wires(ls)[0] == label_wire(ls[0]));
        assert(label_wires(ls).drop_first() =~= label_wires(rest));
        assert(label_wires(ls).flatten() == label_wires(ls)[0] + label_wires(
            ls,
        ).drop_first().flatten());
        assert(label_wire(ls[0]) =~= seq![v.len() as u8] + v);
        if rest.len() == 0 {
            assert(name_wire(ls) =~= label_wire(ls[0]) + name_wire(rest));
        } else {
            assert(rest.last() == ls.last());
            assert(name_wire(ls) =~= label_wire(ls[0]) + name_wire(rest));
        }
        let prefix2 = prefix + label_wire(ls[0]);
        assert forall|i: int|
            0 <= i < rest.len() implies (#[trigger] rest[i]) is Value
            && 1 <= (rest[i]->Value_0).len() <= 63 by {
            assert(rest[i] == ls[i + 1]);
        }
        lemma_parse_name_at(prefix2, rest);
        assert(prefix2 + name_wire(rest) =~= buf);
        let b = buf[pos];
        assert(buf.subrange(pos, pos + 1 + v.len()) =~= label_wire(ls[0]));
        assert(b == v.len() as u8);
        assert(b != 0);
        assert((b >> 6) != 3) by (bit_vector)
            requires
                b <= 63,
        ;
        assert(name_wire(rest).len() >= 1);
        assert(pos + 1 + b <= buf.len());
        assert(buf.subrange(pos + 1, pos + 1 + b) =~= v);
        assert(pos + 1 + b == prefix2.len());
        assert(spec_parse_name(buf, prefix2.len() as int)
            == Ok::<(Seq<LabelV>, int), DnsError>((rest, buf.len() as int)));
        assert(seq![LabelV::Value(v)] + rest =~= ls);
        assert(buf.len() == prefix.len() + name_wire(ls).len());
    }
}

/// Round trip without compression: the bytes a name of literal labels (each 1
/// to 63 bytes long) encodes to decode back to exactly that label sequence.
pub proof fn lemma_name_roundtrip(ls: Seq<LabelV>)
    requires
        forall|i: int|
            0 <= i < ls.len() ==> (#[trigger] ls[i]) is Value
                && 1 <= (ls[i]->Value_0).len() <= 63,
    ensures
        spec_parse_name(name_wire(ls), 0) == Ok::<(Seq<LabelV>, int), DnsError>(
            (ls, name_wire(ls).len() as int),
        ),
{
    lemma_parse_name_at(Seq::<u8>::empty(), ls);
    assert(Seq::<u8>::empty() + name_wire(ls) =~= name_wire(ls));
}

/// The labels a run of byte strings stands for, each a literal.
pub open spec fn values_to_labels(vs: Seq<Seq<u8>>) -> Seq<LabelV> {
    Seq::new(vs.len(), |i: int| LabelV::Value(vs[i]))
}

/// The length of the chunk a dotted name starts with: the bytes before the
/// first dot, or all of them when no dot occurs.
pub open spec fn first_chunk_len(bytes: Seq<u8>) -> int
    decreases bytes.len(),
{
    if bytes.len() == 0 {
        0
    } else if bytes[0] == 46 {
        0
    } else {
        1 + first_chunk_len(bytes.drop_first())
    }
}

/// The chunks of a dotted name, splitting on each dot; always at least one
/// chunk, and empty chunks are kept, exactly as splitting a string on a
/// separator keeps them.
pub open spec fn spec_split_labels(bytes: Seq<u8>) -> Seq<Seq<u8>>
    decreases bytes.len(),
{
    let k = first_chunk_len(bytes);
    if k < 0 || k >= bytes.len() {
        seq![bytes]
    } else {
        seq![bytes.take(k)] + spec_split_labels(bytes.skip(k + 1))
    }
}

/// `first_chunk_len` is the position of the first dot, or the whole length.
pub proof fn lemma_first_chunk_len(bytes: Seq<u8>, k: int)
    requires
        0 <= k <= bytes.len(),
        forall|j: int| 0 <= j < k ==> bytes[j] != 46,
        k < bytes.len() ==> bytes[k] == 46,
    ensures
        first_chunk_len(bytes) == k,
    decreases bytes.len(),
{
    if bytes.len() == 0 {
    } else if bytes[0] == 46 {
    } else {
        lemma_first_chunk_len(bytes.drop_first(), k - 1);
    }
}

} // verus!
