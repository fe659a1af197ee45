//! Resource records: an answer, authority or additional entry.
//!
//! Only the address (A) record carries a data codec; decoding a record from
//! the wire is deliberately unsupported and fails with a distinct error.

use vstd::prelude::*;

use crate::errors::DnsError;
use crate::name::{name_wire, name_write_err, DomainName, LabelV};
use crate::outbuf::{buf_contents, buf_put_slice, buf_put_u16, buf_put_u32};
use crate::question::{spec_class_code, spec_rt_code, Class, RecordType};
use crate::wire::{be16, be32};

verus! {

/// The type-specific payload of a record; only an IPv4 address is carried.
#[derive(Debug, Clone, PartialEq)]
pub enum ResourceRecordData {
    /// An IPv4 address, four raw bytes.
    IPv4([u8; 4]),
}

impl View for ResourceRecordData {
    type V = Seq<u8>;

    open spec fn view(&self) -> Seq<u8> {
        match self {
            ResourceRecordData::IPv4(ip) => ip@,
        }
    }
}

/// One resource record.
#[derive(Debug, Clone, PartialEq)]
pub struct ResourceRecord {
    /// The domain name the record is about.
    pub name: DomainName,
    /// The type of record.
    pub ty: RecordType,
    /// The class, usually `Internet`.
    pub class: Class,
    /// TTL: how many seconds a receiver may cache the record.
    pub time_to_live: u32,
    /// RDLENGTH: the length of the data field in bytes.
    pub length: u16,
    /// RDATA: the type-specific payload.
    pub data: ResourceRecordData,
}

/// The mathematical shape of a `ResourceRecord`.
pub ghost struct RecordV {
    pub name: Seq<LabelV>,
    pub ty: RecordType,
    pub class: Class,
    pub time_to_live: u32,
    pub length: u16,
    pub data: Seq<u8>,
}

impl View for ResourceRecord {
    type V = RecordV;

    open spec fn view(&self) -> RecordV {
        RecordV {
            name: self.name@,
            ty: self.ty,
            class: self.class,
            time_to_live: self.time_to_live,
            length: self.length,
            data: self.data@,
        }
    }
}

/// The wire bytes of a record's payload: its own 16-bit length prefix, then
/// the raw bytes.
pub open spec fn rdata_wire(data: Seq<u8>) -> Seq<u8> {
    be16(data.len() as u16) + data
}

/// The wire bytes of a whole record: name, type, class, TTL, then the
/// length-prefixed payload.
pub open spec fn record_wire(r: RecordV) -> Seq<u8> {
    name_wire(r.name) + be16(spec_rt_code(r.ty)) + be16(spec_class_code(r.class))
        + be32(r.time_to_live) + rdata_wire(r.data)
}

/// Whether a record can be encoded; only its name can refuse.
pub open spec fn record_write_err(r: RecordV) -> Option<DnsError> {
    name_write_err(r.name)
}

impl ResourceRecordData {
    /// The payload's length in bytes, as written into the length prefix.
    fn length(&self) -> (r: u16)
        ensures
            r == self@.len(),
    {
        match self {
            ResourceRecordData::IPv4(_) => 4,
        }
    }

    /// Decoding a payload from the wire is deliberately unsupported.
    pub fn _parse(_buf: &[u8], _pos: usize) -> (r: Result<(ResourceRecordData, usize), DnsError>)
        ensures
            r == Err::<(ResourceRecordData, usize), DnsError>(DnsError::Unsupported),
    {
        Err(DnsError::Unsupported)
    }

    /// Encodes the payload: its 16-bit length prefix, then the raw bytes.
    pub fn write(&self, buf: &mut bytes::BytesMut) -> (r: Result<(), DnsError>)
        requires
            buf_contents(*old(buf)).len() + 2 + self@.len() <= isize::MAX,
        ensures
            r is Ok,
            buf_contents(*final(buf)) == buf_contents(*old(buf)) + rdata_wire(self@),
    {
        let ghost c0 = buf_contents(*buf);
        buf_put_u16(buf, self.length());
        match self {
            ResourceRecordData::IPv4(ip) => {
                buf_put_slice(buf, ip.as_slice());
            },
        }
        proof {
            assert(buf_contents(*buf) =~= c0 + rdata_wire(self@));
        }
        Ok(())
    }
}

impl ResourceRecord {
    /// Builds a record, deriving the length field from the payload.
    pub fn new(
        name: DomainName,
        ty: RecordType,
        class: Class,
        time_to_live: u32,
        data: ResourceRecordData,
    ) -> (r: ResourceRecord)
        ensures
            r.name == name,
            r.ty == ty,
            r.class == class,
            r.time_to_live == time_to_live,
            r.length == data@.len(),
            r.data == data,
    {
        let length = data.length();
        ResourceRecord { name, ty, class, time_to_live, length, data }
    }

    /// Decoding a record from the wire is deliberately unsupported.
    pub fn parse(_buf: &[u8], _pos: usize) -> (r: Result<(ResourceRecord, usize), DnsError>)
        ensures
            r == Err::<(ResourceRecord, usize), DnsError>(DnsError::Unsupported),
    {
        Err(DnsError::Unsupported)
    }

    /// A copy of this record whose name has every pointer resolved against
    /// the message it was decoded from.
    pub fn decompressed_clone(&self, message: &crate::message::Message) -> (r: Result<
        ResourceRecord,
        DnsError,
    >)
        requires
            crate::message::questions_sane(
                crate::message::questions_view(message.questions@),
            ),
        ensures
            match r {
                Ok(rr) => crate::name::spec_decompress(self.name@, *message)
                    == Ok::<Seq<LabelV>, DnsError>(rr.name@) && rr.ty == self.ty
                    && rr.class == self.class && rr.time_to_live == self.time_to_live
                    && rr.length == self.length && rr.data@ == self.data@,
                Err(e) => crate::name::spec_decompress(self.name@, *message)
                    == Err::<Seq<LabelV>, DnsError>(e),
            },
    {
        let name = match self.name.decompress(message) {
            Ok(n) => n,
            Err(e) => {
                return Err(e);
            },
        };
        let data = match &self.data {
            ResourceRecordData::IPv4(ip) => ResourceRecordData::IPv4(*ip),
        };
        Ok(
            ResourceRecord {
                name,
                ty: self.ty,
                class: self.class,
                time_to_live: self.time_to_live,
                length: self.length,
                data,
            },
        )
    }

    /// Encodes this record: name, type, class, TTL, then the length-prefixed
    /// payload; on failure the buffer is untouched.
    pub fn write(&self, buf: &mut bytes::BytesMut) -> (r: Result<(), DnsError>)
        requires
            buf_contents(*old(buf)).len() + record_wire(self@).len() <= isize::MAX,
        ensures
            match r {
                Ok(()) => record_write_err(self@) is None && buf_contents(*final(buf))
                    == buf_contents(*old(buf)) + record_wire(self@),
                Err(e) => record_write_err(self@) == Some(e) && buf_contents(*final(buf))
                    == buf_contents(*old(buf)),
            },
    {
        let ghost c0 = buf_contents(*buf);
        match self.name.write(buf) {
            Err(e) => {
                return Err(e);
            },
            Ok(()) => {},
        }
        buf_put_u16(buf, self.ty.code());
        buf_put_u16(buf, self.class.code());
        buf_put_u32(buf, self.time_to_live);
        let _ = self.data.write(buf);
        proof {
            assert(buf_contents(*buf) =~= c0 + record_wire(self@));
        }
        Ok(())
    }
}

} // verus!
