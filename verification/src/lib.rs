//! A verified codec for the DNS wire format: header bit-packing, domain-name
//! labels with compression pointers, questions, resource records, and the
//! message container that ties them together.
//!
//! Every decoder and encoder carries a contract against a specification-level
//! wire model (`spec_parse_*` and `*_wire` functions); round-trip laws for the
//! header and for uncompressed names, and the purity of encoding, are proved
//! in their modules.

pub mod errors;
pub mod header;
pub mod message;
pub mod name;
pub mod outbuf;
pub mod question;
pub mod record;
pub mod wire;
