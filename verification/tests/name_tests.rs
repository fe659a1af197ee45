use dns_codec::errors::DnsError;
use dns_codec::name::{DomainName, Label};

#[test]
fn name_from_bytes_splits_on_dots() {
    let name = DomainName::name_from_bytes(b"codecrafters.io").unwrap();
    assert_eq!(
        name.labels,
        vec![
            Label::Value(b"codecrafters".to_vec()),
            Label::Value(b"io".to_vec()),
        ]
    );
}

#[test]
fn name_from_str_matches_bytes() {
    let a = DomainName::_new("abc.io").unwrap();
    let b = DomainName::name_from_bytes(b"abc.io").unwrap();
    assert_eq!(a.labels, b.labels);
}

#[test]
fn name_from_bytes_rejects_long_label() {
    let long = [b'a'; 64];
    let mut bytes = long.to_vec();
    bytes.extend_from_slice(b".io");
    assert_eq!(
        DomainName::name_from_bytes(&bytes),
        Err(DnsError::LabelTooLong)
    );
    assert_eq!(
        DomainName::name_from_bytes(&[b'x'; 64]),
        Err(DnsError::LabelTooLong)
    );
}

#[test]
fn name_length_accounting() {
    // "abc.io": two length-prefixed labels plus the terminator,
    // 1+3 + 1+2 + 1 = 8
    let name = DomainName::name_from_bytes(b"abc.io").unwrap();
    assert_eq!(name.length(), 8);
}

#[test]
fn name_length_with_trailing_pointer() {
    // "abc" then a pointer: 1+3 + 2 = 6, and no terminator byte
    let wire = [3u8, b'a', b'b', b'c', 0xc0, 0x0c];
    let (name, end) = DomainName::parse(&wire, 0).unwrap();
    assert_eq!(end, 6);
    assert_eq!(
        name.labels,
        vec![Label::Value(b"abc".to_vec()), Label::Pointer(12)]
    );
    assert_eq!(name.length(), 6);
}

#[test]
fn name_write_exact_bytes() {
    let name = DomainName::name_from_bytes(b"abc.io").unwrap();
    let mut buf = bytes::BytesMut::new();
    name.write(&mut buf).unwrap();
    let expected = [3u8, b'a', b'b', b'c', 2, b'i', b'o', 0];
    assert_eq!(&buf[..], &expected[..]);
}

#[test]
fn name_roundtrip_without_compression() {
    let name = DomainName::name_from_bytes(b"www.codecrafters.io").unwrap();
    let mut buf = bytes::BytesMut::new();
    name.write(&mut buf).unwrap();
    let (parsed, end) = DomainName::parse(&buf[..], 0).unwrap();
    assert_eq!(end, buf.len());
    assert_eq!(parsed.labels, name.labels);
}

#[test]
fn name_parse_pointer_form() {
    // 0xc0 0x0c: top two bits set, offset 12
    let wire = [0xc0u8, 0x0c];
    let (name, end) = DomainName::parse(&wire, 0).unwrap();
    assert_eq!(end, 2);
    assert_eq!(name.labels, vec![Label::Pointer(12)]);
}

#[test]
fn name_parse_rejects_label_length_64() {
    // 64 is above the 63-byte maximum and is not in pointer form
    let mut wire = vec![64u8];
    wire.extend_from_slice(&[b'a'; 64]);
    wire.push(0);
    assert_eq!(DomainName::parse(&wire, 0), Err(DnsError::LabelTooLong));
}

#[test]
fn name_parse_rejects_truncation() {
    assert_eq!(DomainName::parse(&[], 0), Err(DnsError::Truncated));
    // length byte promises three bytes, only two are there
    assert_eq!(
        DomainName::parse(&[3u8, b'a', b'b'], 0),
        Err(DnsError::Truncated)
    );
    // a name that never terminates
    assert_eq!(
        DomainName::parse(&[1u8, b'a'], 0),
        Err(DnsError::Truncated)
    );
    // a pointer tag without its second byte
    assert_eq!(DomainName::parse(&[0xc0u8], 0), Err(DnsError::Truncated));
}

#[test]
fn name_parse_root_is_empty() {
    let (name, end) = DomainName::parse(&[0u8, 7, 7], 0).unwrap();
    assert_eq!(end, 1);
    assert_eq!(name.labels, Vec::<Label>::new());
}

#[test]
fn name_parse_at_offset() {
    let wire = [9u8, 9, 2, b'i', b'o', 0, 9];
    let (name, end) = DomainName::parse(&wire, 2).unwrap();
    assert_eq!(end, 6);
    assert_eq!(name.labels, vec![Label::Value(b"io".to_vec())]);
}

#[test]
fn name_write_refuses_pointer() {
    // encoding a still-compressed name is unsupported, and the buffer stays
    // untouched
    let (name, _) = DomainName::parse(&[0xc0u8, 0x0c], 0).unwrap();
    let mut buf = bytes::BytesMut::new();
    buf.extend_from_slice(b"xy");
    assert_eq!(name.write(&mut buf), Err(DnsError::Unsupported));
    assert_eq!(&buf[..], b"xy");
}

#[test]
fn name_write_refuses_long_label() {
    let name = DomainName {
        labels: vec![Label::Value(vec![b'a'; 64])],
    };
    let mut buf = bytes::BytesMut::new();
    assert_eq!(name.write(&mut buf), Err(DnsError::LabelTooLong));
    assert_eq!(buf.len(), 0);
}

#[test]
fn name_get_label_at_boundaries() {
    let name = DomainName::name_from_bytes(b"abc.io").unwrap();
    assert_eq!(name.get_label(0).unwrap(), b"abc".to_vec());
    assert_eq!(name.get_label(4).unwrap(), b"io".to_vec());
    // inside a label, and past the end
    assert_eq!(name.get_label(1), Err(DnsError::InvalidOffset));
    assert_eq!(name.get_label(7), Err(DnsError::InvalidOffset));
    assert_eq!(name.get_label(200), Err(DnsError::InvalidOffset));
}

#[test]
fn name_get_label_refuses_pointer_slot() {
    let (name, _) = DomainName::parse(&[3u8, b'a', b'b', b'c', 0xc0, 0x0c], 0).unwrap();
    assert_eq!(name.get_label(4), Err(DnsError::InvalidOffset));
}

#[test]
fn name_get_labels_suffix() {
    let name = DomainName::name_from_bytes(b"abc.io").unwrap();
    assert_eq!(
        name.get_labels(0).unwrap(),
        vec![b"abc".to_vec(), b"io".to_vec()]
    );
    assert_eq!(name.get_labels(4).unwrap(), vec![b"io".to_vec()]);
    assert_eq!(name.get_labels(2), Err(DnsError::InvalidOffset));
}
