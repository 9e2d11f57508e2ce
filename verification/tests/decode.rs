//! Compression and encoding recognised from the first bytes of a stream.

use xeibe::decode::{declared_label, detect_encoding, sniff_encoding};
use xeibe::{Compression, detect_compression};

#[test]
fn compression_is_recognised_by_magic_bytes() {
    assert_eq!(detect_compression(&[0x1f, 0x8b, 8, 0]), Compression::Gzip);
    assert_eq!(detect_compression(&[0x28, 0xb5, 0x2f, 0xfd]), Compression::Zstd);
    assert_eq!(detect_compression(b"PK\x03\x04"), Compression::Zip);
    assert_eq!(detect_compression(b"PK\x05\x06"), Compression::Zip);
    assert_eq!(detect_compression(b"<?xml"), Compression::Uncompressed);
    assert_eq!(detect_compression(&[0x1f]), Compression::Uncompressed);
}

#[test]
fn the_declared_encoding_is_found_in_the_declaration() {
    let text = b"<?xml version=\"1.0\" encoding = ' ISO-8859-2 ' ?><a/>";
    let (s, e) = declared_label(text).expect("a label");
    assert_eq!(&text[s..e], b"ISO-8859-2");
    assert_eq!(declared_label(b"<?xml version=\"1.0\"?>"), None);
    assert_eq!(declared_label(b"<a encoding=\"x\"?>"), None);
    assert_eq!(declared_label(b"<?xml encoding=\"x\""), None, "no end of the declaration");
}

#[test]
fn a_bom_wins_and_unknown_labels_are_reported() {
    assert_eq!(detect_encoding(b"\xEF\xBB\xBF<?xml encoding=\"ISO-8859-2\"?>"), "UTF-8");
    assert_eq!(detect_encoding(b"\xFF\xFE<\0"), "UTF-16LE");
    assert_eq!(detect_encoding(b"\0<\0?"), "UTF-16BE");
    assert_eq!(detect_encoding(b"<?xml version=\"1.0\" encoding=\"latin2\"?>"), "ISO-8859-2");
    assert_eq!(detect_encoding(b"<?xml version=\"1.0\" encoding=\"UTF-16\"?>"), "UTF-8");
    assert_eq!(detect_encoding(b"<root/>"), "UTF-8");
    assert_eq!(sniff_encoding(b"<?xml encoding=\"klingon\"?>"), Err("klingon".to_string()));
    assert_eq!(sniff_encoding(b"<root/>"), Ok(None));
    assert_eq!(detect_encoding(b"<?xml encoding=\"klingon\"?>"), "UTF-8");
}
