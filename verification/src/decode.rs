//! Recognising compression and the declared character encoding from the
//! first bytes of a stream.

use vstd::prelude::*;

use crate::attributes::lossy_string;
use crate::scan::{bytes_at, bytes_at_exec, is_space_byte, space_byte};
use crate::text::{opt_string_view, str_eq, string_of, chars_of};

verus! {

#[derive(Debug, Clone, Copy, PartialEq, Eq, Structural)]
pub enum Compression {
    /// Not compressed.
    Uncompressed,
    Gzip,
    Zstd,
    /// Zip archives are expanded into member sources, not read as one stream.
    Zip,
}

/// Bytes needed to recognise every compression format.
pub const MAGIC_LEN: usize = 4;

/// Bytes read to find the XML declaration. Real declarations are far shorter.
pub const DECLARATION_LEN: usize = 1024;

pub open spec fn gzip_magic() -> Seq<u8> { seq![0x1Fu8, 0x8Bu8] }
pub open spec fn zstd_magic() -> Seq<u8> { seq![0x28u8, 0xB5u8, 0x2Fu8, 0xFDu8] }
/// `PK\x03\x04`, a local file header.
pub open spec fn zip_magic() -> Seq<u8> { seq![0x50u8, 0x4Bu8, 0x03u8, 0x04u8] }
/// `PK\x05\x06`, the end of an empty archive.
pub open spec fn empty_zip_magic() -> Seq<u8> { seq![0x50u8, 0x4Bu8, 0x05u8, 0x06u8] }

/// The compression that a stream's first bytes announce.
pub open spec fn compression_of(prefix: Seq<u8>) -> Compression {
    if bytes_at(prefix, 0, gzip_magic()) {
        Compression::Gzip
    } else if bytes_at(prefix, 0, zstd_magic()) {
        Compression::Zstd
    } else if bytes_at(prefix, 0, zip_magic()) || bytes_at(prefix, 0, empty_zip_magic()) {
        Compression::Zip
    } else {
        Compression::Uncompressed
    }
}

/// Detect compression from magic bytes.
pub fn detect_compression(prefix: &[u8]) -> (r: Compression)
    ensures
        r == compression_of(prefix@),
{
    let gzip: [u8; 2] = [0x1Fu8, 0x8Bu8];
    let zstd: [u8; 4] = [0x28u8, 0xB5u8, 0x2Fu8, 0xFDu8];
    let zip: [u8; 4] = [0x50u8, 0x4Bu8, 0x03u8, 0x04u8];
    let empty_zip: [u8; 4] = [0x50u8, 0x4Bu8, 0x05u8, 0x06u8];
    assert(gzip@ == gzip_magic());
    assert(zstd@ == zstd_magic());
    assert(zip@ == zip_magic());
    assert(empty_zip@ == empty_zip_magic());
    if bytes_at_exec(prefix, 0, &gzip) {
        Compression::Gzip
    } else if bytes_at_exec(prefix, 0, &zstd) {
        Compression::Zstd
    } else if bytes_at_exec(prefix, 0, &zip) || bytes_at_exec(prefix, 0, &empty_zip) {
        Compression::Zip
    } else {
        Compression::Uncompressed
    }
}

/// The first index `i >= from` where `pattern` starts and ends by `limit`.
pub open spec fn first_within(buf: Seq<u8>, from: int, limit: int, pattern: Seq<u8>) -> Option<int>
    decreases limit + 1 - from,
{
    if from < 0 || from + pattern.len() > limit {
        None
    } else if bytes_at(buf, from, pattern) {
        Some(from)
    } else {
        first_within(buf, from + 1, limit, pattern)
    }
}

/// The first index from `i` on, before `end`, that is not ASCII white space.
pub open spec fn skip_spaces(p: Seq<u8>, i: int, end: int) -> int
    decreases end - i,
{
    if 0 <= i < end && is_space_byte(p[i]) {
        skip_spaces(p, i + 1, end)
    } else {
        i
    }
}

/// The end of `p[start..e]` without trailing ASCII white space.
pub open spec fn back_spaces(p: Seq<u8>, start: int, e: int) -> int
    decreases e - start,
{
    if start < e && is_space_byte(p[e - 1]) {
        back_spaces(p, start, e - 1)
    } else {
        e
    }
}

/// The first index of `b` in `p[from..end]`.
pub open spec fn first_byte_within(p: Seq<u8>, from: int, end: int, b: u8) -> Option<int>
    decreases end - from,
{
    if from < 0 || from >= end {
        None
    } else if p[from] == b {
        Some(from)
    } else {
        first_byte_within(p, from + 1, end, b)
    }
}

/// `<?xml`
pub open spec fn declaration_head() -> Seq<u8> { seq![0x3Cu8, 0x3Fu8, 0x78u8, 0x6Du8, 0x6Cu8] }
/// `?>`
pub open spec fn declaration_end() -> Seq<u8> { seq![0x3Fu8, 0x3Eu8] }
/// `encoding`
pub open spec fn encoding_word() -> Seq<u8> { seq![0x65u8, 0x6Eu8, 0x63u8, 0x6Fu8, 0x64u8, 0x69u8, 0x6Eu8, 0x67u8] }

/// Where the value of the `encoding` pseudo-attribute of an XML declaration
/// at the very start lies: after the first `encoding` in the declaration, an
/// `=` and a quoted value, without white space around it.
pub open spec fn declared_label_range(p: Seq<u8>) -> Option<(int, int)> {
    if !bytes_at(p, 0, declaration_head()) {
        None
    } else {
        match first_within(p, 5, p.len() as int, declaration_end()) {
            None => None,
            Some(end) => match first_within(p, 5, end, encoding_word()) {
                None => None,
                Some(at) => {
                    let a = skip_spaces(p, at + 8, end);
                    if a < end && p[a] == 0x3Du8 {
                        let b = skip_spaces(p, a + 1, end);
                        if b < end && (p[b] == 0x22u8 || p[b] == 0x27u8) {
                            match first_byte_within(p, b + 1, end, p[b]) {
                                None => None,
                                Some(e) => {
                                    let s = skip_spaces(p, b + 1, e);
                                    Some((s, back_spaces(p, s, e)))
                                },
                            }
                        } else {
                            None
                        }
                    } else {
                        None
                    }
                },
            },
        }
    }
}

/// The first index from `from` on where `pattern` starts and ends by `limit`.
fn find_within(p: &[u8], from: usize, limit: usize, pattern: &[u8]) -> (r: Option<usize>)
    requires
        limit <= p@.len(),
        pattern@.len() > 0,
    ensures
        opt_index(r) == first_within(p@, from as int, limit as int, pattern@),
        r matches Some(i) ==> from <= i && i + pattern@.len() <= limit,
{
    let mut i = from;
    while i <= limit && pattern.len() <= limit - i
        invariant
            from <= i,
            limit <= p@.len(),
            pattern@.len() > 0,
            first_within(p@, i as int, limit as int, pattern@) == first_within(p@, from as int, limit as int, pattern@),
        decreases limit - i,
    {
        if bytes_at_exec(p, i, pattern) {
            return Some(i);
        }
        i = i + 1;
    }
    None
}

/// An index as an `Option<int>`.
pub open spec fn opt_index(o: Option<usize>) -> Option<int> {
    match o {
        Some(i) => Some(i as int),
        None => None,
    }
}

fn skip_spaces_exec(p: &[u8], from: usize, end: usize) -> (r: usize)
    requires
        from <= end <= p@.len(),
    ensures
        r == skip_spaces(p@, from as int, end as int),
        from <= r <= end,
{
    let mut i = from;
    while i < end && space_byte(p[i])
        invariant
            from <= i <= end <= p@.len(),
            skip_spaces(p@, i as int, end as int) == skip_spaces(p@, from as int, end as int),
        decreases end - i,
    {
        i = i + 1;
    }
    i
}

fn back_spaces_exec(p: &[u8], start: usize, end: usize) -> (r: usize)
    requires
        start <= end <= p@.len(),
    ensures
        r == back_spaces(p@, start as int, end as int),
        start <= r <= end,
{
    let mut e = end;
    while e > start && space_byte(p[e - 1])
        invariant
            start <= e <= end <= p@.len(),
            back_spaces(p@, start as int, e as int) == back_spaces(p@, start as int, end as int),
        decreases e,
    {
        e = e - 1;
    }
    e
}

fn byte_within(p: &[u8], from: usize, end: usize, b: u8) -> (r: Option<usize>)
    requires
        end <= p@.len(),
    ensures
        opt_index(r) == first_byte_within(p@, from as int, end as int, b),
        r matches Some(i) ==> from <= i < end,
{
    let mut i = from;
    while i < end
        invariant
            from <= i,
            end <= p@.len(),
            first_byte_within(p@, i as int, end as int, b) == first_byte_within(p@, from as int, end as int, b),
        decreases end - i,
    {
        if p[i] == b {
            return Some(i);
        }
        i = i + 1;
    }
    None
}

/// Where the `encoding` pseudo-attribute's value of an XML declaration at
/// the very start lies in `prefix`.
pub fn declared_label(prefix: &[u8]) -> (r: Option<(usize, usize)>)
    ensures
        match r {
            Some((s, e)) => declared_label_range(prefix@) == Some((s as int, e as int)) && s <= e <= prefix@.len(),
            None => declared_label_range(prefix@) is None,
        },
{
    let head: [u8; 5] = [0x3Cu8, 0x3Fu8, 0x78u8, 0x6Du8, 0x6Cu8];
    let close: [u8; 2] = [0x3Fu8, 0x3Eu8];
    let word: [u8; 8] = [0x65u8, 0x6Eu8, 0x63u8, 0x6Fu8, 0x64u8, 0x69u8, 0x6Eu8, 0x67u8];
    assert(head@ == declaration_head());
    assert(close@ == declaration_end());
    assert(word@ == encoding_word());
    if !bytes_at_exec(prefix, 0, &head) {
        return None;
    }
    let end = match find_within(prefix, 5, prefix.len(), &close) {
        Some(end) => end,
        None => return None,
    };
    assert(end + 2 <= prefix@.len());
    let at = match find_within(prefix, 5, end, &word) {
        Some(at) => at,
        None => return None,
    };
    assert(at + 8 <= end);
    let a = skip_spaces_exec(prefix, at + 8, end);
    if !(a < end && prefix[a] == 0x3Du8) {
        return None;
    }
    let b = skip_spaces_exec(prefix, a + 1, end);
    if !(b < end && (prefix[b] == 0x22u8 || prefix[b] == 0x27u8)) {
        return None;
    }
    let quote = prefix[b];
    match byte_within(prefix, b + 1, end, quote) {
        None => None,
        Some(e) => {
            let s = skip_spaces_exec(prefix, b + 1, e);
            let t = back_spaces_exec(prefix, s, e);
            Some((s, t))
        },
    }
}

/// The encoding that a byte order mark announces (`Encoding::for_bom`).
pub open spec fn bom_encoding(p: Seq<u8>) -> Option<Seq<char>> {
    if bytes_at(p, 0, seq![0xEFu8, 0xBBu8, 0xBFu8]) {
        Some("UTF-8"@)
    } else if bytes_at(p, 0, seq![0xFFu8, 0xFEu8]) {
        Some("UTF-16LE"@)
    } else if bytes_at(p, 0, seq![0xFEu8, 0xFFu8]) {
        Some("UTF-16BE"@)
    } else {
        None
    }
}

fn for_bom(p: &[u8]) -> (r: Option<String>)
    ensures
        opt_string_view(r) == bom_encoding(p@),
{
    let utf8: [u8; 3] = [0xEFu8, 0xBBu8, 0xBFu8];
    let le: [u8; 2] = [0xFFu8, 0xFEu8];
    let be: [u8; 2] = [0xFEu8, 0xFFu8];
    assert(utf8@ == seq![0xEFu8, 0xBBu8, 0xBFu8]);
    assert(le@ == seq![0xFFu8, 0xFEu8]);
    assert(be@ == seq![0xFEu8, 0xFFu8]);
    if bytes_at_exec(p, 0, &utf8) {
        Some(string_of(&chars_of("UTF-8")))
    } else if bytes_at_exec(p, 0, &le) {
        Some(string_of(&chars_of("UTF-16LE")))
    } else if bytes_at_exec(p, 0, &be) {
        Some(string_of(&chars_of("UTF-16BE")))
    } else {
        None
    }
}

/// The name of the encoding `encoding_rs` finds for a label, as it writes it.
pub uninterp spec fn label_encoding(label: Seq<u8>) -> Option<Seq<char>>;

/// The encoding a label names (`Encoding::for_label`, by its `name()`):
/// labels are matched as the WHATWG Encoding Standard says, white space
/// around them and letter case ignored. The contract names the result; the
/// table of labels is `encoding_rs`'s.
#[verifier::external_body]
fn encoding_for_label(label: &[u8]) -> (r: Option<String>)
    ensures
        opt_string_view(r) == label_encoding(label@),
{
    match encoding_rs::Encoding::for_label(label) {
        Some(encoding) => Some(encoding.name().to_string()),
        None => None,
    }
}

/// What the start of a stream says of its encoding: `Ok(None)` when it says
/// nothing, `Err(label)` for a label that names no known encoding.
///
/// A byte order mark wins; then `<?` written as UTF-16 units; then the
/// declaration's `encoding`. A UTF-16 label in a declaration that could be
/// read as ASCII is a mislabelled single-byte document, read as UTF-8.
pub open spec fn sniffed(p: Seq<u8>, label_name: Seq<char>) -> Result<Option<Seq<char>>, Seq<char>> {
    if bom_encoding(p) is Some {
        Ok(bom_encoding(p))
    } else if bytes_at(p, 0, seq![0x3Cu8, 0x00u8, 0x3Fu8, 0x00u8]) {
        Ok(Some("UTF-16LE"@))
    } else if bytes_at(p, 0, seq![0x00u8, 0x3Cu8, 0x00u8, 0x3Fu8]) {
        Ok(Some("UTF-16BE"@))
    } else {
        match declared_label_range(p) {
            None => Ok(None),
            Some((s, e)) => match label_encoding(p.subrange(s, e)) {
                Some(name) => if name == "UTF-16LE"@ || name == "UTF-16BE"@ {
                    Ok(Some("UTF-8"@))
                } else {
                    Ok(Some(name))
                },
                None => Err(label_name),
            },
        }
    }
}

/// The encoding the start of a stream announces; `Err` holds an unknown
/// label, invalid UTF-8 in it replaced.
pub fn sniff_encoding(prefix: &[u8]) -> (r: Result<Option<String>, String>)
    ensures
        match r {
            Ok(o) => sniffed(prefix@, Seq::empty()) == Ok::<Option<Seq<char>>, Seq<char>>(opt_string_view(o)),
            Err(l) => sniffed(prefix@, l@) == Err::<Option<Seq<char>>, Seq<char>>(l@) && (match declared_label_range(prefix@) {
                Some((s, e)) => vstd::utf8::valid_utf8(prefix@.subrange(s, e)) ==> vstd::utf8::encode_utf8(l@) == prefix@.subrange(s, e),
                None => false,
            }),
        },
{
    match for_bom(prefix) {
        Some(name) => return Ok(Some(name)),
        None => {},
    }
    let le: [u8; 4] = [0x3Cu8, 0x00u8, 0x3Fu8, 0x00u8];
    let be: [u8; 4] = [0x00u8, 0x3Cu8, 0x00u8, 0x3Fu8];
    assert(le@ == seq![0x3Cu8, 0x00u8, 0x3Fu8, 0x00u8]);
    assert(be@ == seq![0x00u8, 0x3Cu8, 0x00u8, 0x3Fu8]);
    if bytes_at_exec(prefix, 0, &le) {
        return Ok(Some(string_of(&chars_of("UTF-16LE"))));
    }
    if bytes_at_exec(prefix, 0, &be) {
        return Ok(Some(string_of(&chars_of("UTF-16BE"))));
    }
    let (s, e) = match declared_label(prefix) {
        Some(range) => range,
        None => return Ok(None),
    };
    let label = copy_range(prefix, s, e);
    match encoding_for_label(&label) {
        Some(name) => {
            if str_eq(name.as_str(), "UTF-16LE") || str_eq(name.as_str(), "UTF-16BE") {
                Ok(Some(string_of(&chars_of("UTF-8"))))
            } else {
                Ok(Some(name))
            }
        },
        None => Err(lossy_string(&label)),
    }
}

fn copy_range(p: &[u8], s: usize, e: usize) -> (r: Vec<u8>)
    requires
        s <= e <= p@.len(),
    ensures
        r@ == p@.subrange(s as int, e as int),
{
    let mut out: Vec<u8> = Vec::new();
    let mut i = s;
    while i < e
        invariant
            s <= i <= e <= p@.len(),
            out@ == p@.subrange(s as int, i as int),
        decreases e - i,
    {
        out.push(p[i]);
        assert(p@.subrange(s as int, i + 1) == p@.subrange(s as int, i as int).push(p@[i as int]));
        i = i + 1;
    }
    out
}

/// The encoding to read a stream in: what its start announces, UTF-8 when
/// it announces nothing or names an unknown encoding.
pub fn detect_encoding(prefix: &[u8]) -> (r: String)
    ensures
        match sniffed(prefix@, Seq::empty()) {
            Ok(Some(name)) => r@ == name,
            _ => r@ == "UTF-8"@,
        },
{
    match sniff_encoding(prefix) {
        Ok(Some(name)) => name,
        _ => string_of(&chars_of("UTF-8")),
    }
}

} // verus!
