//! Attributes of a start tag as the splitter reads them, and the
//! conversions between bytes, text and escaped text that it needs.

use vstd::prelude::*;
use vstd::utf8::{encode_utf8, valid_utf8};

use crate::reader::reference_text;
use crate::text::{append, first_index_of, is_ascii_space, is_space, string_from};

verus! {

/// The first index from `i` on that is not white space.
pub open spec fn skip_spaces(t: Seq<char>, i: int) -> int
    decreases t.len() - i,
{
    if i < 0 || i >= t.len() {
        i
    } else if is_ascii_space(t[i]) {
        skip_spaces(t, i + 1)
    } else {
        i
    }
}

/// The end of an attribute name that starts at `i`: `=` or white space.
pub open spec fn key_end(t: Seq<char>, i: int) -> int
    decreases t.len() - i,
{
    if i < 0 || i >= t.len() {
        i
    } else if t[i] == '=' || is_ascii_space(t[i]) {
        i
    } else {
        key_end(t, i + 1)
    }
}

/// The index of the quote `q` that ends a value starting at `i`.
pub open spec fn value_end(t: Seq<char>, i: int, q: char) -> int
    decreases t.len() - i,
{
    if i < 0 || i >= t.len() {
        i
    } else if t[i] == q {
        i
    } else {
        value_end(t, i + 1, q)
    }
}

/// How an attribute list can be malformed; each names the attribute.
pub enum AttributeError {
    NoValue(Seq<char>),
    Unquoted(Seq<char>),
    Unterminated(Seq<char>),
}

/// The message of a malformed attribute.
pub open spec fn attribute_error_text(e: AttributeError) -> Seq<char> {
    match e {
        AttributeError::NoValue(k) => "attribute `"@ + k + "` has no value"@,
        AttributeError::Unquoted(k) => "attribute `"@ + k + "` has an unquoted value"@,
        AttributeError::Unterminated(k) => "attribute `"@ + k + "` has an unterminated value"@,
    }
}

/// `prefix` followed by the attributes of `rest`, or the error of `rest`.
pub open spec fn prepend(
    prefix: Seq<(Seq<char>, Seq<char>)>,
    rest: Result<Seq<(Seq<char>, Seq<char>)>, AttributeError>,
) -> Result<Seq<(Seq<char>, Seq<char>)>, AttributeError> {
    match rest {
        Ok(attributes) => Ok(prefix + attributes),
        Err(e) => Err(e),
    }
}

/// `name="value"` pairs from index `i` of the text after an element name,
/// with values as written (escaped): white space between attributes, around
/// `=`, and values in single or double quotes.
pub open spec fn attributes_from(t: Seq<char>, i: int) -> Result<Seq<(Seq<char>, Seq<char>)>, AttributeError>
    decreases t.len() - i,
{
    let start = skip_spaces(t, i);
    if i < 0 || start < i || start >= t.len() {
        Ok(Seq::empty())
    } else {
        let ke = key_end(t, start);
        let key = t.subrange(start, ke);
        let eq = skip_spaces(t, ke);
        if ke < start || eq < ke || eq >= t.len() || t[eq] != '=' {
            Err(AttributeError::NoValue(key))
        } else {
            let open = skip_spaces(t, eq + 1);
            if open <= eq || open >= t.len() || (t[open] != '"' && t[open] != '\'') {
                Err(AttributeError::Unquoted(key))
            } else {
                let close = value_end(t, open + 1, t[open]);
                if close <= open || close >= t.len() {
                    Err(AttributeError::Unterminated(key))
                } else {
                    prepend(
                        seq![(key, t.subrange(open + 1, close))],
                        attributes_from(t, close + 1),
                    )
                }
            }
        }
    }
}

proof fn lemma_skip_spaces(t: Seq<char>, i: int)
    requires
        0 <= i <= t.len(),
    ensures
        i <= skip_spaces(t, i) <= t.len(),
        skip_spaces(t, i) < t.len() ==> !is_ascii_space(t[skip_spaces(t, i)]),
        forall|j: int| i <= j < skip_spaces(t, i) ==> is_ascii_space(#[trigger] t[j]),
    decreases t.len() - i,
{
    if i < t.len() && is_ascii_space(t[i]) {
        lemma_skip_spaces(t, i + 1);
    }
}

fn skip_spaces_exec(t: &[char], i: usize) -> (r: usize)
    requires
        i <= t@.len(),
    ensures
        r == skip_spaces(t@, i as int),
        i <= r <= t@.len(),
{
    proof {
        lemma_skip_spaces(t@, i as int);
    }
    let mut j = i;
    while j < t.len() && is_space(t[j])
        invariant
            i <= j <= t@.len(),
            skip_spaces(t@, i as int) == skip_spaces(t@, j as int),
        decreases t.len() - j,
    {
        j = j + 1;
    }
    j
}

/// The attributes of a start tag, from the text after the element name.
/// Values are returned as written (escaped).
pub fn parse_attributes(t: &[char]) -> (r: Result<Vec<(String, String)>, String>)
    ensures
        match r {
            Ok(attributes) => attributes_from(t@, 0) matches Ok(expected) && attributes@.len() == expected.len()
                && forall|k: int| 0 <= k < expected.len() ==> (#[trigger] attributes@[k].0@, attributes@[k].1@)
                == expected[k],
            Err(message) => attributes_from(t@, 0) matches Err(e) && message@ == attribute_error_text(e),
        },
{
    let mut out: Vec<(String, String)> = Vec::new();
    let ghost mut found: Seq<(Seq<char>, Seq<char>)> = Seq::empty();
    let mut i: usize = 0;
    loop
        invariant
            i <= t@.len(),
            out@.len() == found.len(),
            forall|k: int| 0 <= k < found.len() ==> (#[trigger] out@[k].0@, out@[k].1@) == found[k],
            attributes_from(t@, 0) == prepend(found, attributes_from(t@, i as int)),
        decreases t@.len() - i,
    {
        let start = skip_spaces_exec(t, i);
        if start >= t.len() {
            assert(attributes_from(t@, i as int) matches Ok(a) && a.len() == 0);
            assert(found + Seq::<(Seq<char>, Seq<char>)>::empty() =~= found);
            return Ok(out);
        }
        let mut ke = start;
        while ke < t.len() && t[ke] != '=' && !is_space(t[ke])
            invariant
                start <= ke <= t@.len(),
                key_end(t@, start as int) == key_end(t@, ke as int),
            decreases t.len() - ke,
        {
            ke = ke + 1;
        }
        let eq = skip_spaces_exec(t, ke);
        if eq >= t.len() || t[eq] != '=' {
            return Err(attribute_message(0, t, start, ke));
        }
        let open = skip_spaces_exec(t, eq + 1);
        if open >= t.len() || (t[open] != '"' && t[open] != '\'') {
            return Err(attribute_message(1, t, start, ke));
        }
        let q = t[open];
        let mut close = open + 1;
        while close < t.len() && t[close] != q
            invariant
                open + 1 <= close <= t@.len(),
                value_end(t@, open + 1, q) == value_end(t@, close as int, q),
            decreases t.len() - close,
        {
            close = close + 1;
        }
        if close >= t.len() {
            return Err(attribute_message(2, t, start, ke));
        }
        let key = string_from(t, start, ke);
        let value = string_from(t, open + 1, close);
        let ghost entry = (t@.subrange(start as int, ke as int), t@.subrange(open + 1, close as int));
        proof {
            assert(prepend(found, prepend(seq![entry], attributes_from(t@, close + 1))) == prepend(
                found.push(entry),
                attributes_from(t@, close + 1),
            )) by {
                assert(found + seq![entry] =~= found.push(entry));
                match attributes_from(t@, close + 1) {
                    Ok(rest) => {
                        assert(found + (seq![entry] + rest) =~= found.push(entry) + rest);
                    },
                    Err(_) => {},
                }
            }
            found = found.push(entry);
        }
        out.push((key, value));
        i = close + 1;
    }
}

/// The message of a malformed attribute: no value (0), an unquoted value
/// (1) or an unterminated one (2), naming the attribute `t[start..end]`.
fn attribute_message(kind: u8, t: &[char], start: usize, end: usize) -> (r: String)
    requires
        start <= end <= t@.len(),
        kind < 3,
    ensures
        r@ == attribute_error_text(
            if kind == 0 {
                AttributeError::NoValue(t@.subrange(start as int, end as int))
            } else if kind == 1 {
                AttributeError::Unquoted(t@.subrange(start as int, end as int))
            } else {
                AttributeError::Unterminated(t@.subrange(start as int, end as int))
            },
        ),
{
    let mut out = String::new();
    append(&mut out, "attribute `");
    let key = string_from(t, start, end);
    append(&mut out, key.as_str());
    if kind == 0 {
        append(&mut out, "` has no value");
    } else if kind == 1 {
        append(&mut out, "` has an unquoted value");
    } else {
        append(&mut out, "` has an unterminated value");
    }
    out
}

/// A value with its references expanded, reading from the first `&`: each
/// `&` must end at the next `;` (before any other `&`) and name a
/// predefined entity or a character (`reference_text`); `None` otherwise.
pub open spec fn expanded(value: Seq<char>) -> Option<Seq<char>>
    decreases value.len(),
{
    match first_index_of(value, '&') {
        None => Some(value),
        Some(i) => {
            let rest = value.skip(i + 1);
            let amp = first_index_of(rest, '&');
            match first_index_of(rest, ';') {
                Some(j) => if 0 <= j < rest.len() && 0 <= i < value.len() && (amp matches Some(a) ==> j < a) {
                    match (reference_text(rest.take(j)), expanded(rest.skip(j + 1))) {
                        (Some(t), Some(u)) => Some(value.take(i) + t + u),
                        _ => None,
                    }
                } else {
                    None
                },
                None => None,
            }
        },
    }
}

/// What `quick_xml::escape::unescape` makes of an attribute value, kept as
/// written where it refuses a reference: entity and character references
/// expanded.
pub open spec fn xml_unescaped(value: Seq<char>) -> Seq<char> {
    match expanded(value) {
        Some(u) => u,
        None => value,
    }
}

/// Expand entity and character references in an attribute value; an
/// invalid reference leaves the value as written.
///
/// Calls `quick_xml::escape::unescape`. The contract names its result, and
/// states what its source shows: a value without `&` comes back unchanged.
/// What happens to a value whose references are invalid (it is returned as
/// written) is part of the name, not stated.
#[verifier::external_body]
pub(crate) fn unescape(value: &str) -> (r: String)
    ensures
        r@ == xml_unescaped(value@),
        !value@.contains('&') ==> r@ == value@,
{
    match quick_xml::escape::unescape(value) {
        Ok(v) => v.into_owned(),
        Err(_) => value.to_string(),
    }
}

/// The text of UTF-8 bytes (`String::from_utf8`); `None` if they are not
/// valid UTF-8.
#[verifier::external_body]
pub(crate) fn utf8_string(bytes: &[u8]) -> (r: Option<String>)
    ensures
        r is Some <==> valid_utf8(bytes@),
        r matches Some(s) ==> encode_utf8(s@) == bytes@,
{
    String::from_utf8(bytes.to_vec()).ok()
}

/// The text of bytes, invalid UTF-8 sequences replaced by U+FFFD
/// (`String::from_utf8_lossy`).
#[verifier::external_body]
pub(crate) fn lossy_string(bytes: &[u8]) -> (r: String)
    ensures
        valid_utf8(bytes@) ==> encode_utf8(r@) == bytes@,
{
    String::from_utf8_lossy(bytes).into_owned()
}

} // verus!
