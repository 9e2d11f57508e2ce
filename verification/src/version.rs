//! GML version detection.
//!
//! GML 2 and 3.1 share a namespace, so the version is derived from
//! `xsi:schemaLocation`, the WFS version/output format, and the elements seen.

use vstd::prelude::*;

use crate::ns;
use crate::text::{
    ascii_lower, chars_of, find_from, first_occurrence_from, is_ascii_space, lemma_first_occurrence, slice_of, is_space,
    opt_string_view, starts_with, starts_with_exec, str_eq, to_ascii_lower,
};

verus! {

/// GML version of a document.
#[derive(Debug, Clone, Copy, PartialEq, Eq, Hash, PartialOrd, Ord, Structural)]
pub enum GmlVersion {
    V2,
    V3_0,
    V3_1,
    V3_2,
}

/// Encoding style of one geometry element, decided per element from the tags
/// used (not from the document header).
#[derive(Debug, Clone, Copy, PartialEq, Eq, Hash, PartialOrd, Ord, Structural)]
pub enum Dialect {
    /// `coordinates`/`coord` carriers, `outerBoundaryIs`, `Box`, GML 2 properties.
    Gml2,
    /// `pos`, `posList`, `exterior`, `Curve`, `Surface`, `Envelope`, 3.2 namespace, …
    Gml3,
}

/// Evidence collected while reading, turned into a version guess.
#[derive(Debug, Clone)]
pub struct VersionHints {
    pub gml_namespace: Option<String>,
    pub schema_location: Option<String>,
    pub wfs_version: Option<String>,
    pub output_format: Option<String>,
    pub saw_gml2_elements: bool,
    pub saw_gml3_elements: bool,
    /// `posList@dimension` is GML 3.0 only.
    pub saw_poslist_dimension: bool,
}

impl Default for VersionHints {
    fn default() -> (r: VersionHints)
        ensures
            r.gml_namespace is None,
            r.schema_location is None,
            r.wfs_version is None,
            r.output_format is None,
            !r.saw_gml2_elements,
            !r.saw_gml3_elements,
            !r.saw_poslist_dimension,
    {
        VersionHints {
            gml_namespace: None,
            schema_location: None,
            wfs_version: None,
            output_format: None,
            saw_gml2_elements: false,
            saw_gml3_elements: false,
            saw_poslist_dimension: false,
        }
    }
}

/// The characters `str::trim` removes: those with the Unicode `White_Space`
/// property.
pub open spec fn is_white_space(c: char) -> bool {
    ('\u{9}' <= c <= '\u{d}') || c == ' ' || c == '\u{85}' || c == '\u{a0}' || c == '\u{1680}' || (
    '\u{2000}' <= c <= '\u{200a}') || c == '\u{2028}' || c == '\u{2029}' || c == '\u{202f}' || c
        == '\u{205f}' || c == '\u{3000}'
}

/// The number of leading characters of `s` from `i` on that satisfy white space.
pub open spec fn white_prefix_end(s: Seq<char>, i: int) -> int
    decreases s.len() - i,
{
    if i < 0 || i >= s.len() {
        i
    } else if is_white_space(s[i]) {
        white_prefix_end(s, i + 1)
    } else {
        i
    }
}

/// `s` without the white space at its end, scanning down from `j`.
pub open spec fn white_suffix_start(s: Seq<char>, j: int) -> int
    decreases j,
{
    if j <= 0 || j > s.len() {
        j
    } else if is_white_space(s[j - 1]) {
        white_suffix_start(s, j - 1)
    } else {
        j
    }
}

/// `s` without leading and trailing white space (`str::trim`).
pub open spec fn trimmed(s: Seq<char>) -> Seq<char> {
    let start = white_prefix_end(s, 0);
    let end = white_suffix_start(s, s.len() as int);
    if start >= end {
        Seq::empty()
    } else {
        s.subrange(start, end)
    }
}

/// The first index from `i` on that is not a quote.
pub open spec fn quotes_end(s: Seq<char>, i: int) -> int
    decreases s.len() - i,
{
    if i < 0 || i >= s.len() {
        i
    } else if s[i] == '"' || s[i] == '\'' {
        quotes_end(s, i + 1)
    } else {
        i
    }
}

/// The GML version a text such as `3.1.1/base/gml.xsd` or `2` starts with,
/// after any quotes.
pub open spec fn version_prefix_spec(text: Seq<char>) -> Option<GmlVersion> {
    let t = text.subrange(quotes_end(text, 0), text.len() as int);
    if starts_with(t, "3.2"@) {
        Some(GmlVersion::V3_2)
    } else if starts_with(t, "3.1"@) {
        Some(GmlVersion::V3_1)
    } else if starts_with(t, "3.0"@) {
        Some(GmlVersion::V3_0)
    } else if starts_with(t, "3"@) {
        Some(GmlVersion::V3_1)
    } else if starts_with(t, "2"@) {
        Some(GmlVersion::V2)
    } else {
        None
    }
}

/// The end of the token that starts at `i`: the next ASCII white space.
pub open spec fn token_end(s: Seq<char>, i: int) -> int
    decreases s.len() - i,
{
    if i < 0 || i >= s.len() {
        i
    } else if is_ascii_space(s[i]) {
        i
    } else {
        token_end(s, i + 1)
    }
}

/// A token ends at or after its start and within the text.
pub proof fn lemma_token_end(s: Seq<char>, i: int)
    requires
        0 <= i <= s.len(),
    ensures
        i <= token_end(s, i) <= s.len(),
        i < s.len() && !is_ascii_space(s[i]) ==> i < token_end(s, i),
        token_end(s, i) < s.len() ==> is_ascii_space(s[token_end(s, i)]),
    decreases s.len() - i,
{
    if i < s.len() && !is_ascii_space(s[i]) {
        lemma_token_end(s, i + 1);
    }
}

/// The version of a schema URL: what follows its first `/gml/`.
pub open spec fn url_version(url: Seq<char>) -> Option<GmlVersion> {
    match first_occurrence_from(url, "/gml/"@, 0) {
        Some(k) => version_prefix_spec(url.subrange(k + "/gml/"@.len(), url.len() as int)),
        None => None,
    }
}

/// The version of the first white-space separated URL from `i` on that names one.
pub open spec fn schema_location_version_from(s: Seq<char>, i: int) -> Option<GmlVersion>
    decreases s.len() - i,
{
    if i < 0 || i >= s.len() {
        None
    } else if is_ascii_space(s[i]) {
        schema_location_version_from(s, i + 1)
    } else {
        let e = token_end(s, i);
        if e <= i || e > s.len() {
            None
        } else {
            match url_version(s.subrange(i, e)) {
                Some(v) => Some(v),
                None => schema_location_version_from(s, e),
            }
        }
    }
}

/// A `…/gml/<version>/…` schema URL in `xsi:schemaLocation`.
pub open spec fn schema_location_version(s: Seq<char>) -> Option<GmlVersion> {
    schema_location_version_from(s, 0)
}

/// The version after the first occurrence of `marker` at or after `from`
/// that is followed by one.
pub open spec fn marker_version_from(s: Seq<char>, marker: Seq<char>, from: int) -> Option<GmlVersion>
    decreases s.len() + 1 - from,
{
    match first_occurrence_from(s, marker, from) {
        Some(i) => if i < from || i > s.len() {
            None
        } else {
            match version_prefix_spec(s.subrange(i + marker.len(), s.len() as int)) {
                Some(v) => Some(v),
                None => marker_version_from(s, marker, i + 1),
            }
        },
        None => None,
    }
}

/// `text/xml; subtype=gml/3.1.1`, `application/gml+xml; version=3.2`, `GML2`:
/// the markers `gml/`, `version=` and `gml` in this order, case-insensitive.
pub open spec fn output_format_version(format: Seq<char>) -> Option<GmlVersion> {
    let f = ascii_lower(format);
    match marker_version_from(f, "gml/"@, 0) {
        Some(v) => Some(v),
        None => match marker_version_from(f, "version="@, 0) {
            Some(v) => Some(v),
            None => marker_version_from(f, "gml"@, 0),
        },
    }
}

/// WFS 1.0 defaults to GML 2, 1.1 to GML 3.1, 2.0 to GML 3.2.
pub open spec fn wfs_version_version(version: Seq<char>) -> Option<GmlVersion> {
    let v = trimmed(version);
    if starts_with(v, "1.0"@) {
        Some(GmlVersion::V2)
    } else if starts_with(v, "1.1"@) {
        Some(GmlVersion::V3_1)
    } else if starts_with(v, "2."@) {
        Some(GmlVersion::V3_2)
    } else {
        None
    }
}

/// The evidence in order of strength.
pub open spec fn detected(h: VersionHints) -> Option<GmlVersion> {
    let schema = match h.schema_location {
        Some(s) => schema_location_version(s@),
        None => None,
    };
    let format = match h.output_format {
        Some(s) => output_format_version(s@),
        None => None,
    };
    let wfs = match h.wfs_version {
        Some(s) => wfs_version_version(s@),
        None => None,
    };
    if opt_string_view(h.gml_namespace) == Some(ns::GML_32@) {
        Some(GmlVersion::V3_2)
    } else if schema is Some {
        schema
    } else if format is Some {
        format
    } else if wfs is Some {
        wfs
    } else if h.saw_gml3_elements {
        if h.saw_poslist_dimension {
            Some(GmlVersion::V3_0)
        } else {
            Some(GmlVersion::V3_1)
        }
    } else if h.saw_gml2_elements {
        Some(GmlVersion::V2)
    } else {
        None
    }
}

impl VersionHints {
    /// The evidence in order of strength: the 3.2 namespace, the
    /// `xsi:schemaLocation` of the GML schema, the WFS output format and
    /// version, and finally the elements seen.
    pub fn detect(&self) -> (r: Option<GmlVersion>)
        ensures
            r == detected(*self),
    {
        if let Some(uri) = &self.gml_namespace {
            if str_eq(uri.as_str(), ns::GML_32) {
                return Some(GmlVersion::V3_2);
            }
        }
        if let Some(location) = &self.schema_location {
            if let Some(version) = from_schema_location(location.as_str()) {
                return Some(version);
            }
        }
        if let Some(format) = &self.output_format {
            if let Some(version) = from_output_format(format.as_str()) {
                return Some(version);
            }
        }
        if let Some(version) = &self.wfs_version {
            if let Some(version) = from_wfs_version(version.as_str()) {
                return Some(version);
            }
        }
        if self.saw_gml3_elements {
            return Some(
                if self.saw_poslist_dimension {
                    GmlVersion::V3_0
                } else {
                    GmlVersion::V3_1
                },
            );
        }
        if self.saw_gml2_elements {
            return Some(GmlVersion::V2);
        }
        None
    }
}

/// A `…/gml/<version>/…` schema URL in `xsi:schemaLocation`.
fn from_schema_location(location: &str) -> (r: Option<GmlVersion>)
    ensures
        r == schema_location_version(location@),
{
    let s = chars_of(location);
    let marker = chars_of("/gml/");
    proof {
        reveal_strlit("/gml/");
    }
    let mut i: usize = 0;
    while i < s.len()
        invariant
            i <= s@.len(),
            marker@ == "/gml/"@,
            s@ == location@,
            schema_location_version(s@) == schema_location_version_from(s@, i as int),
        decreases s.len() - i,
    {
        if is_space(s[i]) {
            i = i + 1;
        } else {
            let mut e = i;
            while e < s.len() && !is_space(s[e])
                invariant
                    i <= e <= s@.len(),
                    token_end(s@, i as int) == token_end(s@, e as int),
                decreases s.len() - e,
            {
                e = e + 1;
            }
            proof {
                lemma_token_end(s@, i as int);
                assert(token_end(s@, e as int) == e);
            }
            let url = slice_of(s.as_slice(), i, e);
            proof {
                lemma_first_occurrence(url@, marker@, 0);
            }
            match find_from(url.as_slice(), marker.as_slice(), 0) {
                Some(k) => {
                    let rest = slice_of(url.as_slice(), k + marker.len(), url.len());
                    if let Some(version) = version_prefix(rest.as_slice()) {
                        assert(url_version(url@) == Some(version));
                        assert(token_end(s@, i as int) == e);
                        assert(schema_location_version_from(s@, i as int) == Some(version));
                        return Some(version);
                    }
                },
                None => {},
            }
            i = e;
        }
    }
    None
}

/// `text/xml; subtype=gml/3.1.1`, `application/gml+xml; version=3.2`, `GML2`.
fn from_output_format(format: &str) -> (r: Option<GmlVersion>)
    ensures
        r == output_format_version(format@),
{
    let chars = chars_of(format);
    let lower = to_ascii_lower(chars.as_slice());
    proof {
        reveal_strlit("gml/");
        reveal_strlit("version=");
        reveal_strlit("gml");
    }
    let m1 = chars_of("gml/");
    if let Some(v) = marker_version(lower.as_slice(), m1.as_slice()) {
        return Some(v);
    }
    let m2 = chars_of("version=");
    if let Some(v) = marker_version(lower.as_slice(), m2.as_slice()) {
        return Some(v);
    }
    let m3 = chars_of("gml");
    marker_version(lower.as_slice(), m3.as_slice())
}

/// The version after the first occurrence of `marker` that is followed by one.
fn marker_version(s: &[char], marker: &[char]) -> (r: Option<GmlVersion>)
    ensures
        r == marker_version_from(s@, marker@, 0),
{
    let n = s.len();
    let mut from: usize = 0;
    loop
        invariant
            from <= s@.len() + 1,
            n == s@.len(),
            marker_version_from(s@, marker@, 0) == marker_version_from(s@, marker@, from as int),
        decreases s@.len() + 1 - from,
    {
        proof {
            lemma_first_occurrence(s@, marker@, from as int);
        }
        match find_from(s, marker, from) {
            Some(i) => {
                let rest = slice_of(s, i + marker.len(), s.len());
                match version_prefix(rest.as_slice()) {
                    Some(v) => return Some(v),
                    None => {
                        if i == n {
                            assert(first_occurrence_from(s@, marker@, i + 1) is None);
                            assert(marker_version_from(s@, marker@, i + 1) is None);
                            assert(marker_version_from(s@, marker@, from as int) is None);
                            return None;
                        }
                        from = i + 1;
                    },
                }
            },
            None => return None,
        }
    }
}

/// WFS 1.0 defaults to GML 2, 1.1 to GML 3.1, 2.0 to GML 3.2.
fn from_wfs_version(version: &str) -> (r: Option<GmlVersion>)
    ensures
        r == wfs_version_version(version@),
{
    let chars = chars_of(version);
    let v = trim(chars.as_slice());
    proof {
        reveal_strlit("1.0");
        reveal_strlit("1.1");
        reveal_strlit("2.");
    }
    if starts_with_exec(v.as_slice(), chars_of("1.0").as_slice()) {
        Some(GmlVersion::V2)
    } else if starts_with_exec(v.as_slice(), chars_of("1.1").as_slice()) {
        Some(GmlVersion::V3_1)
    } else if starts_with_exec(v.as_slice(), chars_of("2.").as_slice()) {
        Some(GmlVersion::V3_2)
    } else {
        None
    }
}

/// `true` for a character with the Unicode `White_Space` property.
pub fn is_white_space_exec(c: char) -> (r: bool)
    ensures
        r == is_white_space(c),
{
    ('\u{9}' <= c && c <= '\u{d}') || c == ' ' || c == '\u{85}' || c == '\u{a0}' || c == '\u{1680}'
        || ('\u{2000}' <= c && c <= '\u{200a}') || c == '\u{2028}' || c == '\u{2029}' || c == '\u{202f}'
        || c == '\u{205f}' || c == '\u{3000}'
}

/// `s` without leading and trailing white space.
pub fn trim(s: &[char]) -> (r: Vec<char>)
    ensures
        r@ == trimmed(s@),
{
    let mut start: usize = 0;
    while start < s.len() && is_white_space_exec(s[start])
        invariant
            start <= s@.len(),
            white_prefix_end(s@, 0) == white_prefix_end(s@, start as int),
        decreases s.len() - start,
    {
        start = start + 1;
    }
    let mut end: usize = s.len();
    while end > 0 && is_white_space_exec(s[end - 1])
        invariant
            end <= s@.len(),
            white_suffix_start(s@, s@.len() as int) == white_suffix_start(s@, end as int),
        decreases end,
    {
        end = end - 1;
    }
    if start >= end {
        Vec::new()
    } else {
        slice_of(s, start, end)
    }
}

/// The GML version a text such as `3.1.1/base/gml.xsd` or `2` starts with.
fn version_prefix(text: &[char]) -> (r: Option<GmlVersion>)
    ensures
        r == version_prefix_spec(text@),
{
    let mut start: usize = 0;
    while start < text.len() && (text[start] == '"' || text[start] == '\'')
        invariant
            start <= text@.len(),
            quotes_end(text@, 0) == quotes_end(text@, start as int),
        decreases text.len() - start,
    {
        start = start + 1;
    }
    let t = slice_of(text, start, text.len());
    proof {
        reveal_strlit("3.2");
        reveal_strlit("3.1");
        reveal_strlit("3.0");
        reveal_strlit("3");
        reveal_strlit("2");
    }
    if starts_with_exec(t.as_slice(), chars_of("3.2").as_slice()) {
        Some(GmlVersion::V3_2)
    } else if starts_with_exec(t.as_slice(), chars_of("3.1").as_slice()) {
        Some(GmlVersion::V3_1)
    } else if starts_with_exec(t.as_slice(), chars_of("3.0").as_slice()) {
        Some(GmlVersion::V3_0)
    } else if starts_with_exec(t.as_slice(), chars_of("3").as_slice()) {
        Some(GmlVersion::V3_1)
    } else if starts_with_exec(t.as_slice(), chars_of("2").as_slice()) {
        Some(GmlVersion::V2)
    } else {
        None
    }
}

/// The WFS version maps to the GML version it defaults to: 1.0 to GML 2,
/// 1.1 to GML 3.1, 2.x to GML 3.2, read from the version text trimmed.
pub proof fn law_wfs_version_defaults(v: Seq<char>)
    ensures
        starts_with(trimmed(v), "1.0"@) ==> wfs_version_version(v) == Some(GmlVersion::V2),
        starts_with(trimmed(v), "1.1"@) ==> wfs_version_version(v) == Some(GmlVersion::V3_1),
        starts_with(trimmed(v), "2."@) ==> wfs_version_version(v) == Some(GmlVersion::V3_2),
{
    reveal_strlit("1.0");
    reveal_strlit("1.1");
    reveal_strlit("2.");
    let t = trimmed(v);
    if starts_with(t, "1.1"@) {
        assert(t.subrange(0, 3) == "1.1"@);
        assert(t[2] == t.subrange(0, 3)[2]);
        assert(!starts_with(t, "1.0"@)) by {
            if starts_with(t, "1.0"@) {
                assert(t.subrange(0, 3)[2] == '0');
            }
        }
    }
    if starts_with(t, "2."@) {
        assert(t.subrange(0, 2) == "2."@);
        assert(t[0] == t.subrange(0, 2)[0]);
        assert(!starts_with(t, "1.0"@)) by {
            if starts_with(t, "1.0"@) {
                assert(t.subrange(0, 3)[0] == '1');
            }
        }
        assert(!starts_with(t, "1.1"@)) by {
            if starts_with(t, "1.1"@) {
                assert(t.subrange(0, 3)[0] == '1');
            }
        }
    }
}

/// With a WFS version as the only evidence (and a GML namespace other than
/// GML 3.2's), the version is the one that WFS version defaults to: a WFS
/// 1.1 response is GML 3.1.
pub proof fn law_detect_by_wfs_version(h: VersionHints)
    requires
        opt_string_view(h.gml_namespace) != Some(ns::GML_32@),
        h.schema_location is None,
        h.output_format is None,
        h.wfs_version is Some,
    ensures
        starts_with(trimmed(h.wfs_version->0@), "1.1"@) ==> detected(h) == Some(GmlVersion::V3_1),
        starts_with(trimmed(h.wfs_version->0@), "1.0"@) ==> detected(h) == Some(GmlVersion::V2),
        starts_with(trimmed(h.wfs_version->0@), "2."@) ==> detected(h) == Some(GmlVersion::V3_2),
{
    law_wfs_version_defaults(h.wfs_version->0@);
}

} // verus!
