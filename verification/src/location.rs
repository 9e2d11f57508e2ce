//! Positions in the input, for errors and warnings.

use vstd::prelude::*;

use crate::text::{append, push_char};

verus! {

/// The decimal digits of `n`, most significant first.
pub open spec fn decimal(n: nat) -> Seq<char>
    decreases n,
{
    if n < 10 {
        seq![digit_char(n)]
    } else {
        decimal(n / 10) + seq![digit_char(n % 10)]
    }
}

/// The digit character of `d < 10`.
pub open spec fn digit_char(d: nat) -> char {
    ((d + 48) as u32) as char
}

/// `n` in decimal notation.
pub fn decimal_string(n: u64) -> (r: String)
    ensures
        r@ == decimal(n as nat),
    decreases n,
{
    if n < 10 {
        let mut out = String::new();
        push_char(&mut out, digit(n));
        out
    } else {
        let mut out = decimal_string(n / 10);
        push_char(&mut out, digit(n % 10));
        out
    }
}

/// The character of the decimal digit `d`.
fn digit(d: u64) -> (c: char)
    requires
        d < 10,
    ensures
        c == digit_char(d as nat),
{
    ((d as u8) + 48u8) as char
}

/// Index of a source within one scan or read, in the order sources were consumed.
#[derive(Debug, Clone, Copy, PartialEq, Eq, Hash, PartialOrd, Ord, Structural)]
pub struct SourceId(pub u32);

/// `source #n`.
pub open spec fn source_name(id: SourceId) -> Seq<char> {
    "source #"@ + decimal(id.0 as nat)
}

impl SourceId {
    /// `source #n`, as messages name a source.
    pub fn describe(&self) -> (r: String)
        ensures
            r@ == source_name(*self),
    {
        let mut out = String::new();
        append(&mut out, "source #");
        let n = decimal_string(self.0 as u64);
        append(&mut out, n.as_str());
        out
    }
}

/// A position in the input, used in errors, warnings and evidence.
#[derive(Debug, Clone, PartialEq, Eq)]
pub struct Location {
    pub source: SourceId,
    /// Byte offset in the decoded (UTF-8) stream.
    pub byte_offset: u64,
    /// Sequence number of the feature within the source, if known.
    pub feature_seq: Option<u64>,
    /// `gml:id` of the feature, if known.
    pub gml_id: Option<String>,
}

/// `source #n, byte b[, feature f][ (gml:id i)]`.
pub open spec fn location_text(l: Location) -> Seq<char> {
    source_name(l.source) + ", byte "@ + decimal(l.byte_offset as nat) + (match l.feature_seq {
        Some(f) => ", feature "@ + decimal(f as nat),
        None => Seq::empty(),
    }) + (match l.gml_id {
        Some(id) => " (gml:id "@ + id@ + ")"@,
        None => Seq::empty(),
    })
}

impl Location {
    /// The location as messages write it.
    pub fn describe(&self) -> (r: String)
        ensures
            r@ == location_text(*self),
    {
        let mut out = self.source.describe();
        append(&mut out, ", byte ");
        let b = decimal_string(self.byte_offset);
        append(&mut out, b.as_str());
        let ghost middle = out@;
        match self.feature_seq {
            Some(f) => {
                append(&mut out, ", feature ");
                let d = decimal_string(f);
                append(&mut out, d.as_str());
            },
            None => {
                assert(out@ == middle + Seq::<char>::empty());
            },
        }
        let ghost with_feature = out@;
        match &self.gml_id {
            Some(id) => {
                append(&mut out, " (gml:id ");
                append(&mut out, id.as_str());
                append(&mut out, ")");
            },
            None => {
                assert(out@ == with_feature + Seq::<char>::empty());
            },
        }
        out
    }
}

} // verus!
