//! Byte scanning for the splitter: finds markup by its `<` without parsing
//! XML. Comments, CDATA sections and processing instructions are passed over
//! as a whole; a start tag ends at the first `>` outside a quoted attribute
//! value.

use vstd::prelude::*;

verus! {

pub const LT: u8 = 0x3C;
pub const GT: u8 = 0x3E;
pub const SLASH: u8 = 0x2F;
pub const QUESTION: u8 = 0x3F;
pub const BANG: u8 = 0x21;
pub const DASH: u8 = 0x2D;
pub const DQUOTE: u8 = 0x22;
pub const SQUOTE: u8 = 0x27;

/// The bytes of `?>`, `-->` and `]]>`, and the heads of CDATA and DOCTYPE.
pub open spec fn pi_end() -> Seq<u8> { seq![0x3Fu8, 0x3Eu8] }
pub open spec fn comment_end() -> Seq<u8> { seq![0x2Du8, 0x2Du8, 0x3Eu8] }
pub open spec fn cdata_end() -> Seq<u8> { seq![0x5Du8, 0x5Du8, 0x3Eu8] }

/// `u8::is_ascii_whitespace`: space, tab, line feed, form feed, carriage return.
pub open spec fn is_space_byte(b: u8) -> bool {
    b == 0x20u8 || b == 0x09u8 || b == 0x0Au8 || b == 0x0Cu8 || b == 0x0Du8
}

pub fn space_byte(b: u8) -> (r: bool)
    ensures
        r == is_space_byte(b),
{
    b == 0x20u8 || b == 0x09u8 || b == 0x0Au8 || b == 0x0Cu8 || b == 0x0Du8
}

/// What ends an element name in a tag.
pub open spec fn ends_name(b: u8) -> bool {
    is_space_byte(b) || b == SLASH || b == GT
}

#[derive(Debug, Clone, Copy)]
pub enum Kind {
    /// `name_end`: index where the element name ends.
    Start { name_end: usize, empty: bool },
    End,
    /// Comment, CDATA, processing instruction or XML declaration.
    Other,
}

/// One piece of markup: indices into the buffer.
#[derive(Debug, Clone, Copy)]
pub struct Markup {
    pub kind: Kind,
    pub start: usize,
    /// Index just after the closing `>`.
    pub end: usize,
}

/// The shape every piece of markup has.
pub open spec fn markup_ok(buf: Seq<u8>, m: Markup) -> bool {
    &&& m.start < m.end <= buf.len()
    &&& buf[m.start as int] == LT
    &&& buf[m.end - 1] == GT
    &&& match m.kind {
        Kind::Start { name_end, empty } => {
            &&& m.start + 1 <= name_end <= m.end - 1
            &&& buf[m.start + 1] != SLASH && buf[m.start + 1] != BANG && buf[m.start + 1] != QUESTION
            &&& forall|i: int| m.start + 1 <= i < name_end ==> !ends_name(#[trigger] buf[i])
            &&& (empty <==> buf[m.end - 2] == SLASH)
            &&& (empty ==> m.start + 3 <= m.end && name_end <= m.end - 2)
        },
        Kind::End => m.start + 3 <= m.end && buf[m.start + 1] == SLASH,
        Kind::Other => m.start + 1 < m.end && (buf[m.start + 1] == BANG || buf[m.start + 1] == QUESTION),
    }
}

/// Why scanning failed at the end of the input, or on unsupported markup.
#[derive(Debug, Clone, Copy)]
pub enum ScanError {
    /// The input ends inside markup that starts at the index.
    InMarkup(usize),
    /// The input ends inside a start tag that starts at the index.
    InStartTag(usize),
    /// A document type declaration starts at the index.
    Doctype(usize),
    /// An unsupported `<!` declaration starts at the index.
    Declaration(usize),
}

/// The outcome of looking for the next markup.
#[derive(Debug, Clone, Copy)]
pub enum Scanned {
    Found(Markup),
    /// No more markup: the input ended (the index is where scanning stopped).
    NoMore(usize),
    /// The markup, if any, is not complete yet: resume at the index once
    /// more input has arrived.
    NeedInput(usize),
    Failed(ScanError),
}

/// No `<` in `buf[from..to]`.
pub open spec fn no_open(buf: Seq<u8>, from: int, to: int) -> bool {
    forall|i: int| from <= i < to ==> buf[i] != LT
}

/// The index of the first `b` at or after `from`.
pub fn find_byte(buf: &[u8], from: usize, b: u8) -> (r: Option<usize>)
    ensures
        r matches Some(i) ==> from <= i < buf@.len() && buf@[i as int] == b && forall|j: int|
            from <= j < i ==> buf@[j] != b,
        r is None ==> forall|j: int| from <= j < buf@.len() ==> buf@[j] != b,
{
    let mut i = from;
    while i < buf.len()
        invariant
            from <= i,
            forall|j: int| from <= j < i ==> buf@[j] != b,
        decreases buf.len() - i,
    {
        if buf[i] == b {
            return Some(i);
        }
        i = i + 1;
    }
    None
}

/// `pattern` at `buf[at..]`.
pub open spec fn bytes_at(buf: Seq<u8>, at: int, pattern: Seq<u8>) -> bool {
    0 <= at && at + pattern.len() <= buf.len() && buf.subrange(at, at + pattern.len()) == pattern
}

pub fn bytes_at_exec(buf: &[u8], at: usize, pattern: &[u8]) -> (r: bool)
    ensures
        r == bytes_at(buf@, at as int, pattern@),
{
    if at > buf.len() || pattern.len() > buf.len() - at {
        return false;
    }
    let mut i: usize = 0;
    while i < pattern.len()
        invariant
            at + pattern.len() <= buf.len(),
            i <= pattern@.len(),
            forall|j: int| 0 <= j < i ==> buf@[at + j] == pattern@[j],
        decreases pattern.len() - i,
    {
        let k: usize = at + i;
        if buf[k] != pattern[i] {
            assert(buf@.subrange(at as int, at + pattern@.len())[i as int] != pattern@[i as int]);
            return false;
        }
        i = i + 1;
    }
    assert(buf@.subrange(at as int, at + pattern@.len()) =~= pattern@);
    true
}

/// The first index at or after `from` where `pattern` starts.
pub fn find_bytes(buf: &[u8], from: usize, pattern: &[u8]) -> (r: Option<usize>)
    requires
        pattern@.len() > 0,
    ensures
        r matches Some(i) ==> from <= i && bytes_at(buf@, i as int, pattern@),
        r matches Some(i) ==> forall|j: int| from <= j < i ==> !bytes_at(buf@, j, pattern@),
        r is None ==> forall|j: int| from <= j ==> !bytes_at(buf@, j, pattern@),
{
    if pattern.len() > buf.len() {
        return None;
    }
    let last = buf.len() - pattern.len();
    let mut i = from;
    while i <= last
        invariant
            from <= i,
            last + pattern@.len() == buf@.len(),
            forall|j: int| from <= j < i ==> !bytes_at(buf@, j, pattern@),
        decreases last + 1 - i,
    {
        if bytes_at_exec(buf, i, pattern) {
            return Some(i);
        }
        if i == last {
            return None;
        }
        i = i + 1;
    }
    None
}

/// A `<!` declaration or a processing instruction that starts at `p`:
/// comments and CDATA sections run to their own terminators.
fn scan_declaration(buf: &[u8], p: usize, eof: bool) -> (r: Scanned)
    requires
        p + 2 <= buf@.len(),
        buf@[p as int] == LT,
        buf@[p + 1] == BANG || buf@[p + 1] == QUESTION,
    ensures
        r matches Scanned::Found(m) ==> m.start == p && markup_ok(buf@, m) && m.kind is Other,
        r matches Scanned::NeedInput(q) ==> q == p && !eof,
        r is NoMore ==> false,
        r matches Scanned::Failed(e) ==> match e {
            ScanError::InMarkup(i) => i == p && eof && i < buf@.len(),
            ScanError::InStartTag(_) => false,
            ScanError::Doctype(i) => i == p && i < buf@.len(),
            ScanError::Declaration(i) => i == p && i < buf@.len(),
        },
{
    let n = buf.len();
    let incomplete = if eof {
        Scanned::Failed(ScanError::InMarkup(p))
    } else {
        Scanned::NeedInput(p)
    };
    let (terminator, from): (Vec<u8>, usize) = if buf[p + 1] == QUESTION {
        (vec![0x3Fu8, 0x3Eu8], p + 2)
    } else {
        if buf.len() - p < 4 {
            return incomplete;
        }
        if buf[p + 2] == DASH && buf[p + 3] == DASH {
            (vec![0x2Du8, 0x2Du8, 0x3Eu8], p + 4)
        } else {
            if buf.len() - p < 9 {
                return incomplete;
            }
            let cdata: Vec<u8> = vec![0x3Cu8, 0x21u8, 0x5Bu8, 0x43u8, 0x44u8, 0x41u8, 0x54u8, 0x41u8, 0x5Bu8];
            let doctype: Vec<u8> = vec![0x3Cu8, 0x21u8, 0x44u8, 0x4Fu8, 0x43u8, 0x54u8, 0x59u8, 0x50u8, 0x45u8];
            if bytes_at_exec(buf, p, cdata.as_slice()) {
                (vec![0x5Du8, 0x5Du8, 0x3Eu8], p + 9)
            } else if bytes_at_exec(buf, p, doctype.as_slice()) {
                return Scanned::Failed(ScanError::Doctype(p));
            } else {
                return Scanned::Failed(ScanError::Declaration(p));
            }
        }
    };
    assert(terminator@.len() >= 2 && terminator@.last() == GT);
    match find_bytes(buf, from, terminator.as_slice()) {
        Some(i) => {
            let end = i + terminator.len();
            assert(buf@[end - 1] == buf@.subrange(i as int, end as int)[terminator@.len() - 1]);
            Scanned::Found(Markup { kind: Kind::Other, start: p, end })
        },
        None => incomplete,
    }
}

/// Where an element name that continues at `i` ends: at white space, `/`,
/// `>` or the end of the buffer.
pub open spec fn name_end_from(buf: Seq<u8>, i: int) -> int
    decreases buf.len() - i,
{
    if i < 0 || i >= buf.len() || ends_name(buf[i]) {
        i
    } else {
        name_end_from(buf, i + 1)
    }
}

/// The first `>` at or after `i` outside a quoted value, when the scan at
/// `i` is inside the quote `quote` (if any).
pub open spec fn close_from(buf: Seq<u8>, i: int, quote: Option<u8>) -> Option<int>
    decreases buf.len() - i,
{
    if i < 0 || i >= buf.len() {
        None
    } else {
        match quote {
            Some(q) => close_from(buf, i + 1, if buf[i] == q { None } else { quote }),
            None => if buf[i] == GT {
                Some(i)
            } else if buf[i] == DQUOTE || buf[i] == SQUOTE {
                close_from(buf, i + 1, Some(buf[i]))
            } else {
                close_from(buf, i + 1, None)
            },
        }
    }
}

/// The closing `>` of the start tag at `p` and the end of its name: the
/// name ends at white space, `/` or `>`; past it, a `>` inside a quoted
/// attribute value does not close the tag. `None`: the tag is not complete.
pub fn scan_start_tag(buf: &[u8], p: usize) -> (r: Option<(usize, usize)>)
    requires
        p + 1 < buf@.len(),
        buf@[p as int] == LT,
    ensures
        ({
            let name_end = name_end_from(buf@, p + 1);
            r == if name_end >= buf@.len() {
                None
            } else {
                match close_from(buf@, name_end, None) {
                    Some(close) => Some((close as usize, name_end as usize)),
                    None => None,
                }
            }
        }),
        r matches Some((close, name_end)) ==> {
            &&& p + 1 <= name_end <= close < buf@.len()
            &&& buf@[close as int] == GT
            &&& forall|i: int| p + 1 <= i < name_end ==> !ends_name(#[trigger] buf@[i])
            &&& name_end < buf@.len() && ends_name(buf@[name_end as int])
        },
{
    let n = buf.len();
    let mut i = p + 1;
    while i < buf.len() && !(space_byte(buf[i]) || buf[i] == SLASH || buf[i] == GT)
        invariant
            p + 1 <= i <= buf@.len(),
            forall|j: int| p + 1 <= j < i ==> !ends_name(#[trigger] buf@[j]),
            name_end_from(buf@, p + 1) == name_end_from(buf@, i as int),
        decreases buf.len() - i,
    {
        i = i + 1;
    }
    if i >= buf.len() {
        return None;
    }
    let name_end = i;
    let mut quote: Option<u8> = None;
    while i < buf.len()
        invariant
            name_end <= i <= buf@.len(),
            p + 1 <= name_end < buf@.len(),
            ends_name(buf@[name_end as int]),
            forall|j: int| p + 1 <= j < name_end ==> !ends_name(#[trigger] buf@[j]),
            name_end == name_end_from(buf@, p + 1),
            close_from(buf@, name_end as int, None) == close_from(buf@, i as int, quote),
        decreases buf.len() - i,
    {
        let b = buf[i];
        match quote {
            Some(q) => {
                if b == q {
                    quote = None;
                }
            },
            None => {
                if b == GT {
                    return Some((i, name_end));
                } else if b == DQUOTE || b == SQUOTE {
                    quote = Some(b);
                }
            },
        }
        i = i + 1;
    }
    None
}

/// A whole start tag begins at `p`: `<`, a name, and its closing `>`
/// outside quoted attribute values.
pub open spec fn start_tag_complete(buf: Seq<u8>, p: int) -> bool {
    &&& 0 <= p && p + 1 < buf.len()
    &&& buf[p] == LT
    &&& buf[p + 1] != SLASH && buf[p + 1] != BANG && buf[p + 1] != QUESTION
    &&& name_end_from(buf, p + 1) < buf.len()
    &&& close_from(buf, name_end_from(buf, p + 1), None) is Some
}

/// The next piece of markup at or after `pos`, passing over text.
pub fn next_markup(buf: &[u8], pos: usize, eof: bool) -> (r: Scanned)
    requires
        pos <= buf@.len(),
    ensures
        r matches Scanned::Found(m) ==> pos <= m.start && markup_ok(buf@, m) && no_open(buf@, pos as int, m.start as int),
        r matches Scanned::NoMore(q) ==> eof && q == buf@.len() && no_open(buf@, pos as int, q as int),
        r matches Scanned::NeedInput(q) ==> !eof && pos <= q <= buf@.len() && no_open(buf@, pos as int, q as int)
            && (q < buf@.len() ==> buf@[q as int] == LT && !start_tag_complete(buf@, q as int)),
        r matches Scanned::Failed(e) ==> match e {
            ScanError::InMarkup(i) => eof && pos <= i < buf@.len(),
            ScanError::InStartTag(i) => eof && pos <= i < buf@.len(),
            ScanError::Doctype(i) => pos <= i < buf@.len(),
            ScanError::Declaration(i) => pos <= i < buf@.len(),
        },
{
    let p = match find_byte(buf, pos, LT) {
        Some(p) => p,
        None => {
            return if eof {
                Scanned::NoMore(buf.len())
            } else {
                Scanned::NeedInput(buf.len())
            };
        },
    };
    if buf.len() - p < 2 {
        return if eof {
            Scanned::Failed(ScanError::InMarkup(p))
        } else {
            Scanned::NeedInput(p)
        };
    }
    let second = buf[p + 1];
    if second == SLASH {
        match find_byte(buf, p + 2, GT) {
            Some(i) => Scanned::Found(Markup { kind: Kind::End, start: p, end: i + 1 }),
            None => if eof {
                Scanned::Failed(ScanError::InMarkup(p))
            } else {
                Scanned::NeedInput(p)
            },
        }
    } else if second == QUESTION || second == BANG {
        scan_declaration(buf, p, eof)
    } else {
        match scan_start_tag(buf, p) {
            Some((close, name_end)) => {
                let empty = buf[close - 1] == SLASH;
                if empty {
                    assert(close - 1 >= name_end) by {
                        if close - 1 < name_end {
                            assert(!ends_name(buf@[close - 1]));
                        }
                    }
                }
                Scanned::Found(Markup { kind: Kind::Start { name_end, empty }, start: p, end: close + 1 })
            },
            None => if eof {
                Scanned::Failed(ScanError::InStartTag(p))
            } else {
                Scanned::NeedInput(p)
            },
        }
    }
}

/// Inside a feature named `name`, the next markup that can end it or hide
/// a `<`: a tag named like the feature, a comment, CDATA or a processing
/// instruction. XML allows no raw `<` in text or attribute values, so any
/// other tag is passed over at its `<`, without looking for its end.
pub fn next_feature_markup(buf: &[u8], pos: usize, eof: bool, name: &[u8]) -> (r: Scanned)
    requires
        pos <= buf@.len(),
    ensures
        r matches Scanned::Found(m) ==> pos <= m.start && markup_ok(buf@, m),
        r matches Scanned::NoMore(q) ==> eof && q == buf@.len(),
        r matches Scanned::NeedInput(q) ==> !eof && pos <= q <= buf@.len(),
        r matches Scanned::Failed(e) ==> match e {
            ScanError::InMarkup(i) => eof && pos <= i < buf@.len(),
            ScanError::InStartTag(i) => eof && pos <= i < buf@.len(),
            ScanError::Doctype(i) => pos <= i < buf@.len(),
            ScanError::Declaration(i) => pos <= i < buf@.len(),
        },
{
    let mut at = pos;
    loop
        invariant
            pos <= at <= buf@.len(),
        decreases buf@.len() - at,
    {
        let p = match find_byte(buf, at, LT) {
            Some(p) => p,
            None => {
                return if eof {
                    Scanned::NoMore(buf.len())
                } else {
                    Scanned::NeedInput(buf.len())
                };
            },
        };
        if buf.len() - p < 2 {
            return if eof {
                Scanned::Failed(ScanError::InMarkup(p))
            } else {
                Scanned::NeedInput(p)
            };
        }
        let second = buf[p + 1];
        if second == BANG || second == QUESTION {
            return next_markup(buf, p, eof);
        }
        let name_at: usize = if second == SLASH {
            2
        } else {
            1
        };
        if buf.len() - p < name_at + 1 || name.len() > buf.len() - p - name_at - 1 {
            return if eof {
                Scanned::Failed(ScanError::InMarkup(p))
            } else {
                Scanned::NeedInput(p)
            };
        }
        let after = buf[p + name_at + name.len()];
        if (space_byte(after) || after == GT || (name_at == 1 && after == SLASH)) && bytes_at_exec(
            buf,
            p + name_at,
            name,
        ) {
            return next_markup(buf, p, eof);
        }
        at = p + 1;
    }
}

/// `t` without its leading ASCII white space.
pub open spec fn trim_bytes_front(t: Seq<u8>) -> Seq<u8>
    decreases t.len(),
{
    if t.len() > 0 && is_space_byte(t[0]) {
        trim_bytes_front(t.drop_first())
    } else {
        t
    }
}

/// `t` without its trailing ASCII white space.
pub open spec fn trim_bytes_back(t: Seq<u8>) -> Seq<u8>
    decreases t.len(),
{
    if t.len() > 0 && is_space_byte(t.last()) {
        trim_bytes_back(t.drop_last())
    } else {
        t
    }
}

/// `t` without leading and trailing ASCII white space (`trim_ascii`).
pub open spec fn trimmed_bytes(t: Seq<u8>) -> Seq<u8> {
    trim_bytes_back(trim_bytes_front(t))
}

/// `bytes` without leading and trailing ASCII white space (`trim_ascii`).
pub fn trim_ascii_range(bytes: &[u8], from: usize, to: usize) -> (r: (usize, usize))
    requires
        from <= to <= bytes@.len(),
    ensures
        from <= r.0 <= r.1 <= to,
        forall|i: int| from <= i < r.0 ==> is_space_byte(#[trigger] bytes@[i]),
        forall|i: int| r.1 <= i < to ==> is_space_byte(#[trigger] bytes@[i]),
        r.0 < r.1 ==> !is_space_byte(bytes@[r.0 as int]) && !is_space_byte(bytes@[r.1 - 1]),
        bytes@.subrange(r.0 as int, r.1 as int) == trimmed_bytes(bytes@.subrange(from as int, to as int)),
{
    let ghost whole = bytes@.subrange(from as int, to as int);
    let mut a = from;
    while a < to && space_byte(bytes[a])
        invariant
            from <= a <= to <= bytes@.len(),
            forall|i: int| from <= i < a ==> is_space_byte(#[trigger] bytes@[i]),
            whole == bytes@.subrange(from as int, to as int),
            trim_bytes_front(whole) == trim_bytes_front(bytes@.subrange(a as int, to as int)),
        decreases to - a,
    {
        assert(bytes@.subrange(a as int, to as int).drop_first() == bytes@.subrange(a + 1, to as int));
        a = a + 1;
    }
    assert(trim_bytes_front(bytes@.subrange(a as int, to as int)) == bytes@.subrange(a as int, to as int));
    let mut b = to;
    while b > a && space_byte(bytes[b - 1])
        invariant
            from <= a <= b <= to <= bytes@.len(),
            forall|i: int| b <= i < to ==> is_space_byte(#[trigger] bytes@[i]),
            trim_bytes_back(bytes@.subrange(a as int, to as int)) == trim_bytes_back(bytes@.subrange(a as int, b as int)),
        decreases b,
    {
        assert(bytes@.subrange(a as int, b as int).drop_last() == bytes@.subrange(a as int, b - 1));
        b = b - 1;
    }
    assert(trim_bytes_back(bytes@.subrange(a as int, b as int)) == bytes@.subrange(a as int, b as int));
    (a, b)
}

} // verus!
