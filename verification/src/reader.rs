//! A namespace-aware pull reader over a UTF-8 buffer (one chunk or one
//! document), on `quick-xml`'s namespace reader.
//!
//! `quick-xml` tokenizes the buffer and keeps the namespace scope. The rules
//! of this reader are its own: which events are delivered, how text, CDATA
//! and references merge, which entities expand, that DTDs are refused, how
//! attributes are resolved, and where errors are located.

use vstd::prelude::*;
use vstd::slice::slice_subrange;
use vstd::utf8::{encode_utf8, valid_utf8};

use quick_xml::name::ResolveResult;

use crate::attributes::{lossy_string, unescape, utf8_string, xml_unescaped};
use crate::error::Error;
use crate::location::{Location, SourceId};
use crate::namespace::NamespaceContext;
use crate::qname::QName;
use crate::text::{append, chars_of, first_index_of, opt_string_view, owned, push_char, starts_with, starts_with_exec, str_eq};

verus! {

#[verifier::external_type_specification]
#[verifier::external_body]
#[verifier::reject_recursive_types(R)]
pub struct ExNsReader<R>(quick_xml::NsReader<R>);

#[verifier::external_type_specification]
#[verifier::external_body]
pub struct ExEvent<'a>(quick_xml::events::Event<'a>);

/// The kinds of `quick-xml` events this reader tells apart.
pub enum EventKind {
    Start,
    End,
    Text,
    CData,
    Reference,
    DocType,
    Empty,
    /// A comment or a processing instruction.
    Ignored,
    /// The XML declaration.
    Declaration,
    Eof,
}

/// `true` for the kinds that merge into text: text, CDATA and references.
pub open spec fn is_text_kind(k: EventKind) -> bool {
    k is Text || k is CData || k is Reference
}

/// `true` for what is passed over between events: comments, processing
/// instructions and the XML declaration.
pub open spec fn is_passed_over(k: EventKind) -> bool {
    k is Ignored || k is Declaration
}

/// `true` if the raw event at `i` is the first one not passed over.
pub open spec fn first_taken(ks: Seq<EventKind>, i: int) -> bool {
    0 <= i < ks.len() && forall|k: int| 0 <= k < i ==> is_passed_over(#[trigger] ks[k])
}

/// How many more start tags than end tags the raw events hold.
pub open spec fn kind_depth(ks: Seq<EventKind>) -> int
    decreases ks.len(),
{
    if ks.len() == 0 {
        0
    } else {
        kind_depth(ks.drop_last()) + match ks.last() {
            EventKind::Start => 1int,
            EventKind::End => -1int,
            _ => 0int,
        }
    }
}

/// The raw events stay inside the element they started in: no prefix holds
/// more end tags than start tags, and none is a DTD or the end of input.
pub open spec fn stays_within(ks: Seq<EventKind>) -> bool {
    &&& forall|k: int| 0 <= k <= ks.len() ==> kind_depth(#[trigger] ks.take(k)) >= 0
    &&& forall|k: int| 0 <= k < ks.len() ==> !(#[trigger] ks[k] is Eof) && !(ks[k] is DocType)
}

/// The raw events are the rest of an element after its start tag: they stay
/// inside it, and the last is its end tag.
pub open spec fn skips_element(ks: Seq<EventKind>) -> bool {
    &&& ks.len() > 0
    &&& ks.last() is End
    &&& stays_within(ks.drop_last())
    &&& kind_depth(ks.drop_last()) == 0
}

/// The raw events a text merge takes: text, CDATA, references and comments,
/// then the first other event, which is read again next.
pub open spec fn merges_text(ks: Seq<EventKind>) -> bool {
    &&& ks.len() > 0
    &&& forall|k: int| 0 <= k < ks.len() - 1 ==> is_text_kind(#[trigger] ks[k]) || ks[k] is Ignored
    &&& !is_text_kind(ks.last()) && !(ks.last() is Ignored)
}

/// Text found right after passed-over events stays found when more raw
/// events are taken.
proof fn lemma_text_found(start: Seq<EventKind>, mid: Seq<EventKind>, end: Seq<EventKind>)
    requires
        start.is_prefix_of(mid),
        mid.is_prefix_of(end),
        mid.len() > start.len(),
        first_taken(mid.skip(start.len() as int), mid.len() - start.len() - 1),
        is_text_kind(mid.last()),
    ensures
        start.is_prefix_of(end),
        exists|i: int| first_taken(end.skip(start.len() as int), i) && is_text_kind(
            #[trigger] end.skip(start.len() as int)[i],
        ),
{
    let i = mid.len() - start.len() - 1;
    let a = mid.skip(start.len() as int);
    let b = end.skip(start.len() as int);
    assert(end.take(start.len() as int) == mid.take(start.len() as int).take(start.len() as int));
    assert forall|k: int| 0 <= k <= i implies b[k] == a[k] by {
        assert(end[start.len() + k] == mid[start.len() + k]);
    }
    assert(b[i] == mid.last());
    assert(first_taken(b, i));
}

proof fn lemma_stays_within_push(ks: Seq<EventKind>, k: EventKind)
    requires
        stays_within(ks),
        !(k is Eof),
        !(k is DocType),
        kind_depth(ks.push(k)) >= 0,
    ensures
        stays_within(ks.push(k)),
{
    let next = ks.push(k);
    assert forall|j: int| 0 <= j <= next.len() implies kind_depth(#[trigger] next.take(j)) >= 0 by {
        if j <= ks.len() {
            assert(next.take(j) == ks.take(j));
        } else {
            assert(next.take(j) == next);
        }
    }
    assert forall|j: int| 0 <= j < next.len() implies !(#[trigger] next[j] is Eof) && !(next[j] is DocType) by {
        if j < ks.len() {
            assert(next[j] == ks[j]);
        }
    }
}

/// How a qualified name resolved against the namespace scope.
enum Resolution {
    Unbound,
    Bound(String),
    Unknown(String),
}

/// The part of a qualified name after its first `:` (the whole name without one).
pub open spec fn local_part(name: Seq<char>) -> Seq<char> {
    match first_index_of(name, ':') {
        Some(i) => name.subrange(i + 1, name.len() as int),
        None => name,
    }
}

/// The part of a qualified name before its first `:`, if it has one.
pub open spec fn prefix_part(name: Seq<char>) -> Option<Seq<char>> {
    match first_index_of(name, ':') {
        Some(i) => Some(name.subrange(0, i)),
        None => None,
    }
}

/// `true` for `xmlns` and `xmlns:*`: a namespace declaration, not an attribute.
pub open spec fn is_namespace_binding(key: Seq<char>) -> bool {
    &&& key.len() >= 5
    &&& key.subrange(0, 5) == seq!['x', 'm', 'l', 'n', 's']
    &&& (key.len() == 5 || key[5] == ':')
}

/// `true` for a character reference (`#65`, `#x41`).
pub open spec fn is_char_ref(name: Seq<char>) -> bool {
    name.len() > 0 && name[0] == '#'
}

/// The attributes that `quick-xml` reads from the text of a start tag whose
/// name is `name`: key and raw value of each, `None` for a malformed one.
pub uninterp spec fn attributes_in_tag(tag: Seq<char>, name: Seq<char>) -> Seq<Option<(Seq<char>, Seq<char>)>>;

/// The value of a digit in base `radix` (10, or 16 with either case).
pub open spec fn digit_value(c: char, radix: int) -> Option<int> {
    if '0' <= c <= '9' {
        Some(c as int - '0' as int)
    } else if radix == 16 && 'a' <= c <= 'f' {
        Some(c as int - 'a' as int + 10)
    } else if radix == 16 && 'A' <= c <= 'F' {
        Some(c as int - 'A' as int + 10)
    } else {
        None
    }
}

/// The number that digits in base `radix` write, `None` for another
/// character among them.
pub open spec fn number_value(ds: Seq<char>, radix: int) -> Option<int>
    decreases ds.len(),
{
    if ds.len() == 0 {
        Some(0)
    } else {
        match (number_value(ds.drop_last(), radix), digit_value(ds.last(), radix)) {
            (Some(n), Some(d)) => Some(n * radix + d),
            _ => None,
        }
    }
}

/// The character that the digits of a character reference (after `#`)
/// denote: hexadecimal after an `x`, else decimal, at least one digit and
/// no sign; `None` for a number that is zero, does not fit in 32 bits, or
/// is no Unicode scalar value.
pub open spec fn char_ref_value(digits: Seq<char>) -> Option<char> {
    let hex = digits.len() > 0 && digits[0] == 'x';
    let ds = if hex { digits.drop_first() } else { digits };
    let radix: int = if hex { 16 } else { 10 };
    if ds.len() == 0 {
        None
    } else {
        match number_value(ds, radix) {
            Some(n) => if 0 < n <= u32::MAX && (n < 0xD800 || 0xE000 <= n <= 0x10FFFF) {
                Some(n as char)
            } else {
                None
            },
            None => None,
        }
    }
}

/// The view of one raw attribute.
pub open spec fn raw_attribute_view(a: Option<(String, String)>) -> Option<(Seq<char>, Seq<char>)> {
    match a {
        Some((k, v)) => Some((k@, v@)),
        None => None,
    }
}

/// What a reference expands to: a character reference to its character,
/// the five predefined entities to theirs; `None` for anything else.
pub open spec fn reference_text(name: Seq<char>) -> Option<Seq<char>> {
    if is_char_ref(name) {
        match char_ref_value(name.drop_first()) {
            Some(c) => Some(seq![c]),
            None => None,
        }
    } else if name == "amp"@ {
        Some("&"@)
    } else if name == "lt"@ {
        Some("<"@)
    } else if name == "gt"@ {
        Some(">"@)
    } else if name == "quot"@ {
        Some("\""@)
    } else if name == "apos"@ {
        Some("'"@)
    } else {
        None
    }
}

/// `base + position`, or `u64::MAX` where the sum does not fit.
pub open spec fn offset_in(base: u64, position: u64) -> u64 {
    if base + position <= u64::MAX {
        (base + position) as u64
    } else {
        u64::MAX
    }
}

/// `t` without a last byte `b`, if it ends with one.
pub open spec fn strip_last(t: Seq<u8>, b: u8) -> Seq<u8> {
    if t.len() > 0 && t.last() == b {
        t.drop_last()
    } else {
        t
    }
}

/// The bytes between `<` and `>` (or `/>`) of a tag that starts at `start`
/// and ends before `end`.
pub open spec fn tag_bytes(buf: Seq<u8>, start: int, end: int) -> Seq<u8> {
    let e = if end <= buf.len() { end } else { buf.len() as int };
    let s = if start + 1 <= e { start + 1 } else { e };
    strip_last(strip_last(buf.subrange(s, e), 0x3Eu8), 0x2Fu8)
}

/// A reader over `buf` that expands empty elements, checks end names, keeps
/// text untrimmed and accepts any number of namespace bindings
/// (`quick_xml::NsReader::from_reader` and its configuration).
#[verifier::external_body]
fn open_reader<'a>(buf: &'a [u8]) -> quick_xml::NsReader<&'a [u8]> {
    let mut inner = quick_xml::NsReader::from_reader(buf);
    let config = inner.config_mut();
    config.expand_empty_elements = true;
    config.check_end_names = true;
    config.trim_text_start = false;
    config.trim_text_end = false;
    inner.resolver_mut().set_max_namespace_bindings(usize::MAX);
    inner
}

/// Binds `prefix` (the default namespace for `None`) to `uri` in the
/// reader's outermost scope (`quick_xml::name::NamespaceResolver::add`).
/// A binding that `quick-xml` refuses (`xml`, `xmlns` misuse) is ignored.
#[verifier::external_body]
fn bind_prefix(inner: &mut quick_xml::NsReader<&[u8]>, prefix: Option<&str>, uri: &str) {
    let prefix = match prefix {
        Some(p) => quick_xml::name::PrefixDeclaration::Named(p),
        None => quick_xml::name::PrefixDeclaration::Default,
    };
    let _ = inner.resolver_mut().add(prefix, quick_xml::name::Namespace(uri));
}

/// The byte position of the reader in its buffer
/// (`quick_xml::NsReader::buffer_position`).
#[verifier::external_body]
fn buffer_position(inner: &quick_xml::NsReader<&[u8]>) -> u64 {
    inner.buffer_position()
}

/// The byte position of the last error (`quick_xml::Reader::error_position`).
#[verifier::external_body]
fn error_position(inner: &quick_xml::NsReader<&[u8]>) -> u64 {
    inner.error_position()
}

/// The next event of the buffer, or the message of a syntax error
/// (`quick_xml::NsReader::read_event`).
#[verifier::external_body]
fn read_event<'a>(inner: &mut quick_xml::NsReader<&'a [u8]>) -> Result<quick_xml::events::Event<'a>, String> {
    match inner.read_event() {
        Ok(event) => Ok(event),
        Err(error) => Err(error.to_string()),
    }
}

/// The kind of an event (its `quick_xml::events::Event` variant).
#[verifier::external_body]
fn event_kind(event: &quick_xml::events::Event<'_>) -> EventKind {
    match event {
        quick_xml::events::Event::Start(_) => EventKind::Start,
        quick_xml::events::Event::End(_) => EventKind::End,
        quick_xml::events::Event::Text(_) => EventKind::Text,
        quick_xml::events::Event::CData(_) => EventKind::CData,
        quick_xml::events::Event::GeneralRef(_) => EventKind::Reference,
        quick_xml::events::Event::DocType(_) => EventKind::DocType,
        quick_xml::events::Event::Empty(_) => EventKind::Empty,
        quick_xml::events::Event::Comment(_) | quick_xml::events::Event::PI(_) => EventKind::Ignored,
        quick_xml::events::Event::Decl(_) => EventKind::Declaration,
        quick_xml::events::Event::Eof => EventKind::Eof,
    }
}

/// What an event carries: the qualified name of a start or end tag, the
/// end-of-line normalized content of text and CDATA (`xml10_content`), the
/// name of a reference; empty for the others.
#[verifier::external_body]
fn event_content(event: &quick_xml::events::Event<'_>) -> String {
    match event {
        quick_xml::events::Event::Start(e) => e.name().0.to_string(),
        quick_xml::events::Event::End(e) => e.name().0.to_string(),
        quick_xml::events::Event::Text(e) => e.xml10_content().into_owned(),
        quick_xml::events::Event::CData(e) => e.xml10_content().into_owned(),
        quick_xml::events::Event::GeneralRef(e) => e.to_string(),
        _ => String::new(),
    }
}

/// Resolves an element name in the reader's current scope
/// (`quick_xml::name::NamespaceResolver::resolve_element`): the local name
/// is what follows the first `:`, an unknown namespace is reported only
/// for a prefix, and with that prefix.
#[verifier::external_body]
fn resolve_element_name(inner: &quick_xml::NsReader<&[u8]>, name: &str) -> (r: (Resolution, String))
    ensures
        r.1@ == local_part(name@),
        r.0 matches Resolution::Unknown(p) ==> prefix_part(name@) == Some(p@),
{
    let (resolved, local) = inner.resolver().resolve_element(quick_xml::name::QName(name));
    let resolution = match resolved {
        ResolveResult::Unbound => Resolution::Unbound,
        ResolveResult::Bound(uri) => Resolution::Bound(uri.0.to_string()),
        ResolveResult::Unknown(prefix) => Resolution::Unknown(prefix),
    };
    (resolution, local.into_inner().to_string())
}

/// Resolves an attribute name in the reader's current scope
/// (`quick_xml::name::NamespaceResolver::resolve_attribute`): the local name
/// is what follows the first `:`, an unprefixed name is in no namespace, an
/// unknown namespace is reported only for a prefix.
#[verifier::external_body]
fn resolve_attribute_name(inner: &quick_xml::NsReader<&[u8]>, key: &str) -> (r: (Resolution, String))
    ensures
        r.1@ == local_part(key@),
        prefix_part(key@) is None ==> r.0 is Unbound,
        r.0 matches Resolution::Unknown(p) ==> prefix_part(key@) == Some(p@),
{
    let (resolved, local) = inner.resolver().resolve_attribute(quick_xml::name::QName(key));
    let resolution = match resolved {
        ResolveResult::Unbound => Resolution::Unbound,
        ResolveResult::Bound(uri) => Resolution::Bound(uri.0.to_string()),
        ResolveResult::Unknown(prefix) => Resolution::Unknown(prefix),
    };
    (resolution, local.into_inner().to_string())
}

/// The attributes of a start tag's text, read without the uniqueness check
/// (`quick_xml::events::attributes::Attributes`): key and raw value of each,
/// `None` for a malformed one. The tag's text starts with the name, so the
/// attributes are read from a character boundary on.
#[verifier::external_body]
fn tag_attributes(tag: &str, name: &str) -> (r: Vec<Option<(String, String)>>)
    requires
        starts_with(tag@, name@),
    ensures
        r@.map_values(|a: Option<(String, String)>| raw_attribute_view(a)) == attributes_in_tag(tag@, name@),
{
    let mut raw = quick_xml::events::attributes::Attributes::new(tag, name.len());
    raw.with_checks(false);
    let mut out = Vec::new();
    for attr in raw {
        out.push(attr.ok().map(|a| (a.key.0.to_string(), a.value.into_owned())));
    }
    out
}

/// Resolves a character reference by the text between `&` and `;`
/// (`quick_xml::events::BytesRef::resolve_char_ref`): `Ok(None)` for a name
/// that does not start with `#`, else the character its digits denote, or
/// the message of why they denote none.
#[verifier::external_body]
fn char_reference(name: &str) -> (r: Result<Option<char>, String>)
    ensures
        !is_char_ref(name@) ==> r matches Ok(None),
        is_char_ref(name@) ==> (r is Err <==> char_ref_value(name@.drop_first()) is None),
        is_char_ref(name@) ==> (r matches Ok(v) ==> v == char_ref_value(name@.drop_first())),
{
    match quick_xml::events::BytesRef::new(name).resolve_char_ref() {
        Ok(c) => Ok(c),
        Err(error) => Err(error.to_string()),
    }
}

/// One attribute of a start tag: resolved name and unescaped value.
#[derive(Debug)]
pub struct Attribute {
    pub ns: Option<String>,
    pub local: String,
    pub value: String,
}

/// The view of an attribute: namespace, local name, value.
pub open spec fn attribute_view(a: Attribute) -> (Option<Seq<char>>, Seq<char>, Seq<char>) {
    (opt_string_view(a.ns), a.local@, a.value@)
}

/// The attributes of a start tag, in document order.
///
/// Namespace declarations (`xmlns`, `xmlns:*`) are not attributes. An
/// unprefixed attribute is in no namespace.
#[derive(Debug)]
pub struct Attributes {
    items: Vec<Attribute>,
}

impl View for Attributes {
    type V = Seq<(Option<Seq<char>>, Seq<char>, Seq<char>)>;

    closed spec fn view(&self) -> Seq<(Option<Seq<char>>, Seq<char>, Seq<char>)> {
        self.items@.map_values(|a: Attribute| attribute_view(a))
    }
}

/// The value of the first attribute named `name`.
pub open spec fn lookup(
    items: Seq<(Option<Seq<char>>, Seq<char>, Seq<char>)>,
    name: (Option<Seq<char>>, Seq<char>),
) -> Option<Seq<char>>
    decreases items.len(),
{
    if items.len() == 0 {
        None
    } else if (items[0].0, items[0].1) == name {
        Some(items[0].2)
    } else {
        lookup(items.drop_first(), name)
    }
}

/// A copy of `s`.
fn copy_opt(s: &Option<String>) -> (r: Option<String>)
    ensures
        opt_string_view(r) == opt_string_view(*s),
{
    match s {
        Some(v) => Some(owned(v.as_str())),
        None => None,
    }
}

/// A copy of `a`.
fn copy_attribute(a: &Attribute) -> (r: Attribute)
    ensures
        attribute_view(r) == attribute_view(*a),
{
    Attribute { ns: copy_opt(&a.ns), local: owned(a.local.as_str()), value: owned(a.value.as_str()) }
}

impl Attributes {
    /// The value of the attribute named `name`, the first one if it occurs twice.
    pub fn get(&self, name: &QName) -> (r: Option<String>)
        ensures
            opt_string_view(r) == lookup(self@, name@),
    {
        let mut i: usize = 0;
        assert(self@.skip(0) == self@);
        while i < self.items.len()
            invariant
                i <= self.items@.len(),
                self@.len() == self.items@.len(),
                lookup(self@, name@) == lookup(self@.skip(i as int), name@),
            decreases self.items.len() - i,
        {
            let a = &self.items[i];
            assert(self@.skip(i as int).drop_first() == self@.skip(i + 1));
            assert(self@.skip(i as int)[0] == attribute_view(self.items@[i as int]));
            let same_ns = match (&a.ns, &name.ns) {
                (Some(x), Some(y)) => str_eq(x.as_str(), y.as_str()),
                (None, None) => true,
                _ => false,
            };
            if same_ns && str_eq(a.local.as_str(), name.local.as_str()) {
                return Some(owned(a.value.as_str()));
            }
            i = i + 1;
        }
        None
    }

    /// Each attribute as a qualified name and its value.
    pub fn iter(&self) -> (r: Vec<(QName, String)>)
        ensures
            r@.len() == self@.len(),
            forall|i: int| 0 <= i < r@.len() ==> ((#[trigger] r@[i]).0@, r@[i].1@) == ((self@[i].0, self@[i].1), self@[i].2),
    {
        let mut out: Vec<(QName, String)> = Vec::new();
        let mut i: usize = 0;
        while i < self.items.len()
            invariant
                i <= self.items@.len(),
                out@.len() == i,
                forall|j: int| 0 <= j < i ==> ((#[trigger] out@[j]).0@, out@[j].1@) == ((self@[j].0, self@[j].1), self@[j].2),
            decreases self.items.len() - i,
        {
            let a = &self.items[i];
            let name = QName { ns: copy_opt(&a.ns), local: owned(a.local.as_str()) };
            out.push((name, owned(a.value.as_str())));
            i = i + 1;
        }
        out
    }

    /// Each attribute as `(namespace, local name, value)`.
    pub fn iter_raw(&self) -> (r: Vec<(Option<String>, String, String)>)
        ensures
            r@.len() == self@.len(),
            forall|i: int| 0 <= i < r@.len() ==> (opt_string_view((#[trigger] r@[i]).0), r@[i].1@, r@[i].2@) == self@[i],
    {
        let mut out: Vec<(Option<String>, String, String)> = Vec::new();
        let mut i: usize = 0;
        while i < self.items.len()
            invariant
                i <= self.items@.len(),
                out@.len() == i,
                forall|j: int| 0 <= j < i ==> (opt_string_view((#[trigger] out@[j]).0), out@[j].1@, out@[j].2@) == self@[j],
            decreases self.items.len() - i,
        {
            let a = &self.items[i];
            out.push((copy_opt(&a.ns), owned(a.local.as_str()), owned(a.value.as_str())));
            i = i + 1;
        }
        out
    }

    /// A copy with the same attributes.
    pub fn duplicate(&self) -> (r: Attributes)
        ensures
            r@ == self@,
    {
        let mut items: Vec<Attribute> = Vec::new();
        let mut i: usize = 0;
        while i < self.items.len()
            invariant
                i <= self.items@.len(),
                items@.len() == i,
                forall|j: int| 0 <= j < i ==> attribute_view(#[trigger] items@[j]) == attribute_view(self.items@[j]),
            decreases self.items.len() - i,
        {
            items.push(copy_attribute(&self.items[i]));
            i = i + 1;
        }
        let r = Attributes { items };
        assert(r@ =~= self@);
        r
    }
}

/// Events delivered to GML consumers (scan, geometry parser, feature builder).
///
/// Empty elements (`<a/>`) produce a `Start` and an `End`. Comments,
/// processing instructions and the XML declaration are skipped.
#[derive(Debug)]
pub enum XmlEvent {
    Start { name: QName, attrs: Attributes },
    End { name: QName },
    /// Unescaped text, including CDATA content. Adjacent text, CDATA sections
    /// and entity references are merged into one event.
    Text(String),
    Eof,
}

/// An event as a value: names, attributes and text by their views.
pub enum EventView {
    Start((Option<Seq<char>>, Seq<char>), Seq<(Option<Seq<char>>, Seq<char>, Seq<char>)>),
    End((Option<Seq<char>>, Seq<char>)),
    Text(Seq<char>),
    Eof,
}

/// The view of an event.
pub open spec fn event_view(e: XmlEvent) -> EventView {
    match e {
        XmlEvent::Start { name, attrs } => EventView::Start(name@, attrs@),
        XmlEvent::End { name } => EventView::End(name@),
        XmlEvent::Text(t) => EventView::Text(t@),
        XmlEvent::Eof => EventView::Eof,
    }
}

/// `true` if the attribute `item` is read from the raw attribute `raw`: the
/// key is no namespace declaration, the local name is the key's, the value
/// is the raw value unescaped, and an unprefixed key is in no namespace.
pub open spec fn attribute_from(
    item: (Option<Seq<char>>, Seq<char>, Seq<char>),
    raw: Option<(Seq<char>, Seq<char>)>,
) -> bool {
    match raw {
        Some((key, value)) => {
            &&& !is_namespace_binding(key)
            &&& item.1 == local_part(key)
            &&& item.2 == xml_unescaped(value)
            &&& (prefix_part(key) is None ==> item.0 is None)
        },
        None => false,
    }
}

/// `true` if `item` is read from one of the raw attributes `raw`.
pub open spec fn read_from(
    item: (Option<Seq<char>>, Seq<char>, Seq<char>),
    raw: Seq<Option<(Seq<char>, Seq<char>)>>,
) -> bool {
    exists|j: int| 0 <= j < raw.len() && attribute_from(item, #[trigger] raw[j])
}

/// The message for an element whose prefix is not declared.
pub open spec fn undeclared_prefix_message(prefix: Seq<char>, name: Seq<char>) -> Seq<char> {
    "undeclared namespace prefix `"@ + prefix + "` in <"@ + name + ">"@
}

/// `buf[from..end]`, with `from` and `end` held inside the buffer.
pub open spec fn raw_range(buf: Seq<u8>, from: int, end: int) -> Seq<u8> {
    let e = if end <= buf.len() { end } else { buf.len() as int };
    let s = if from <= e { from } else { e };
    buf.subrange(s, e)
}

/// `true` if `text` is the text of the bytes of `buf` from `from` to `end`
/// (both held inside the buffer), where those bytes are UTF-8.
pub open spec fn raw_text(text: Seq<char>, buf: Seq<u8>, from: int, end: int) -> bool {
    &&& 0 <= end <= buf.len()
    &&& valid_utf8(raw_range(buf, from, end)) ==> encode_utf8(text) == raw_range(buf, from, end)
}

/// `true` if `text` is the text of the bytes of `buf` from `from` to some
/// position of the buffer, where those bytes are UTF-8.
pub open spec fn raw_text_from(text: Seq<char>, buf: Seq<u8>, from: usize) -> bool {
    exists|end: int| #[trigger] raw_text(text, buf, from as int, end)
}

/// Namespace-aware pull reader over a UTF-8 buffer (one chunk or one document).
///
/// DTDs are rejected ([`Error::DtdNotSupported`]) and only the predefined
/// entities and character references are expanded.
pub struct GmlReader<'a> {
    inner: quick_xml::NsReader<&'a [u8]>,
    base_offset: u64,
    buf: &'a [u8],
    source: SourceId,
    /// An event read ahead while merging text, with its start position.
    pending: Option<(quick_xml::events::Event<'a>, u64)>,
    /// Buffer position of the last `Start` returned, for [`Self::capture_element`].
    last_start: u64,
    /// Name and attributes of the last `Start` returned, for [`Self::current_start`].
    last_start_tag: Option<(QName, Attributes)>,
    /// The events delivered so far.
    log: Ghost<Seq<EventView>>,
    /// The kinds of the raw events taken so far (a read-ahead one again
    /// when it is taken again).
    taken: Ghost<Seq<EventKind>>,
}

/// `true` if `b` reads the same input as `a` and has delivered the same events.
spec fn same_input(a: GmlReader<'_>, b: GmlReader<'_>) -> bool {
    &&& b.buf@ == a.buf@
    &&& b.base_offset == a.base_offset
    &&& b.source == a.source
    &&& b.log == a.log
}

/// `true` if `b` also remembers the same last start tag as `a`.
spec fn same_start(a: GmlReader<'_>, b: GmlReader<'_>) -> bool {
    &&& b.last_start == a.last_start
    &&& b.last_start_tag == a.last_start_tag
}

/// The largest number of events read in one call: each event but the last
/// consumes at least one byte, and one may have been read ahead.
fn event_budget(buf: &[u8]) -> (r: usize)
    ensures
        r >= buf@.len(),
{
    buf.len().saturating_add(2)
}

/// `true` for `xmlns` and `xmlns:*`.
fn namespace_binding(key: &str) -> (r: bool)
    ensures
        r == is_namespace_binding(key@),
{
    let k = chars_of(key);
    if k.len() < 5 {
        return false;
    }
    let head = k[0] == 'x' && k[1] == 'm' && k[2] == 'l' && k[3] == 'n' && k[4] == 's';
    proof {
        if head {
            assert(k@.subrange(0, 5) =~= seq!['x', 'm', 'l', 'n', 's']);
        } else {
            assert(k@.subrange(0, 5) != seq!['x', 'm', 'l', 'n', 's']) by {
                if k@.subrange(0, 5) == seq!['x', 'm', 'l', 'n', 's'] {
                    assert(k@.subrange(0, 5)[0] == k@[0]);
                    assert(k@.subrange(0, 5)[1] == k@[1]);
                    assert(k@.subrange(0, 5)[2] == k@[2]);
                    assert(k@.subrange(0, 5)[3] == k@[3]);
                    assert(k@.subrange(0, 5)[4] == k@[4]);
                }
            }
        }
    }
    head && (k.len() == 5 || k[5] == ':')
}

impl<'a> GmlReader<'a> {
    /// The buffer read.
    pub closed spec fn buffer(&self) -> Seq<u8> {
        self.buf@
    }

    /// Where the buffer starts in the decoded stream.
    pub closed spec fn base(&self) -> u64 {
        self.base_offset
    }

    /// The source reported in locations.
    pub closed spec fn source_id(&self) -> SourceId {
        self.source
    }

    /// Buffer position of the last `Start` returned.
    pub closed spec fn start_position(&self) -> u64 {
        self.last_start
    }

    /// Name and attributes of the last `Start` returned.
    pub closed spec fn current_start_view(&self) -> Option<((Option<Seq<char>>, Seq<char>), Seq<(Option<Seq<char>>, Seq<char>, Seq<char>)>)> {
        match self.last_start_tag {
            Some((name, attrs)) => Some((name@, attrs@)),
            None => None,
        }
    }

    /// The kinds of the raw events taken so far, in order.
    pub closed spec fn raw_taken(&self) -> Seq<EventKind> {
        self.taken@
    }

    /// The events [`Self::next_event`] delivered so far, in order.
    pub closed spec fn delivered(&self) -> Seq<EventView> {
        self.log@
    }

    /// The location of a buffer position.
    pub open spec fn location_of(&self, position: u64) -> Location {
        Location {
            source: self.source_id(),
            byte_offset: offset_in(self.base(), position),
            feature_seq: None,
            gml_id: None,
        }
    }

    /// `context` holds namespace declarations inherited from outside the buffer.
    pub fn new(buf: &'a [u8], context: &NamespaceContext, base_offset: u64) -> (r: GmlReader<'a>)
        ensures
            r.buffer() == buf@,
            r.base() == base_offset,
            r.source_id() == SourceId(0),
            r.start_position() == 0,
            r.current_start_view() is None,
            r.delivered() == Seq::<EventView>::empty(),
    {
        let mut inner = open_reader(buf);
        let bindings = context.iter();
        let mut i: usize = 0;
        while i < bindings.len()
            invariant
                i <= bindings@.len(),
            decreases bindings.len() - i,
        {
            let (prefix, uri) = bindings[i];
            bind_prefix(&mut inner, prefix, uri);
            i = i + 1;
        }
        GmlReader {
            inner,
            base_offset,
            buf,
            source: SourceId(0),
            pending: None,
            last_start: 0,
            last_start_tag: None,
            log: Ghost(Seq::empty()),
            taken: Ghost(Seq::empty()),
        }
    }

    /// Set the source reported in [`Self::location`] (default `SourceId(0)`).
    pub fn with_source(self, source: SourceId) -> (r: Self)
        ensures
            r.source_id() == source,
            r.buffer() == self.buffer(),
            r.base() == self.base(),
            r.start_position() == self.start_position(),
            r.current_start_view() == self.current_start_view(),
            r.delivered() == self.delivered(),
    {
        let mut r = self;
        r.source = source;
        r
    }

    fn location_at(&self, position: u64) -> (r: Location)
        ensures
            r == self.location_of(position),
    {
        let byte_offset = match self.base_offset.checked_add(position) {
            Some(sum) => sum,
            None => u64::MAX,
        };
        Location { source: self.source, byte_offset, feature_seq: None, gml_id: None }
    }

    /// The location of the reader's current position.
    pub fn location(&self) -> (r: Location)
        ensures
            exists|position: u64| r == self.location_of(position),
    {
        let position = buffer_position(&self.inner);
        let r = self.location_at(position);
        assert(r == self.location_of(position));
        r
    }

    fn xml_error(&self, position: u64, message: String) -> (r: Error)
        ensures
            r == (Error::Xml { location: self.location_of(position), message }),
    {
        Error::Xml { location: self.location_at(position), message }
    }

    /// The most events one walk over the rest of the buffer can read.
    pub(crate) fn event_bound(&self) -> (r: usize)
        ensures
            r >= self.buffer().len(),
    {
        event_budget(self.buf)
    }

    /// The error for a reader that stopped advancing through its buffer.
    pub(crate) fn stalled(&self) -> (r: Error)
        ensures
            r is Xml,
            r matches Error::Xml { location, message } && message@ == "the XML reader stopped advancing"@
                && exists|position: u64| location == self.location_of(position),
    {
        let position = buffer_position(&self.inner);
        let r = self.xml_error(position, owned("the XML reader stopped advancing"));
        assert(r->location == self.location_of(position));
        r
    }

    /// The next raw event (the read-ahead one first) and its start position.
    fn read_raw(&mut self) -> (r: Result<(quick_xml::events::Event<'a>, u64), Error>)
        ensures
            same_input(*old(self), *final(self)),
            same_start(*old(self), *final(self)),
            final(self).taken == old(self).taken,
            final(self).pending is None,
            old(self).pending matches Some(p) ==> (r matches Ok(q) && q == p),
            r matches Err(e) ==> e is Xml,
    {
        match self.pending.take() {
            Some(p) => Ok(p),
            None => {
                let start = buffer_position(&self.inner);
                match read_event(&mut self.inner) {
                    Ok(event) => Ok((event, start)),
                    Err(message) => {
                        let at = error_position(&self.inner);
                        Err(self.xml_error(at, message))
                    },
                }
            },
        }
    }

    /// Character references and the five predefined entities; anything else
    /// is an error (no DTD, so no other entity can be defined).
    fn expand_reference(&self, name: &str, start: u64) -> (r: Result<String, Error>)
        ensures
            match reference_text(name@) {
                Some(t) => r matches Ok(s) && s@ == t,
                None => r matches Err(Error::Xml { location, message }) && location == self.location_of(start)
                    && (!is_char_ref(name@) ==> message@ == "undefined entity &"@ + name@ + ";"@),
            },
    {
        match char_reference(name) {
            Ok(Some(c)) => {
                let mut s = String::new();
                push_char(&mut s, c);
                return Ok(s);
            },
            Ok(None) => {},
            Err(message) => return Err(self.xml_error(start, message)),
        }
        if str_eq(name, "amp") {
            Ok(owned("&"))
        } else if str_eq(name, "lt") {
            Ok(owned("<"))
        } else if str_eq(name, "gt") {
            Ok(owned(">"))
        } else if str_eq(name, "quot") {
            Ok(owned("\""))
        } else if str_eq(name, "apos") {
            Ok(owned("'"))
        } else {
            let mut message = owned("undefined entity &");
            append(&mut message, name);
            append(&mut message, ";");
            Err(self.xml_error(start, message))
        }
    }

    /// Append the text, CDATA and references that follow `first`.
    fn merge_text(&mut self, first: String) -> (r: Result<String, Error>)
        ensures
            same_input(*old(self), *final(self)),
            same_start(*old(self), *final(self)),
            r matches Ok(t) ==> first@.is_prefix_of(t@),
            r matches Err(e) ==> e is Xml,
            old(self).taken@.is_prefix_of(final(self).taken@),
            r is Ok ==> merges_text(final(self).taken@.skip(old(self).taken@.len() as int))
                && final(self).pending is Some,
    {
        let mut text = first;
        let mut budget = event_budget(self.buf);
        assert(self.taken@.skip(old(self).taken@.len() as int) =~= Seq::<EventKind>::empty());
        loop
            invariant
                same_input(*old(self), *self),
                same_start(*old(self), *self),
                first@.is_prefix_of(text@),
                old(self).taken@.is_prefix_of(self.taken@),
                forall|k: int| 0 <= k < self.taken@.skip(old(self).taken@.len() as int).len() ==> is_text_kind(
                    #[trigger] self.taken@.skip(old(self).taken@.len() as int)[k],
                ) || self.taken@.skip(old(self).taken@.len() as int)[k] is Ignored,
            decreases budget,
        {
            if budget == 0 {
                return Err(self.stalled());
            }
            budget = budget - 1;
            let (event, start) = self.read_raw()?;
            let kind = event_kind(&event);
            let ghost seg = self.taken@.skip(old(self).taken@.len() as int);
            proof {
                self.taken = Ghost(self.taken@.push(kind));
                assert(self.taken@.skip(old(self).taken@.len() as int) =~= seg.push(kind));
                assert(self.taken@.take(old(self).taken@.len() as int) =~= old(self).taken@);
            }
            match kind {
                EventKind::Text | EventKind::CData => {
                    let more = event_content(&event);
                    let ghost before = text@;
                    append(&mut text, more.as_str());
                    assert(first@.is_prefix_of(text@)) by {
                        assert(text@.subrange(0, first@.len() as int) == before.subrange(0, first@.len() as int));
                    }
                },
                EventKind::Reference => {
                    let name = event_content(&event);
                    let expanded = self.expand_reference(name.as_str(), start)?;
                    let ghost before = text@;
                    append(&mut text, expanded.as_str());
                    assert(first@.is_prefix_of(text@)) by {
                        assert(text@.subrange(0, first@.len() as int) == before.subrange(0, first@.len() as int));
                    }
                },
                EventKind::Ignored => {},
                _ => {
                    self.pending = Some((event, start));
                    return Ok(text);
                },
            }
        }
    }

    /// The text between `<` and `>` of the tag starting at `start`, with the
    /// reader at `end`.
    fn tag_text(&self, start: u64, end: u64) -> (r: String)
        ensures
            valid_utf8(tag_bytes(self.buf@, start as int, end as int)) ==> encode_utf8(r@) == tag_bytes(self.buf@, start as int, end as int),
            !valid_utf8(tag_bytes(self.buf@, start as int, end as int)) ==> r@.len() == 0,
    {
        let len = self.buf.len();
        let e: usize = if end <= len as u64 { end as usize } else { len };
        let s: usize = if start < e as u64 { (start + 1) as usize } else { e };
        let mut t = slice_subrange(self.buf, s, e);
        let ghost t0 = t@;
        if t.len() > 0 && t[t.len() - 1] == 0x3Eu8 {
            t = slice_subrange(t, 0, t.len() - 1);
        }
        assert(t@ == strip_last(t0, 0x3Eu8));
        let ghost t1 = t@;
        if t.len() > 0 && t[t.len() - 1] == 0x2Fu8 {
            t = slice_subrange(t, 0, t.len() - 1);
        }
        assert(t@ == strip_last(t1, 0x2Fu8));
        match utf8_string(t) {
            Some(text) => text,
            None => String::new(),
        }
    }

    /// Resolves an element name in the current scope; an undeclared prefix
    /// is an error.
    fn resolve_element(&self, name: &str) -> (r: Result<QName, Error>)
        ensures
            r matches Ok(q) ==> q@.1 == local_part(name@),
            prefix_part(name@) is None ==> r is Ok,
            r is Err ==> prefix_part(name@) is Some,
            r matches Err(e) ==> (e matches Error::Xml { message, .. }
                && message@ == undeclared_prefix_message(prefix_part(name@).unwrap(), name@)),
    {
        let (resolution, local) = resolve_element_name(&self.inner, name);
        match resolution {
            Resolution::Unbound => Ok(QName { ns: None, local }),
            Resolution::Bound(uri) => Ok(QName { ns: Some(uri), local }),
            Resolution::Unknown(prefix) => {
                let mut message = owned("undeclared namespace prefix `");
                append(&mut message, prefix.as_str());
                append(&mut message, "` in <");
                append(&mut message, name);
                append(&mut message, ">");
                let position = buffer_position(&self.inner);
                Err(self.xml_error(position, message))
            },
        }
    }

    /// The next event: a start tag with its attributes, an end tag, the
    /// merged text up to the next markup, or the end of the buffer. A
    /// DOCTYPE is refused (`DtdNotSupported`) when it is read; every other
    /// failure is an XML error.
    pub fn next_event(&mut self) -> (r: Result<XmlEvent, Error>)
        ensures
            final(self).buffer() == old(self).buffer(),
            final(self).base() == old(self).base(),
            final(self).source_id() == old(self).source_id(),
            r matches Ok(e) ==> final(self).delivered() == old(self).delivered().push(event_view(e)),
            r is Err ==> final(self).delivered() == old(self).delivered(),
            r matches Ok(XmlEvent::Start { name, attrs }) ==> final(self).current_start_view() == Some((name@, attrs@)),
            (r is Ok && !(r matches Ok(XmlEvent::Start { .. }))) ==> (
                final(self).start_position() == old(self).start_position()
                && final(self).current_start_view() == old(self).current_start_view()),
            r matches Err(Error::DtdNotSupported(location)) ==> location.source == old(self).source_id(),
            r matches Err(e) ==> e is Xml || e is DtdNotSupported,
            r matches Err(Error::DtdNotSupported(_)) ==> final(self).raw_taken().len() > old(self).raw_taken().len()
                && final(self).raw_taken().last() is DocType,
    {
        let r = self.read_next();
        if let Ok(e) = &r {
            proof {
                self.log = Ghost(self.log@.push(event_view(*e)));
            }
        }
        r
    }

    fn read_next(&mut self) -> (r: Result<XmlEvent, Error>)
        ensures
            same_input(*old(self), *final(self)),
            r matches Ok(XmlEvent::Start { name, attrs }) ==> final(self).current_start_view() == Some((name@, attrs@)),
            (r is Ok && !(r matches Ok(XmlEvent::Start { .. }))) ==> (
                final(self).start_position() == old(self).start_position()
                && final(self).current_start_view() == old(self).current_start_view()),
            r matches Err(Error::DtdNotSupported(location)) ==> location.source == old(self).source_id(),
            r matches Err(e) ==> e is Xml || e is DtdNotSupported,
            r matches Err(Error::DtdNotSupported(_)) ==> final(self).taken@.len() > old(self).taken@.len()
                && final(self).taken@.last() is DocType,
            old(self).taken@.is_prefix_of(final(self).taken@),
            ({
                let taken = final(self).taken@.skip(old(self).taken@.len() as int);
                &&& r matches Ok(XmlEvent::Start { .. }) ==> first_taken(taken, taken.len() - 1) && taken.last() is Start
                &&& r matches Ok(XmlEvent::End { .. }) ==> first_taken(taken, taken.len() - 1) && taken.last() is End
                &&& r matches Ok(XmlEvent::Eof) ==> first_taken(taken, taken.len() - 1) && taken.last() is Eof
                &&& r matches Ok(XmlEvent::Text(_)) ==> exists|i: int| first_taken(taken, i) && is_text_kind(
                    #[trigger] taken[i],
                )
            }),
    {
        let mut budget = event_budget(self.buf);
        assert(self.taken@.skip(old(self).taken@.len() as int) =~= Seq::<EventKind>::empty());
        loop
            invariant
                same_input(*old(self), *self),
                same_start(*old(self), *self),
                old(self).taken@.is_prefix_of(self.taken@),
                forall|k: int| 0 <= k < self.taken@.skip(old(self).taken@.len() as int).len() ==> is_passed_over(
                    #[trigger] self.taken@.skip(old(self).taken@.len() as int)[k],
                ),
            decreases budget,
        {
            if budget == 0 {
                return Err(self.stalled());
            }
            budget = budget - 1;
            let (event, start) = self.read_raw()?;
            let kind = event_kind(&event);
            let ghost seg = self.taken@.skip(old(self).taken@.len() as int);
            proof {
                self.taken = Ghost(self.taken@.push(kind));
                assert(self.taken@.skip(old(self).taken@.len() as int) =~= seg.push(kind));
                assert(self.taken@.take(old(self).taken@.len() as int) =~= old(self).taken@);
                assert(first_taken(seg.push(kind), seg.len() as int));
            }
            let ghost at = self.taken@.len() - 1;
            match kind {
                EventKind::Start => {
                    self.last_start = start;
                    let raw_name = event_content(&event);
                    let name = self.resolve_element(raw_name.as_str())?;
                    let end = buffer_position(&self.inner);
                    let tag = self.tag_text(start, end);
                    let attrs = self.read_attributes(tag.as_str(), raw_name.as_str());
                    self.last_start_tag = Some((name.duplicate(), attrs.duplicate()));
                    return Ok(XmlEvent::Start { name, attrs });
                },
                EventKind::End => {
                    let raw_name = event_content(&event);
                    let name = self.resolve_element(raw_name.as_str())?;
                    return Ok(XmlEvent::End { name });
                },
                EventKind::Text | EventKind::CData => {
                    let first = event_content(&event);
                    let ghost mid = self.taken@;
                    let text = self.merge_text(first)?;
                    proof {
                        lemma_text_found(old(self).taken@, mid, self.taken@);
                    }
                    return Ok(XmlEvent::Text(text));
                },
                EventKind::Reference => {
                    let reference = event_content(&event);
                    let first = self.expand_reference(reference.as_str(), start)?;
                    let ghost mid = self.taken@;
                    let text = self.merge_text(first)?;
                    proof {
                        lemma_text_found(old(self).taken@, mid, self.taken@);
                    }
                    return Ok(XmlEvent::Text(text));
                },
                EventKind::DocType => {
                    return Err(Error::DtdNotSupported(self.location_at(start)));
                },
                EventKind::Empty => {
                    return Err(self.xml_error(start, owned("unexpected self-closing tag")));
                },
                EventKind::Ignored | EventKind::Declaration => {},
                EventKind::Eof => {
                    return Ok(XmlEvent::Eof);
                },
            }
        }
    }

    /// Skip the current element and its subtree without resolving names.
    ///
    /// Call it right after the element's `Start`; the next event is whatever
    /// follows the element's end tag.
    pub fn skip_element(&mut self) -> (r: Result<(), Error>)
        ensures
            final(self).buffer() == old(self).buffer(),
            final(self).base() == old(self).base(),
            final(self).source_id() == old(self).source_id(),
            final(self).start_position() == old(self).start_position(),
            final(self).current_start_view() == old(self).current_start_view(),
            r matches Err(Error::DtdNotSupported(location)) ==> location.source == old(self).source_id(),
            final(self).raw_taken().len() >= old(self).raw_taken().len(),
            final(self).raw_taken().take(old(self).raw_taken().len() as int) == old(self).raw_taken(),
            r is Ok ==> skips_element(final(self).raw_taken().skip(old(self).raw_taken().len() as int)),
    {
        let mut depth: usize = 0;
        let total = event_budget(self.buf);
        let mut budget = total;
        assert(self.taken@.skip(old(self).taken@.len() as int) =~= Seq::<EventKind>::empty());
        assert(Seq::<EventKind>::empty().take(0) =~= Seq::<EventKind>::empty());
        loop
            invariant
                same_input(*old(self), *self),
                same_start(*old(self), *self),
                depth + budget <= total,
                old(self).taken@.is_prefix_of(self.taken@),
                stays_within(self.taken@.skip(old(self).taken@.len() as int)),
                depth == kind_depth(self.taken@.skip(old(self).taken@.len() as int)),
            decreases budget,
        {
            if budget == 0 {
                return Err(self.stalled());
            }
            budget = budget - 1;
            let (event, start) = self.read_raw()?;
            let kind = event_kind(&event);
            let ghost seg = self.taken@.skip(old(self).taken@.len() as int);
            proof {
                self.taken = Ghost(self.taken@.push(kind));
                assert(self.taken@.skip(old(self).taken@.len() as int) =~= seg.push(kind));
                assert(self.taken@.take(old(self).taken@.len() as int) =~= old(self).taken@);
                assert(seg.push(kind).drop_last() == seg);
            }
            match kind {
                EventKind::Start => {
                    depth = depth + 1;
                    proof { lemma_stays_within_push(seg, EventKind::Start); }
                },
                EventKind::End => {
                    if depth == 0 {
                        return Ok(());
                    }
                    depth = depth - 1;
                    proof { lemma_stays_within_push(seg, EventKind::End); }
                },
                EventKind::DocType => {
                    return Err(Error::DtdNotSupported(self.location_at(start)));
                },
                EventKind::Eof => {
                    return Err(self.xml_error(start, owned("unexpected end of input inside an element")));
                },
                _ => {
                    proof { lemma_stays_within_push(seg, self.taken@.last()); }
                },
            }
        }
    }

    /// Return the raw XML of the current element's subtree (for `RawXml` columns).
    ///
    /// Call it right after the element's `Start`. The result runs from the
    /// start tag to the end tag, as written; namespace declarations inherited
    /// from ancestors are not added.
    pub fn capture_element(&mut self) -> (r: Result<String, Error>)
        ensures
            final(self).buffer() == old(self).buffer(),
            final(self).base() == old(self).base(),
            final(self).source_id() == old(self).source_id(),
            r matches Ok(text) ==> raw_text_from(text@, final(self).buffer(), old(self).start_position() as usize),
    {
        let start = self.last_start_position();
        self.skip_element()?;
        let text = self.raw_since(start);
        assert(start == old(self).start_position() as usize);
        Ok(text)
    }

    /// Name and attributes of the last `Start` returned by [`Self::next_event`].
    ///
    /// For consumers handed the reader right after a start tag whose event
    /// the caller has already taken (the geometry parser, for example).
    pub fn current_start(&self) -> (r: Option<(QName, Attributes)>)
        ensures
            match r {
                Some((name, attrs)) => self.current_start_view() == Some((name@, attrs@)),
                None => self.current_start_view() is None,
            },
    {
        match &self.last_start_tag {
            Some((name, attrs)) => Some((name.duplicate(), attrs.duplicate())),
            None => None,
        }
    }

    /// Buffer position where the last `Start` returned begins; pass it to
    /// [`Self::raw_since`] later to get the element's raw XML.
    pub fn last_start_position(&self) -> (r: usize)
        ensures
            r == self.start_position() as usize,
    {
        self.last_start as usize
    }

    /// The raw XML from `position` (see [`Self::last_start_position`]) to the
    /// current position, as written.
    pub fn raw_since(&self, position: usize) -> (r: String)
        ensures
            raw_text_from(r@, self.buffer(), position),
    {
        let len = self.buf.len();
        let p = buffer_position(&self.inner);
        let end: usize = if p <= len as u64 { p as usize } else { len };
        let from: usize = if position <= end { position } else { end };
        let bytes = slice_subrange(self.buf, from, end);
        let r = lossy_string(bytes);
        assert(raw_text(r@, self.buffer(), position as int, end as int));
        assert(raw_text_from(r@, self.buffer(), position));
        r
    }

    /// The attributes of the start tag `tag` named `name`, resolved in the
    /// current scope. Malformed attributes and attributes with an undeclared
    /// prefix are skipped.
    fn read_attributes(&self, tag: &str, name: &str) -> (r: Attributes)
        ensures
            forall|i: int| 0 <= i < r@.len() ==> read_from(#[trigger] r@[i], attributes_in_tag(tag@, name@)),
            starts_with(tag@, name@) ==> forall|j: int| 0 <= j < attributes_in_tag(tag@, name@).len() ==> match #[trigger] attributes_in_tag(tag@, name@)[j] {
                Some((key, value)) => (!is_namespace_binding(key) && prefix_part(key) is None) ==> r@.contains((None, key, xml_unescaped(value))),
                None => true,
            },
            !starts_with(tag@, name@) ==> r@.len() == 0,
    {
        let tag_chars = chars_of(tag);
        let name_chars = chars_of(name);
        if !starts_with_exec(tag_chars.as_slice(), name_chars.as_slice()) {
            let r = Attributes { items: Vec::new() };
            assert(r@ =~= Seq::<(Option<Seq<char>>, Seq<char>, Seq<char>)>::empty());
            return r;
        }
        let raw = tag_attributes(tag, name);
        let ghost raw_view = attributes_in_tag(tag@, name@);
        assert(raw_view.len() == raw@.len());
        let mut items: Vec<Attribute> = Vec::new();
        let mut j: usize = 0;
        while j < raw.len()
            invariant
                j <= raw@.len(),
                raw_view == raw@.map_values(|a: Option<(String, String)>| raw_attribute_view(a)),
                forall|i: int| 0 <= i < items@.len() ==> exists|k: int| 0 <= k < j
                    && attribute_from(attribute_view(#[trigger] items@[i]), raw_view[k]),
                forall|k: int| 0 <= k < j ==> match #[trigger] raw_view[k] {
                    Some((key, value)) => (!is_namespace_binding(key) && prefix_part(key) is None)
                        ==> items@.map_values(|a: Attribute| attribute_view(a)).contains((None, key, xml_unescaped(value))),
                    None => true,
                },
            decreases raw.len() - j,
        {
            assert(raw_view[j as int] == raw_attribute_view(raw@[j as int]));
            let ghost before = items@;
            match &raw[j] {
                Some((key, value)) => {
                    if !namespace_binding(key.as_str()) {
                        let (resolution, local) = resolve_attribute_name(&self.inner, key.as_str());
                        let ns = match resolution {
                            Resolution::Unbound => Some(None),
                            Resolution::Bound(uri) => Some(Some(uri)),
                            Resolution::Unknown(_) => None,
                        };
                        match ns {
                            Some(ns) => {
                                let attribute = Attribute { ns, local, value: unescape(value.as_str()) };
                                items.push(attribute);
                                assert(attribute_from(attribute_view(items@[items@.len() - 1]), raw_view[j as int]));
                            },
                            None => {},
                        }
                    }
                },
                None => {},
            }
            proof {
                assert forall|i: int| 0 <= i < items@.len() implies exists|k: int| 0 <= k < j + 1
                    && attribute_from(attribute_view(#[trigger] items@[i]), raw_view[k]) by {
                    if i < before.len() {
                        assert(items@[i] == before[i]);
                    } else {
                        assert(attribute_from(attribute_view(items@[i]), raw_view[j as int]));
                    }
                }
                let old_view = before.map_values(|a: Attribute| attribute_view(a));
                let new_view = items@.map_values(|a: Attribute| attribute_view(a));
                assert forall|x: (Option<Seq<char>>, Seq<char>, Seq<char>)| old_view.contains(x) implies new_view.contains(x) by {
                    let w = choose|w: int| 0 <= w < old_view.len() && old_view[w] == x;
                    assert(new_view[w] == x);
                }
                assert forall|k: int| 0 <= k < j + 1 implies match #[trigger] raw_view[k] {
                    Some((key, value)) => (!is_namespace_binding(key) && prefix_part(key) is None)
                        ==> new_view.contains((None, key, xml_unescaped(value))),
                    None => true,
                } by {
                    if k == j {
                        match raw_view[k] {
                            Some((key, value)) => {
                                if !is_namespace_binding(key) && prefix_part(key) is None {
                                    assert(new_view[new_view.len() - 1] == (None::<Seq<char>>, key, xml_unescaped(value)));
                                }
                            },
                            None => {},
                        }
                    }
                }
            }
            j = j + 1;
        }
        let r = Attributes { items };
        assert(r@ == items@.map_values(|a: Attribute| attribute_view(a)));
        proof {
            assert forall|i: int| 0 <= i < r@.len() implies read_from(#[trigger] r@[i], attributes_in_tag(tag@, name@)) by {
                assert(r@[i] == attribute_view(items@[i]));
                let k = choose|k: int| 0 <= k < raw@.len() && attribute_from(attribute_view(items@[i]), raw_view[k]);
                assert(attribute_from(r@[i], attributes_in_tag(tag@, name@)[k]));
            }
        }
        r
    }
}

} // verus!
