//! Feature-boundary splitter: finds feature members without full parsing and
//! cuts the stream into [`FeatureChunk`]s.
//!
//! The splitter is a byte scanner, not an XML parser. It finds markup by its
//! `<`, skips comments, CDATA sections and processing instructions as a
//! whole, and reads start tags with quoted attribute values in mind. Names are
//! resolved only outside features: for the root, the containers and the
//! feature elements themselves. Inside a feature it only counts depth, and a
//! feature of a layer that was not asked for is passed over without being
//! copied. A collection's `boundedBy` is copied like a feature and travels
//! with the chunks of the features it bounds, which inherit its srsName.
//!
//! Input arrives in pieces ([`FeatureSplitter::push_input`]); the splitter
//! asks for more when markup is not complete yet.

use vstd::prelude::*;

use crate::attributes::{
    attribute_error_text, attributes_from, lossy_string, parse_attributes, unescape, utf8_string, xml_unescaped,
};
use vstd::utf8::{decode_utf8, encode_utf8_decode_utf8, valid_utf8};
use crate::chunk::{
    append_range, chunk_ok, concat_spans, lemma_concat_extend, lemma_concat_len,
    lemma_queue_extend, lemma_queue_push, lemma_spans_count, queue_next, queue_ok, spans_bytes, spans_end, spans_ok,
    within_target, all_within, lemma_all_within_push,
};
use crate::namespace::BindingView;
use crate::reader::is_namespace_binding;
use crate::scan::{
    Kind, Markup, no_open, start_tag_complete, ScanError, Scanned, markup_ok, next_feature_markup, next_markup, trim_ascii_range, trimmed_bytes,
};
use crate::text::{
    append, chars_of, first_index_of, index_of, is_ascii_space, is_space, opt_string_view, owned,
    slice_of, starts_with, starts_with_exec, str_eq, string_from, string_of,
};
use crate::{Error, FeatureChunk, Location, NamespaceContext, QName, RawElement, SourceId, ns};

verus! {

/// Which elements wrap features.
#[derive(Debug, Clone)]
pub enum MemberRule {
    /// Each child element is one feature: `gml:featureMember`, `wfs:member`.
    OnePerElement(QName),
    /// Each child element of this container is a feature: `gml:featureMembers`.
    ManyPerElement(QName),
}

/// A rule as values: whether each member holds one feature, and the name.
pub open spec fn rule_view(r: MemberRule) -> (bool, (Option<Seq<char>>, Seq<char>)) {
    match r {
        MemberRule::OnePerElement(n) => (true, n@),
        MemberRule::ManyPerElement(n) => (false, n@),
    }
}

impl PartialEq for MemberRule {
    fn eq(&self, other: &Self) -> (r: bool) {
        match (self, other) {
            (MemberRule::OnePerElement(a), MemberRule::OnePerElement(b)) => a == b,
            (MemberRule::ManyPerElement(a), MemberRule::ManyPerElement(b)) => a == b,
            _ => false,
        }
    }
}

impl vstd::std_specs::cmp::PartialEqSpecImpl for MemberRule {
    open spec fn obeys_eq_spec() -> bool {
        true
    }

    open spec fn eq_spec(&self, other: &Self) -> bool {
        rule_view(*self) == rule_view(*other)
    }
}

impl Eq for MemberRule {
}

/// The built-in rules: `gml:featureMember` and `gml:featureMembers` in both
/// GML namespaces, and WFS 2.0 `wfs:member`.
pub open spec fn builtin_rules() -> Seq<(bool, (Option<Seq<char>>, Seq<char>))> {
    seq![
        (true, (Some(ns::GML_32@), "featureMember"@)),
        (true, (Some(ns::GML@), "featureMember"@)),
        (false, (Some(ns::GML_32@), "featureMembers"@)),
        (false, (Some(ns::GML@), "featureMembers"@)),
        (true, (Some(ns::WFS_20@), "member"@)),
    ]
}

/// The rules as values.
pub open spec fn rules_view(rules: Seq<MemberRule>) -> Seq<(bool, (Option<Seq<char>>, Seq<char>))> {
    rules.map_values(|r: MemberRule| rule_view(r))
}

impl MemberRule {
    pub fn element(&self) -> (r: &QName)
        ensures
            r@ == rule_view(*self).1,
    {
        match self {
            MemberRule::OnePerElement(name) => name,
            MemberRule::ManyPerElement(name) => name,
        }
    }

    /// `gml:featureMember` and `gml:featureMembers` in both GML namespaces,
    /// and WFS 2.0 `wfs:member`.
    pub fn builtin() -> (r: Vec<MemberRule>)
        ensures
            rules_view(r@) == builtin_rules(),
    {
        let r = vec![
            MemberRule::OnePerElement(QName::new(Some(ns::GML_32), "featureMember")),
            MemberRule::OnePerElement(QName::new(Some(ns::GML), "featureMember")),
            MemberRule::ManyPerElement(QName::new(Some(ns::GML_32), "featureMembers")),
            MemberRule::ManyPerElement(QName::new(Some(ns::GML), "featureMembers")),
            MemberRule::OnePerElement(QName::new(Some(ns::WFS_20), "member")),
        ];
        assert(rules_view(r@) =~= builtin_rules());
        r
    }

    /// A copy with the same view.
    pub fn duplicate(&self) -> (r: MemberRule)
        ensures
            rule_view(r) == rule_view(*self),
    {
        match self {
            MemberRule::OnePerElement(name) => MemberRule::OnePerElement(name.duplicate()),
            MemberRule::ManyPerElement(name) => MemberRule::ManyPerElement(name.duplicate()),
        }
    }
}

/// The default target chunk size: 16 MiB.
pub const DEFAULT_TARGET_CHUNK_BYTES: usize = 16777216;

pub struct SplitterOptions {
    /// Target chunk size; chunks are cut at the next feature boundary.
    pub target_chunk_bytes: usize,
    /// Built-in rules (`featureMember`, `featureMembers`, `wfs:member`) plus custom ones.
    pub member_rules: Vec<MemberRule>,
    /// Treat a document whose root is a feature as a single-feature dataset.
    ///
    /// The root counts as a feature when it is not a known collection and no
    /// member element turns up inside it. Until one does, the document is
    /// held in memory.
    pub allow_single_feature_root: bool,
    /// Only these feature types enter chunks; others are skipped unparsed.
    /// Set by every read (one layer); `None` for scans. An entry without a
    /// namespace matches that local name in any namespace (a read that names
    /// its layer by local name only).
    pub layers: Option<Vec<QName>>,
}

impl Default for SplitterOptions {
    /// 16 MiB chunks, the built-in member rules, no single-feature root, every layer.
    fn default() -> (r: SplitterOptions)
        ensures
            r.target_chunk_bytes == DEFAULT_TARGET_CHUNK_BYTES,
            rules_view(r.member_rules@) == builtin_rules(),
            !r.allow_single_feature_root,
            r.layers is None,
    {
        SplitterOptions {
            target_chunk_bytes: DEFAULT_TARGET_CHUNK_BYTES,
            member_rules: MemberRule::builtin(),
            allow_single_feature_root: false,
            layers: None,
        }
    }
}

impl SplitterOptions {
    /// A copy of these options.
    pub fn duplicate(&self) -> (r: SplitterOptions)
        ensures
            r.target_chunk_bytes == self.target_chunk_bytes,
            rules_view(r.member_rules@) == rules_view(self.member_rules@),
            r.allow_single_feature_root == self.allow_single_feature_root,
            layers_view(r.layers) == layers_view(self.layers),
    {
        let mut rules: Vec<MemberRule> = Vec::new();
        let mut i: usize = 0;
        while i < self.member_rules.len()
            invariant
                i <= self.member_rules@.len(),
                rules@.len() == i,
                forall|j: int| 0 <= j < i ==> rule_view(#[trigger] rules@[j]) == rule_view(self.member_rules@[j]),
            decreases self.member_rules.len() - i,
        {
            rules.push(self.member_rules[i].duplicate());
            i = i + 1;
        }
        assert(rules_view(rules@) =~= rules_view(self.member_rules@));
        let layers = match &self.layers {
            Some(names) => {
                let mut out: Vec<QName> = Vec::new();
                let mut k: usize = 0;
                while k < names.len()
                    invariant
                        k <= names@.len(),
                        out@.len() == k,
                        forall|j: int| 0 <= j < k ==> (#[trigger] out@[j])@ == names@[j]@,
                    decreases names.len() - k,
                {
                    out.push(names[k].duplicate());
                    k = k + 1;
                }
                assert(names_view(out@) =~= names_view(names@));
                Some(out)
            },
            None => None,
        };
        SplitterOptions {
            target_chunk_bytes: self.target_chunk_bytes,
            member_rules: rules,
            allow_single_feature_root: self.allow_single_feature_root,
            layers,
        }
    }
}

/// Names as values.
pub open spec fn names_view(names: Seq<QName>) -> Seq<(Option<Seq<char>>, Seq<char>)> {
    names.map_values(|n: QName| n@)
}

/// The layer filter wants a feature named `name`: no filter, or one of its
/// entries accepts the name.
pub open spec fn wanted_layer(
    layers: Option<Seq<(Option<Seq<char>>, Seq<char>)>>,
    name: (Option<Seq<char>>, Seq<char>),
) -> bool {
    match layers {
        Some(ls) => accepted_by(ls, name),
        None => true,
    }
}

/// One of the filter entries `ls` accepts `name`.
pub open spec fn accepted_by(ls: Seq<(Option<Seq<char>>, Seq<char>)>, name: (Option<Seq<char>>, Seq<char>)) -> bool {
    exists|i: int| 0 <= i < ls.len() && layer_accepts(#[trigger] ls[i], name)
}

/// The layer filter as values.
pub open spec fn layers_view(layers: Option<Vec<QName>>) -> Option<Seq<(Option<Seq<char>>, Seq<char>)>> {
    match layers {
        Some(names) => Some(names_view(names@)),
        None => None,
    }
}

/// One filter entry accepts a name: exactly, or by local name for an entry
/// without a namespace.
pub open spec fn layer_accepts(layer: (Option<Seq<char>>, Seq<char>), name: (Option<Seq<char>>, Seq<char>)) -> bool {
    layer == name || (layer.0 is None && layer.1 == name.1)
}

/// The layer filter: exact names, or local names for entries without a namespace.
pub fn layer_wanted(layers: &[QName], name: &QName) -> (r: bool)
    ensures
        r == exists|i: int| 0 <= i < layers@.len() && layer_accepts(#[trigger] layers@[i]@, name@),
{
    let mut i: usize = 0;
    while i < layers.len()
        invariant
            i <= layers@.len(),
            forall|j: int| 0 <= j < i ==> !layer_accepts(#[trigger] layers@[j]@, name@),
        decreases layers.len() - i,
    {
        let layer = &layers[i];
        if *layer == *name || (layer.ns.is_none() && str_eq(layer.local.as_str(), name.local.as_str())) {
            assert(layer_accepts(layers@[i as int]@, name@));
            return true;
        }
        i = i + 1;
    }
    false
}

/// The `boundedBy` of a collection: GML's, or WFS's own.
pub open spec fn is_bounded_by_name(name: (Option<Seq<char>>, Seq<char>)) -> bool {
    name.1 == "boundedBy"@ && (name.0 == Some(ns::GML@) || name.0 == Some(ns::GML_32@) || name.0 == Some(ns::WFS@)
        || name.0 == Some(ns::WFS_20@))
}

/// Collection elements, which are containers even inside a member.
pub open spec fn is_collection_name(name: (Option<Seq<char>>, Seq<char>)) -> bool {
    if name.0 == Some(ns::GML@) || name.0 == Some(ns::GML_32@) {
        name.1 == "FeatureCollection"@
    } else if name.0 == Some(ns::WFS@) || name.0 == Some(ns::WFS_20@) {
        name.1 == "FeatureCollection"@ || name.1 == "SimpleFeatureCollection"@ || name.1
            == "additionalObjects"@
    } else {
        false
    }
}

/// `true` if the namespace of `name` is `uri`.
fn in_namespace(name: &QName, uri: &str) -> (r: bool)
    ensures
        r == (name@.0 == Some(uri@)),
{
    match &name.ns {
        Some(n) => str_eq(n.as_str(), uri),
        None => false,
    }
}

/// The `boundedBy` of a collection: GML's, or WFS's own (`wfs:boundedBy`,
/// 2.0).
pub fn is_bounded_by(name: &QName) -> (r: bool)
    ensures
        r == is_bounded_by_name(name@),
{
    str_eq(name.local.as_str(), "boundedBy") && (in_namespace(name, ns::GML) || in_namespace(name, ns::GML_32)
        || in_namespace(name, ns::WFS) || in_namespace(name, ns::WFS_20))
}

/// Collection elements, which are containers even inside a member.
pub fn is_collection(name: &QName) -> (r: bool)
    ensures
        r == is_collection_name(name@),
{
    let local = name.local.as_str();
    if in_namespace(name, ns::GML) || in_namespace(name, ns::GML_32) {
        str_eq(local, "FeatureCollection")
    } else if in_namespace(name, ns::WFS) || in_namespace(name, ns::WFS_20) {
        str_eq(local, "FeatureCollection") || str_eq(local, "SimpleFeatureCollection") || str_eq(
            local,
            "additionalObjects",
        )
    } else {
        false
    }
}


/// The URI bound to `prefix` by the innermost declaration in `bs`.
pub open spec fn innermost_binding(bs: Seq<BindingView>, prefix: Option<Seq<char>>) -> Option<Seq<char>>
    decreases bs.len(),
{
    if bs.len() == 0 {
        None
    } else if bs.last().0 == prefix {
        Some(bs.last().1)
    } else {
        innermost_binding(bs.drop_last(), prefix)
    }
}

/// A name as written (`prefix:local` or `local`) split at its first `:`.
pub open spec fn split_name(raw: Seq<char>) -> (Option<Seq<char>>, Seq<char>) {
    match first_index_of(raw, ':') {
        Some(k) => (Some(raw.subrange(0, k)), raw.subrange(k + 1, raw.len() as int)),
        None => (None, raw),
    }
}

/// A name as written resolved against the declarations in scope, innermost
/// last. The `xml` prefix is predefined; an unprefixed attribute is in no
/// namespace; an unprefixed element takes the default namespace, which
/// `xmlns=""` undeclares. An undeclared prefix (or one bound to "") gives
/// `None`.
pub open spec fn resolve_raw(bs: Seq<BindingView>, raw: Seq<char>, element: bool) -> Option<(Option<Seq<char>>, Seq<char>)> {
    let (prefix, local) = split_name(raw);
    if prefix == Some("xml"@) {
        Some((Some(ns::XML@), local))
    } else if prefix is None && !element {
        Some((None, local))
    } else {
        match innermost_binding(bs, prefix) {
            Some(uri) => if uri.len() > 0 {
                Some((Some(uri), local))
            } else if prefix is None {
                Some((None, local))
            } else {
                None
            },
            None => if prefix is None {
                Some((None, local))
            } else {
                None
            },
        }
    }
}

/// Declarations as values.
pub open spec fn bindings_view(bs: Seq<(Option<String>, String)>) -> Seq<BindingView> {
    bs.map_values(|b: (Option<String>, String)| (opt_string_view(b.0), b.1@))
}

/// The optional name's view.
pub open spec fn opt_name_view(q: Option<QName>) -> Option<(Option<Seq<char>>, Seq<char>)> {
    match q {
        Some(n) => Some(n@),
        None => None,
    }
}

/// Resolve a name as written against the declarations of the open
/// elements (innermost last).
pub fn resolve_name(bindings: &Vec<(Option<String>, String)>, raw: &str, element: bool) -> (r: Option<QName>)
    ensures
        opt_name_view(r) == resolve_raw(bindings_view(bindings@), raw@, element),
{
    let chars = chars_of(raw);
    let n = chars.len();
    let (prefix, local) = match index_of(chars.as_slice(), ':') {
        Some(k) => (Some(string_from(chars.as_slice(), 0, k)), string_from(chars.as_slice(), k + 1, n)),
        None => (None, string_of(chars.as_slice())),
    };
    let ghost bs = bindings_view(bindings@);
    assert(opt_string_view(prefix) == split_name(raw@).0);
    assert(local@ == split_name(raw@).1);
    if let Some(p) = &prefix {
        if str_eq(p.as_str(), "xml") {
            return Some(QName::new(Some(ns::XML), local.as_str()));
        }
    }
    if prefix.is_none() && !element {
        return Some(QName::new(None, local.as_str()));
    }
    let mut i = bindings.len();
    assert(bs.subrange(0, i as int) =~= bs);
    while i > 0
        invariant
            i <= bindings@.len(),
            bs == bindings_view(bindings@),
            opt_string_view(prefix) != Some("xml"@),
            opt_string_view(prefix) is Some || element,
            opt_string_view(prefix) == split_name(raw@).0,
            local@ == split_name(raw@).1,
            innermost_binding(bs, opt_string_view(prefix)) == innermost_binding(bs.subrange(0, i as int), opt_string_view(prefix)),
        decreases i,
    {
        let (p, uri) = &bindings[i - 1];
        let same = match (p, &prefix) {
            (Some(a), Some(b)) => str_eq(a.as_str(), b.as_str()),
            (None, None) => true,
            _ => false,
        };
        assert(bs.subrange(0, i as int).last() == bs[i - 1]);
        assert(bs.subrange(0, i as int).drop_last() =~= bs.subrange(0, i - 1));
        if same {
            assert(innermost_binding(bs.subrange(0, i as int), opt_string_view(prefix)) == Some(uri@));
            if !uri.as_str().is_empty() {
                return Some(QName::new(Some(uri.as_str()), local.as_str()));
            }
            return if prefix.is_none() {
                Some(QName::new(None, local.as_str()))
            } else {
                None
            };
        }
        i = i - 1;
    }
    assert(bs.subrange(0, 0) =~= Seq::<BindingView>::empty());
    if prefix.is_none() {
        Some(QName::new(None, local.as_str()))
    } else {
        None
    }
}


/// Information about the document root, collected before the first chunk.
#[derive(Debug)]
pub struct DocumentHeader {
    pub root: QName,
    pub namespaces: NamespaceContext,
    pub schema_location: Option<String>,
    /// WFS 2.0 `numberMatched` / `numberReturned` / `next`, WFS 1.1 `numberOfFeatures`.
    pub wfs_attributes: Vec<(QName, String)>,
    /// Root declares `xmlns:fme="http://www.safe.com/gml/fme"`.
    pub fme_produced: bool,
}

/// Unprefixed root attributes kept in [`DocumentHeader::wfs_attributes`].
pub open spec fn is_wfs_attribute(name: Seq<char>) -> bool {
    name == "numberMatched"@ || name == "numberReturned"@ || name == "numberOfFeatures"@ || name == "next"@
        || name == "previous"@ || name == "timeStamp"@
}

/// The root attributes a header keeps: the unprefixed WFS response
/// attributes (no namespace declaration), in order, with their values
/// unescaped.
pub open spec fn wfs_attributes_of(attributes: Seq<(Seq<char>, Seq<char>)>) -> Seq<((Option<Seq<char>>, Seq<char>), Seq<char>)>
    decreases attributes.len(),
{
    if attributes.len() == 0 {
        Seq::empty()
    } else {
        let a = attributes.last();
        let rest = wfs_attributes_of(attributes.drop_last());
        if !is_namespace_binding(a.0) && first_index_of(a.0, ':') is None && is_wfs_attribute(a.0) {
            rest.push(((None, a.0), xml_unescaped(a.1)))
        } else {
            rest
        }
    }
}

/// The value of the last root attribute that names `xsi:schemaLocation`
/// (its prefix resolved in `bindings`), unescaped.
pub open spec fn schema_location_of(bindings: Seq<BindingView>, attributes: Seq<(Seq<char>, Seq<char>)>) -> Option<Seq<char>>
    decreases attributes.len(),
{
    if attributes.len() == 0 {
        None
    } else {
        let a = attributes.last();
        if !is_namespace_binding(a.0) && first_index_of(a.0, ':') is Some && resolve_raw(bindings, a.0, false) == Some(
            (Some(ns::XSI@), "schemaLocation"@),
        ) {
            Some(xml_unescaped(a.1))
        } else {
            schema_location_of(bindings, attributes.drop_last())
        }
    }
}

/// The view of the kept attributes.
pub open spec fn wfs_view(v: Seq<(QName, String)>) -> Seq<((Option<Seq<char>>, Seq<char>), Seq<char>)> {
    v.map_values(|p: (QName, String)| (p.0@, p.1@))
}

fn wfs_attribute(name: &str) -> (r: bool)
    ensures
        r == is_wfs_attribute(name@),
{
    str_eq(name, "numberMatched") || str_eq(name, "numberReturned") || str_eq(name, "numberOfFeatures")
        || str_eq(name, "next") || str_eq(name, "previous") || str_eq(name, "timeStamp")
}

#[derive(Debug, Clone, Copy, PartialEq, Eq, Structural)]
enum Mode {
    /// Before the root element.
    Prolog,
    /// Inside the root, outside any feature.
    Outside,
    /// Inside a feature that started at stream offset `start`, or inside a
    /// collection's `boundedBy` (`bounded_by`), which is copied too. `depth`
    /// counts the open elements named like it, itself included.
    Feature { depth: u64, emit: bool, start: u64, bounded_by: bool },
    /// After the root element.
    Epilog,
}

/// An open element outside features.
#[derive(Debug)]
struct Frame {
    /// The name as written, to check the end tag.
    raw_name: Vec<u8>,
    /// Children of this element are features (a member rule matched).
    members: bool,
    /// For member elements: a child element was seen.
    has_child: bool,
    /// Length of the declarations before this element's own.
    bindings_before: usize,
    /// The element's `boundedBy` with its serial number, for the features inside it.
    bounded_by: Option<(u64, RawElement)>,
}

/// What one call of [`FeatureSplitter::next_chunk`] gives.
#[derive(Debug)]
pub enum Poll {
    Chunk(FeatureChunk),
    /// More input is needed ([`FeatureSplitter::push_input`], or
    /// [`FeatureSplitter::end_input`] at the end).
    NeedInput,
    /// Every chunk was delivered.
    Done,
}

/// The outcome of one step over the input.
enum Stepped {
    Progress,
    NeedInput,
}

/// Chunks over one decoded source.
///
/// Features are copied into a chunk without the member elements around
/// them and without the text between them, so a chunk is a sequence of
/// sibling feature elements. Namespaces declared outside the features are in
/// [`FeatureChunk::namespaces`]; declarations on a feature element stay in
/// its bytes.
pub struct FeatureSplitter {
    source: SourceId,
    options: SplitterOptions,
    header: Option<DocumentHeader>,
    next_seq: u64,
    /// Unread input: `buf[pos..]`; `buf[0]` is at stream offset `base`.
    buf: Vec<u8>,
    pos: usize,
    base: u64,
    eof: bool,
    mode: Mode,
    /// Open elements outside features.
    stack: Vec<Frame>,
    /// Namespace declarations of the open elements, innermost last.
    bindings: Vec<(Option<String>, String)>,
    /// `bindings` changed since `context` was built.
    bindings_changed: bool,
    /// The declarations in scope, and a number that changes with them.
    context: NamespaceContext,
    context_id: u64,
    /// A member rule element or a known collection was seen.
    saw_container: bool,
    /// Start of the root while it may still turn out to be a single feature.
    root_candidate: Option<u64>,
    /// The root was emitted as a single feature.
    root_feature: bool,
    referenced_members: u64,
    next_bounded_by_id: u64,
    chunk: Vec<u8>,
    chunk_context: NamespaceContext,
    chunk_context_id: u64,
    chunk_offset: u64,
    chunk_first_feature: u64,
    chunk_bounded_by: Option<(u64, RawElement)>,
    features_emitted: u64,
    ready: Vec<FeatureChunk>,
    finished: bool,
    /// The name of the element in `Mode::Feature`, as written.
    feature_name: Vec<u8>,
    /// All input so far.
    stream: Ghost<Seq<u8>>,
    /// Where the features of `chunk` lie in the stream.
    chunk_spans: Ghost<Seq<(int, int)>>,
    /// Where the features of each ready chunk lie.
    ready_spans: Ghost<Seq<Seq<(int, int)>>>,
    /// Sequence number, first feature and stream offset after the chunks
    /// delivered so far.
    delivered: Ghost<(int, int, int)>,
    /// Where the features of the last chunk delivered lie.
    last_spans: Ghost<Seq<(int, int)>>,
}

impl FeatureSplitter {
    /// All input pushed so far.
    pub closed spec fn stream(&self) -> Seq<u8> {
        self.stream@
    }

    /// The sequence number of the next chunk to be delivered.
    pub closed spec fn next_delivered_seq(&self) -> int {
        self.delivered@.0
    }

    /// The sequence number of the first feature of the next chunk to be delivered.
    pub closed spec fn next_delivered_feature(&self) -> int {
        self.delivered@.1
    }

    /// The stream offset after the last feature delivered.
    pub closed spec fn delivered_end(&self) -> int {
        self.delivered@.2
    }

    /// Where the features of the last chunk delivered lie in the stream.
    pub closed spec fn last_spans(&self) -> Seq<(int, int)> {
        self.last_spans@
    }

    /// The document header is known.
    pub closed spec fn has_header(&self) -> bool {
        self.header is Some
    }

    /// Member elements seen so far that only refer to their features.
    pub closed spec fn references(&self) -> int {
        self.referenced_members as int
    }

    /// The target chunk size it was made with.
    pub closed spec fn target(&self) -> int {
        self.options.target_chunk_bytes as int
    }

    /// Every chunk has been delivered, or reading failed.
    pub closed spec fn is_finished(&self) -> bool {
        self.finished
    }

    /// The source the splitter reads.
    pub closed spec fn source_id(&self) -> SourceId {
        self.source
    }

    /// Chunks complete and not handed out yet.
    pub closed spec fn queued_chunks(&self) -> nat {
        self.ready@.len()
    }

    /// The input has ended.
    pub closed spec fn input_ended(&self) -> bool {
        self.eof
    }

    /// The input has ended and all of it has been read.
    pub closed spec fn read_through(&self) -> bool {
        self.eof && self.pos == self.buf@.len()
    }

    /// The document read is complete: outside its root element, with a
    /// feature or a collection of features seen.
    pub closed spec fn complete(&self) -> bool {
        document_complete(*self)
    }

    /// Waiting for input: outside features, all text before the position has
    /// been read, and the markup there, if any, is no whole start tag.
    pub closed spec fn awaiting_markup(&self) -> bool {
        !in_feature(self.mode) ==> (self.pos == self.buf@.len() || (self.buf@[self.pos as int] == 0x3Cu8
            && !start_tag_complete(self.buf@, self.pos as int)))
    }

    /// The document header read so far.
    pub closed spec fn document_header(&self) -> Option<DocumentHeader> {
        self.header
    }

    /// The header was read from a whole start tag `m` of the input, the first
    /// element of the document, as `start_tag_post` says of a tag read before
    /// the root: the header is `root_header` of its name and attributes.
    pub closed spec fn root_tag_read(&self) -> bool {
        exists|before: FeatureSplitter, m: Markup|
            #![trigger start_tag_post(before, *self, m, Ok(()))]
            before.mode == Mode::Prolog && before.buf@ == self.buf@ && markup_ok(self.buf@, m) && m.kind is Start
                && m.end == self.pos && start_tag_post(before, *self, m, Ok(()))
    }

    /// Reading failed with `e` in a step over this input, as `step_failed`
    /// says: refused markup, markup that could not be read, or an input that
    /// ended where the document is not complete.
    pub closed spec fn failed_with(&self, e: Error) -> bool {
        exists|before: FeatureSplitter, after: FeatureSplitter|
            #![trigger step_failed(before, after, e)]
            before.buf@ == self.buf@ && before.base == self.base && before.source == self.source && before.eof
                == self.eof && step_failed(before, after, e)
    }

    /// Not inside the root element: before it or after it.
    pub closed spec fn outside_root(&self) -> bool {
        self.mode == Mode::Epilog || self.mode == Mode::Prolog
    }

    /// The splitter's internal consistency: its consistency while a feature
    /// is being added, and the chunk being filled kept under the target.
    pub closed spec fn wf(&self) -> bool {
        &&& self.wf_core()
        &&& (self.chunk_spans@.len() == 0 || spans_bytes(self.chunk_spans@) < self.options.target_chunk_bytes)
    }

    /// The splitter's consistency, the chunk being filled allowed to have
    /// reached the target with its last feature.
    closed spec fn wf_core(&self) -> bool {
        let (nseq, nfirst, nafter) = queue_next(self.ready@, self.ready_spans@, self.delivered@.0, self.delivered@.1, self.delivered@.2);
        let last = spans_end(self.chunk_spans@, nafter);
        &&& self.buf@ == self.stream@.subrange(self.base as int, self.stream@.len() as int)
        &&& self.base + self.buf@.len() == self.stream@.len()
        &&& self.stream@.len() <= u64::MAX
        &&& self.pos <= self.buf@.len()
        &&& 0 <= self.delivered@.0 <= self.delivered@.1 <= self.delivered@.2
        &&& queue_ok(self.ready@, self.ready_spans@, self.stream@, self.delivered@.0, self.delivered@.1, self.delivered@.2)
        &&& self.next_seq == nseq
        &&& forall|i: int| 0 <= i < self.ready@.len() ==> (#[trigger] self.ready@[i]).source == self.source
        &&& nseq <= nfirst <= nafter
        &&& spans_ok(self.stream@, self.chunk_spans@, nafter)
        &&& self.chunk@ == concat_spans(self.stream@, self.chunk_spans@)
        &&& (self.chunk@.len() == 0) == (self.chunk_spans@.len() == 0)
        &&& self.chunk_spans@.len() > 0 ==> self.chunk_offset == self.chunk_spans@[0].0
        &&& self.chunk_first_feature == nfirst
        &&& self.features_emitted == nfirst + self.chunk_spans@.len()
        &&& within_target(self.chunk_spans@, self.options.target_chunk_bytes as int)
        &&& all_within(self.ready_spans@, self.options.target_chunk_bytes as int)
        &&& within_target(self.last_spans@, self.options.target_chunk_bytes as int)
        &&& last <= self.base + self.pos
        &&& (match self.mode {
            Mode::Feature { depth, emit, start, bounded_by } => {
                &&& 1 <= depth
                &&& start + depth <= self.base + self.pos
                &&& last <= start
                &&& emit ==> self.base <= start && self.stream@[start as int] == 0x3Cu8
                &&& emit && !bounded_by && self.chunk_spans@.len() == 0 ==> self.chunk_offset == start
                &&& !bounded_by ==> self.root_candidate is None
                &&& bounded_by ==> emit
            },
            Mode::Prolog => self.chunk_spans@.len() == 0 && self.stack@.len() == 0 && self.root_candidate is None
                && !self.saw_container && !self.root_feature,
            _ => true,
        })
        &&& (self.header is None <==> self.mode == Mode::Prolog)
        &&& (self.root_candidate matches Some(start) ==> {
            &&& self.base <= start < self.base + self.pos
            &&& self.stream@[start as int] == 0x3Cu8
            &&& last <= start
            &&& self.chunk_spans@.len() == 0
            &&& forall|i: int| 0 <= i < self.stack@.len() ==> !(#[trigger] self.stack@[i]).members
        })
        &&& self.referenced_members <= self.base + self.pos
        &&& self.context_id <= self.base + self.pos
        &&& self.next_bounded_by_id <= self.base + self.pos
        &&& forall|i: int, j: int| 0 <= i < j < self.stack@.len() ==> (#[trigger] self.stack@[i]).bindings_before
            <= (#[trigger] self.stack@[j]).bindings_before
        &&& self.stack@.len() > 0 ==> self.stack@.last().bindings_before <= self.bindings@.len()
    }

    pub fn new(source: SourceId, options: SplitterOptions) -> (r: FeatureSplitter)
        ensures
            r.wf(),
            r.stream() == Seq::<u8>::empty(),
            !r.input_ended(),
            r.next_delivered_seq() == 0,
            r.next_delivered_feature() == 0,
            r.delivered_end() == 0,
            r.target() == options.target_chunk_bytes,
    {
        let r = FeatureSplitter {
            source,
            options,
            header: None,
            next_seq: 0,
            buf: Vec::new(),
            pos: 0,
            base: 0,
            eof: false,
            mode: Mode::Prolog,
            stack: Vec::new(),
            bindings: Vec::new(),
            bindings_changed: false,
            context: NamespaceContext::new(),
            context_id: 0,
            saw_container: false,
            root_candidate: None,
            root_feature: false,
            referenced_members: 0,
            next_bounded_by_id: 0,
            chunk: Vec::new(),
            chunk_context: NamespaceContext::new(),
            chunk_context_id: 0,
            chunk_offset: 0,
            chunk_first_feature: 0,
            chunk_bounded_by: None,
            features_emitted: 0,
            ready: Vec::new(),
            finished: false,
            feature_name: Vec::new(),
            stream: Ghost(Seq::empty()),
            chunk_spans: Ghost(Seq::empty()),
            ready_spans: Ghost(Seq::empty()),
            delivered: Ghost((0, 0, 0)),
            last_spans: Ghost(Seq::empty()),
        };
        assert(r.buf@ =~= r.stream@.subrange(0, 0));
        r
    }

    /// Add the next piece of the decoded input. Ignored once the input has
    /// ended.
    pub fn push_input(&mut self, data: &[u8])
        requires
            old(self).wf(),
            old(self).stream().len() + data@.len() <= u64::MAX,
        ensures
            final(self).wf(),
            final(self).stream() == if old(self).input_ended() {
                old(self).stream()
            } else {
                old(self).stream() + data@
            },
            final(self).input_ended() == old(self).input_ended(),
            final(self).next_delivered_seq() == old(self).next_delivered_seq(),
            final(self).next_delivered_feature() == old(self).next_delivered_feature(),
            final(self).delivered_end() == old(self).delivered_end(),
            final(self).target() == old(self).target(),
    {
        if self.eof {
            return;
        }
        // Drop consumed bytes, keeping the feature being copied and a root
        // that may still be a single feature.
        let mut keep = self.pos;
        if let Mode::Feature { emit: true, start, .. } = self.mode {
            let from = (start - self.base) as usize;
            if from < keep {
                keep = from;
            }
        }
        if let Some(start) = self.root_candidate {
            let from = (start - self.base) as usize;
            if from < keep {
                keep = from;
            }
        }
        let ghost old_stream = self.stream@;
        let ghost old_buf = self.buf@;
        let mut buf: Vec<u8> = Vec::new();
        let mut i = keep;
        while i < self.buf.len()
            invariant
                keep <= i <= self.buf@.len(),
                buf@ == self.buf@.subrange(keep as int, i as int),
            decreases self.buf.len() - i,
        {
            buf.push(self.buf[i]);
            assert(self.buf@.subrange(keep as int, i + 1) == self.buf@.subrange(keep as int, i as int).push(self.buf@[i as int]));
            i = i + 1;
        }
        let mut k: usize = 0;
        while k < data.len()
            invariant
                k <= data@.len(),
                buf@ == self.buf@.subrange(keep as int, self.buf@.len() as int) + data@.subrange(0, k as int),
            decreases data.len() - k,
        {
            buf.push(data[k]);
            assert(data@.subrange(0, k + 1) == data@.subrange(0, k as int).push(data@[k as int]));
            k = k + 1;
        }
        assert(data@.subrange(0, data@.len() as int) == data@);
        proof {
            lemma_queue_extend(self.ready@, self.ready_spans@, self.stream@, data@, self.delivered@.0, self.delivered@.1, self.delivered@.2);
            let nafter = queue_next(self.ready@, self.ready_spans@, self.delivered@.0, self.delivered@.1, self.delivered@.2).2;
            lemma_concat_extend(self.stream@, data@, self.chunk_spans@, nafter);
        }
        self.stream = Ghost(self.stream@ + data@);
        self.base = self.base + keep as u64;
        self.pos = self.pos - keep;
        self.buf = buf;
        assert(self.buf@ =~= self.stream@.subrange(self.base as int, self.stream@.len() as int));
        assert forall|i: int| 0 <= i < old_stream.len() implies self.stream@[i] == old_stream[i] by {}
    }

    /// The input has ended: what is left is split, and a document that
    /// is not complete is an error.
    pub fn end_input(&mut self)
        requires
            old(self).wf(),
        ensures
            final(self).wf(),
            final(self).stream() == old(self).stream(),
            final(self).input_ended(),
            final(self).next_delivered_seq() == old(self).next_delivered_seq(),
            final(self).next_delivered_feature() == old(self).next_delivered_feature(),
            final(self).delivered_end() == old(self).delivered_end(),
            final(self).target() == old(self).target(),
    {
        self.eof = true;
    }

    /// The document header, once the root start tag was read.
    pub fn header(&self) -> (r: Option<&DocumentHeader>)
        ensures
            r is Some == self.has_header(),
            r matches Some(h) ==> self.document_header() == Some(*h),
    {
        match &self.header {
            Some(h) => Some(h),
            None => None,
        }
    }

    /// Member elements without a child element seen so far (members by
    /// reference, `xlink:href`), which are not features.
    pub fn referenced_members(&self) -> (r: u64)
        ensures
            r == self.references(),
    {
        self.referenced_members
    }

    /// Features that entered chunks so far (after the layer filter).
    pub fn features_emitted(&self) -> (r: u64)
        requires
            self.wf(),
        ensures
            r == self.next_delivered_feature() + queue_features(self),
    {
        self.features_emitted
    }
}

/// Nothing about the input changes.
pub closed spec fn same_input(a: &FeatureSplitter, b: &FeatureSplitter) -> bool {
    &&& a.stream@ == b.stream@
    &&& a.delivered@ == b.delivered@
    &&& a.buf@ == b.buf@
    &&& a.pos == b.pos
    &&& a.base == b.base
    &&& a.eof == b.eof
    &&& a.finished == b.finished
    &&& a.source == b.source
    &&& a.options.target_chunk_bytes == b.options.target_chunk_bytes
    &&& a.options.layers == b.options.layers
    &&& a.options.member_rules@ == b.options.member_rules@
    &&& a.options.allow_single_feature_root == b.options.allow_single_feature_root
}

/// The ready chunks and what has been delivered are unchanged.
closed spec fn same_queue(a: &FeatureSplitter, b: &FeatureSplitter) -> bool {
    &&& a.ready@ == b.ready@
    &&& a.ready_spans@ == b.ready_spans@
    &&& a.next_seq == b.next_seq
}

/// The chunk being filled is unchanged.
closed spec fn same_chunk(a: &FeatureSplitter, b: &FeatureSplitter) -> bool {
    &&& a.chunk@ == b.chunk@
    &&& a.chunk_spans@ == b.chunk_spans@
    &&& a.chunk_offset == b.chunk_offset
    &&& a.chunk_first_feature == b.chunk_first_feature
    &&& a.features_emitted == b.features_emitted
}

/// The document structure seen so far is unchanged.
closed spec fn same_structure(a: &FeatureSplitter, b: &FeatureSplitter) -> bool {
    &&& a.mode == b.mode
    &&& a.root_candidate == b.root_candidate
    &&& a.stack@ == b.stack@
    &&& a.bindings@ == b.bindings@
    &&& a.header == b.header
    &&& a.saw_container == b.saw_container
    &&& a.root_feature == b.root_feature
    &&& a.referenced_members == b.referenced_members
    &&& a.next_bounded_by_id == b.next_bounded_by_id
    &&& a.options.target_chunk_bytes == b.options.target_chunk_bytes
    &&& a.options.layers == b.options.layers
    &&& a.options.member_rules@ == b.options.member_rules@
    &&& a.options.allow_single_feature_root == b.options.allow_single_feature_root
}

impl FeatureSplitter {
    /// The location of index `index` of the buffer.
    spec fn spot(&self, index: int) -> Location {
        Location { source: self.source, byte_offset: (self.base + index) as u64, feature_seq: None, gml_id: None }
    }

    /// An XML error at index `index` of the buffer.
    fn error(&self, index: usize, message: String) -> (r: Error)
        requires
            self.wf(),
            index <= self.buf@.len(),
        ensures
            r == (Error::Xml { location: self.spot(index as int), message }),
    {
        Error::Xml {
            location: Location {
                source: self.source,
                byte_offset: self.base + index as u64,
                feature_seq: None,
                gml_id: None,
            },
            message,
        }
    }

    /// An XML error with a fixed message.
    fn error_str(&self, index: usize, message: &str) -> (r: Error)
        requires
            self.wf(),
            index <= self.buf@.len(),
        ensures
            r matches Error::Xml { location, message: m } && location == self.spot(index as int) && m@ == message@,
    {
        self.error(index, owned(message))
    }

    /// The declarations in scope, rebuilt if they changed; the context id
    /// changes when they differ from the last context.
    fn current_context(&mut self)
        requires
            old(self).wf(),
            old(self).context_id < old(self).base + old(self).pos,
        ensures
            final(self).wf(),
            same_input(old(self), final(self)),
            same_queue(old(self), final(self)),
            same_chunk(old(self), final(self)),
            same_structure(old(self), final(self)),
            final(self).context_id <= old(self).context_id + 1,
            !final(self).bindings_changed,
            old(self).bindings_changed ==> {
                let scope = declare_all(Seq::empty(), bindings_view(old(self).bindings@));
                &&& final(self).context@ == scope
                &&& final(self).context_id == if old(self).context@ == scope {
                    old(self).context_id
                } else {
                    (old(self).context_id + 1) as u64
                }
            },
            !old(self).bindings_changed ==> final(self).context@ == old(self).context@
                && final(self).context_id == old(self).context_id,
    {
        if self.bindings_changed {
            let mut context = NamespaceContext::new();
            let ghost bs = bindings_view(self.bindings@);
            let mut i: usize = 0;
            assert(bs.take(0) =~= Seq::<BindingView>::empty());
            while i < self.bindings.len()
                invariant
                    i <= self.bindings@.len(),
                    bs == bindings_view(self.bindings@),
                    context@ == declare_all(Seq::empty(), bs.take(i as int)),
                decreases self.bindings.len() - i,
            {
                assert(bs.take(i + 1).drop_last() == bs.take(i as int));
                assert(bs.take(i + 1).last() == bs[i as int]);
                let (prefix, uri) = &self.bindings[i];
                let prefix = match prefix {
                    Some(p) => Some(p.as_str()),
                    None => None,
                };
                context.declare(prefix, uri.as_str());
                i = i + 1;
            }
            assert(bs.take(i as int) == bs);
            if !self.context.same_as(&context) {
                self.context = context;
                self.context_id = self.context_id + 1;
            }
            self.bindings_changed = false;
        }
    }

    /// Move the chunk being filled, if any, to the ready chunks.
    fn flush_chunk(&mut self)
        requires
            old(self).wf_core(),
            !copying(old(self).mode),
        ensures
            final(self).wf(),
            same_input(old(self), final(self)),
            same_structure(old(self), final(self)),
            final(self).chunk_spans@.len() == 0,
            final(self).context_id == old(self).context_id,
            last_end(final(self)) == last_end(old(self)),
            final(self).features_emitted == old(self).features_emitted,
            old(self).chunk@.len() == 0 ==> final(self).ready_spans@ == old(self).ready_spans@,
            old(self).chunk@.len() > 0 ==> final(self).ready_spans@ == old(self).ready_spans@.push(old(self).chunk_spans@),
    {
        if self.chunk.len() == 0 {
            return;
        }
        let ghost (nseq, nfirst, nafter) = queue_next(
            self.ready@,
            self.ready_spans@,
            self.delivered@.0,
            self.delivered@.1,
            self.delivered@.2,
        );
        let ghost spans = self.chunk_spans@;
        proof {
            lemma_spans_count(self.stream@, spans, nafter);
        }
        let mut bytes: Vec<u8> = Vec::new();
        std::mem::swap(&mut bytes, &mut self.chunk);
        let mut bounded_by: Option<(u64, RawElement)> = None;
        std::mem::swap(&mut bounded_by, &mut self.chunk_bounded_by);
        let chunk = FeatureChunk {
            source: self.source,
            seq: self.next_seq,
            byte_offset: self.chunk_offset,
            bytes,
            namespaces: self.chunk_context.duplicate(),
            first_feature_seq: self.chunk_first_feature,
            features: self.features_emitted - self.chunk_first_feature,
            collection_bounded_by: match bounded_by {
                Some((_, element)) => Some(element),
                None => None,
            },
        };
        assert(chunk_ok(chunk, spans, self.stream@, nseq, nfirst, nafter));
        proof {
            lemma_queue_push(
                self.ready@,
                self.ready_spans@,
                self.stream@,
                self.delivered@.0,
                self.delivered@.1,
                self.delivered@.2,
                chunk,
                spans,
            );
        }
        proof {
            lemma_all_within_push(self.ready_spans@, spans, self.options.target_chunk_bytes as int);
        }
        self.ready.push(chunk);
        self.ready_spans = Ghost(self.ready_spans@.push(spans));
        self.chunk_spans = Ghost(Seq::empty());
        self.next_seq = self.next_seq + 1;
        self.chunk_first_feature = self.features_emitted;
        assert(self.chunk@ =~= concat_spans(self.stream@, self.chunk_spans@));
    }
}

/// Where the features emitted so far end in the stream.
pub closed spec fn last_end(s: &FeatureSplitter) -> int {
    spans_end(
        s.chunk_spans@,
        queue_next(s.ready@, s.ready_spans@, s.delivered@.0, s.delivered@.1, s.delivered@.2).2,
    )
}

/// In a feature that is being copied into the chunk.
spec fn copying(mode: Mode) -> bool {
    mode matches Mode::Feature { emit: true, bounded_by: false, .. }
}

/// In a feature or a collection's `boundedBy`.
spec fn in_feature(mode: Mode) -> bool {
    mode is Feature
}

/// The innermost open element that holds a collection `boundedBy`.
fn innermost_bounded_by(stack: &Vec<Frame>) -> (r: Option<usize>)
    ensures
        r matches Some(i) ==> i < stack@.len() && stack@[i as int].bounded_by is Some,
        r matches Some(i) ==> forall|j: int| i < j < stack@.len() ==> (#[trigger] stack@[j]).bounded_by is None,
        r is None ==> forall|j: int| 0 <= j < stack@.len() ==> (#[trigger] stack@[j]).bounded_by is None,
{
    let mut i = stack.len();
    while i > 0
        invariant
            i <= stack@.len(),
            forall|j: int| i <= j < stack@.len() ==> (#[trigger] stack@[j]).bounded_by is None,
        decreases i,
    {
        if stack[i - 1].bounded_by.is_some() {
            return Some(i - 1);
        }
        i = i - 1;
    }
    None
}

impl FeatureSplitter {
    /// A feature that enters a chunk starts at stream offset `start`: a
    /// chunk holds features that share their namespaces and collection
    /// `boundedBy`.
    #[verifier::rlimit(50)]
    fn begin_feature(&mut self, start: u64)
        requires
            old(self).wf(),
            old(self).context_id < old(self).base + old(self).pos,
            old(self).base <= start < old(self).base + old(self).pos,
            old(self).stream@[start as int] == 0x3Cu8,
            last_end(old(self)) <= start,
            !copying(old(self).mode),
        ensures
            final(self).wf(),
            same_input(old(self), final(self)),
            same_structure(old(self), final(self)),
            final(self).chunk_spans@.len() == 0 ==> final(self).chunk_offset == start,
            last_end(final(self)) == last_end(old(self)),
            final(self).features_emitted == old(self).features_emitted,
    {
        self.current_context();
        let innermost = innermost_bounded_by(&self.stack);
        let bounds: Option<u64> = match innermost {
            Some(k) => match &self.stack[k].bounded_by {
                Some((id, _)) => Some(*id),
                None => None,
            },
            None => None,
        };
        let same_bounds = match (bounds, &self.chunk_bounded_by) {
            (Some(a), Some((b, _))) => a == *b,
            (None, None) => true,
            _ => false,
        };
        if self.chunk.len() > 0 && (self.context_id != self.chunk_context_id || !same_bounds) {
            self.flush_chunk();
        }
        if self.chunk.len() == 0 {
            self.chunk_bounded_by = match innermost {
                Some(k) => match &self.stack[k].bounded_by {
                    Some((id, element)) => Some((*id, element.duplicate())),
                    None => None,
                },
                None => None,
            };
            self.chunk_context = self.context.duplicate();
            self.chunk_context_id = self.context_id;
            self.chunk_offset = start;
            self.chunk_first_feature = self.features_emitted;
        }
    }

    /// A feature that started at stream offset `start` ends at index `end`
    /// of the buffer.
    fn end_feature(&mut self, emit: bool, start: u64, end: usize)
        requires
            old(self).wf(),
            1 <= end <= old(self).pos,
            old(self).buf@[end - 1] == 0x3Eu8,
            !in_feature(old(self).mode),
            emit ==> {
                &&& old(self).mode != Mode::Prolog
                &&& old(self).root_candidate is None
                &&& old(self).base <= start < old(self).base + end
                &&& old(self).stream@[start as int] == 0x3Cu8
                &&& last_end(old(self)) <= start
                &&& old(self).chunk_spans@.len() == 0 ==> old(self).chunk_offset == start
            },
        ensures
            final(self).wf(),
            same_input(old(self), final(self)),
            same_structure(old(self), final(self)),
            final(self).context_id == old(self).context_id,
            !emit ==> final(self).chunk_spans@ == old(self).chunk_spans@ && final(self).ready_spans@
                == old(self).ready_spans@ && final(self).features_emitted == old(self).features_emitted,
            emit ==> final(self).features_emitted == old(self).features_emitted + 1,
            emit ==> ({
                let spans = old(self).chunk_spans@.push((start as int, old(self).base + end));
                ||| final(self).chunk_spans@ == spans && final(self).ready_spans@ == old(self).ready_spans@
                ||| final(self).chunk_spans@.len() == 0 && final(self).ready_spans@ == old(self).ready_spans@.push(spans)
            }),
    {
        if !emit {
            return;
        }
        let ghost (nseq, nfirst, nafter) = queue_next(
            self.ready@,
            self.ready_spans@,
            self.delivered@.0,
            self.delivered@.1,
            self.delivered@.2,
        );
        let ghost span = (start as int, self.base + end);
        let from = (start - self.base) as usize;
        proof {
            lemma_spans_count(self.stream@, self.chunk_spans@, nafter);
            assert(self.buf@.subrange(from as int, end as int) =~= self.stream@.subrange(span.0, span.1));
            assert(self.stream@[span.1 - 1] == self.buf@[end - 1]);
        }
        append_range(&mut self.chunk, self.buf.as_slice(), from, end);
        let ghost old_spans = self.chunk_spans@;
        self.chunk_spans = Ghost(self.chunk_spans@.push(span));
        assert(self.chunk_spans@.drop_last() =~= old_spans);
        self.features_emitted = self.features_emitted + 1;
        proof {
            let spans = self.chunk_spans@;
            assert forall|i: int| 0 <= i < spans.len() implies 0 <= (#[trigger] spans[i]).0 <= spans[i].1
                <= self.stream@.len() by {
                if i < old_spans.len() {
                    assert(spans[i] == old_spans[i]);
                }
            }
            lemma_concat_len(self.stream@, spans);
            assert(within_target(spans, self.options.target_chunk_bytes as int));
        }
        if self.chunk.len() >= self.options.target_chunk_bytes {
            self.flush_chunk();
        }
    }

    /// A collection's `boundedBy` that started at stream offset `start`
    /// ended at index `end` of the buffer; the features inside the
    /// collection inherit it.
    fn end_bounded_by(&mut self, start: u64, end: usize)
        requires
            old(self).wf(),
            old(self).context_id < old(self).base + old(self).pos,
            old(self).next_bounded_by_id < old(self).base + old(self).pos,
            end <= old(self).pos,
            old(self).base <= start <= old(self).base + end,
            !copying(old(self).mode),
        ensures
            final(self).wf(),
            same_input(old(self), final(self)),
            same_queue(old(self), final(self)),
            same_chunk(old(self), final(self)),
            final(self).mode == old(self).mode,
            final(self).root_candidate == old(self).root_candidate,
            final(self).bindings@ == old(self).bindings@,
            final(self).header == old(self).header,
            final(self).saw_container == old(self).saw_container,
            final(self).root_feature == old(self).root_feature,
            final(self).referenced_members == old(self).referenced_members,
            final(self).stack@.len() == old(self).stack@.len(),
            forall|i: int| 0 <= i < final(self).stack@.len() ==> (#[trigger] final(self).stack@[i]).bindings_before
                == old(self).stack@[i].bindings_before && final(self).stack@[i].members == old(self).stack@[i].members
                && final(self).stack@[i].has_child == old(self).stack@[i].has_child
                && final(self).stack@[i].raw_name@ == old(self).stack@[i].raw_name@,
            final(self).next_bounded_by_id == old(self).next_bounded_by_id + 1,
            old(self).stack@.len() > 0 ==> (final(self).stack@.last().bounded_by matches Some((id, e))
                && id == old(self).next_bounded_by_id && e.source == old(self).source && e.byte_offset == start
                && e.bytes@ == old(self).buf@.subrange(start - old(self).base, end as int)
                && e.namespaces@ == final(self).context@
                && final(self).stack@.subrange(0, final(self).stack@.len() - 1) == old(self).stack@.subrange(
                0,
                old(self).stack@.len() - 1,
            )),
            old(self).stack@.len() == 0 ==> final(self).stack@ == old(self).stack@,
    {
        let from = (start - self.base) as usize;
        let mut bytes: Vec<u8> = Vec::new();
        append_range(&mut bytes, self.buf.as_slice(), from, end);
        self.current_context();
        let element = RawElement {
            source: self.source,
            byte_offset: start,
            bytes,
            namespaces: self.context.duplicate(),
        };
        let id = self.next_bounded_by_id;
        if self.stack.len() > 0 {
            let ghost before = self.stack@;
            let mut frame = self.stack.pop().unwrap();
            frame.bounded_by = Some((id, element));
            self.stack.push(frame);
            assert(self.stack@ == before.update(before.len() - 1, frame));
        }
        self.next_bounded_by_id = id + 1;
    }
}

/// At the end of the input the document is complete: it is outside the root
/// element, and a feature or a container of features was seen.
spec fn document_complete(s: FeatureSplitter) -> bool {
    &&& s.mode == Mode::Epilog || s.mode == Mode::Prolog
    &&& s.saw_container || s.root_feature
}

/// What the start tag `m` of a feature did, with the buffer at stream offset
/// `base` and `emitted` features before it: a feature with content is
/// entered (copied when `wanted`); a self-closing one is complete at once,
/// counted and its span queued when `wanted`.
spec fn feature_started(base: u64, emitted: u64, after: FeatureSplitter, wanted: bool, m: Markup) -> bool {
    let empty = match m.kind {
        Kind::Start { empty, .. } => empty,
        _ => false,
    };
    let start = base + m.start;
    let span = (start, base + m.end);
    &&& !empty ==> after.mode == (Mode::Feature { depth: 1, emit: wanted, start: start as u64, bounded_by: false })
    &&& empty ==> after.features_emitted == emitted + if wanted { 1int } else { 0int }
    &&& empty && wanted ==> (after.chunk_spans@.len() > 0 && after.chunk_spans@.last() == span
        || after.chunk_spans@.len() == 0 && after.ready_spans@.len() > 0 && after.ready_spans@.last().len() > 0
        && after.ready_spans@.last().last() == span)
}

/// What a start tag outside features that names `name` did: a child of a
/// member element that is no collection starts a feature, a collection's
/// `boundedBy` starts to be copied, anything else opens an element.
spec fn start_tag_done(
    before: FeatureSplitter,
    after: FeatureSplitter,
    name: (Option<Seq<char>>, Seq<char>),
    m: Markup,
) -> bool {
    let empty = match m.kind {
        Kind::Start { empty, .. } => empty,
        _ => false,
    };
    let start = before.base + m.start;
    let feature = before.stack@.len() > 0 && before.stack@.last().members && !is_collection_name(name);
    let bounded_by = !feature && before.mode != Mode::Prolog && is_bounded_by_name(name);
    let wanted = wanted_layer(layers_view(before.options.layers), name);
    &&& feature ==> feature_started(before.base, before.features_emitted, after, wanted, m)
        && after.bindings@ == before.bindings@
    &&& bounded_by && !empty ==> after.mode == (Mode::Feature { depth: 1, emit: true, start: start as u64, bounded_by: true })
    &&& !feature && !bounded_by && !empty ==> after.stack@.len() == before.stack@.len() + 1
        && after.stack@.last().raw_name@ == before.buf@.subrange(m.start + 1, m.kind->name_end as int)
        && after.stack@.last().members == is_member_name(before.options.member_rules@, name)
    &&& !feature && !bounded_by && (is_member_name(before.options.member_rules@, name) || is_collection_name(name))
        && !(empty && before.mode == Mode::Prolog) ==> after.saw_container
    &&& !feature && !bounded_by && empty && before.mode != Mode::Prolog && is_member_name(before.options.member_rules@, name)
        ==> after.referenced_members == before.referenced_members + 1
}

/// A member rule names the element `name`: its children are features.
pub open spec fn is_member_name(rules: Seq<MemberRule>, name: (Option<Seq<char>>, Seq<char>)) -> bool {
    exists|j: int| 0 <= j < rules.len() && (#[trigger] rule_view(rules[j])).1 == name
}

/// What the start tag `m` outside features did, from `before` to `after`
/// with result `r`: malformed text or attributes are an error, an
/// undeclared prefix is an error naming the tag, else the tag is taken as
/// `start_tag_done` says.
spec fn start_tag_post(before: FeatureSplitter, after: FeatureSplitter, m: Markup, r: Result<(), Error>) -> bool {
    let tb = start_tag_bytes(before.buf@, m);
    let t = decode_utf8(tb);
    let raw = t.take(name_length(t, 0));
    let attributes = attributes_from(t.skip(name_length(t, 0)), 0);
    &&& !(valid_utf8(tb) && attributes is Ok) ==> r is Err
    &&& valid_utf8(tb) && attributes is Ok ==> {
        let scope = bindings_view(before.bindings@) + declarations_in(attributes->Ok_0);
        match resolve_raw(scope, raw, true) {
            None => r matches Err(Error::Xml { location, message }) && location == before.spot(
                m.start as int,
            ) && message@ == "undeclared namespace prefix in <"@ + raw + ">"@,
            Some(name) => r is Ok && start_tag_done(
                before,
                after,
                name,
                m,
            ) && (before.mode == Mode::Prolog ==> root_header(after.header, name, bindings_view(before.bindings@), attributes->Ok_0)),
        }
    }
}

/// The header the root start tag gives: its name, the namespaces it
/// declares, the WFS response attributes and the schema location among its
/// attributes (resolved in `outer` and its own declarations), and whether
/// it declares FME's namespace.
pub open spec fn root_header(
    header: Option<DocumentHeader>,
    name: (Option<Seq<char>>, Seq<char>),
    outer: Seq<BindingView>,
    attributes: Seq<(Seq<char>, Seq<char>)>,
) -> bool {
    &&& header is Some
    &&& header->0.root@ == name
    &&& header->0.namespaces@ == declare_all(Seq::empty(), declarations_in(attributes))
    &&& wfs_view(header->0.wfs_attributes@) == wfs_attributes_of(attributes)
    &&& opt_string_view(header->0.schema_location) == schema_location_of(outer + declarations_in(attributes), attributes)
    &&& header->0.fme_produced == crate::namespace::declares(header->0.namespaces@, ns::FME@)
}

/// Markup at or after `s.pos` that could not be read: input that ends
/// inside it, a DOCTYPE, or another `<!` declaration.
spec fn scan_refused(s: FeatureSplitter, e: Error) -> bool {
    exists|i: int|
        #![trigger s.spot(i)]
        s.pos <= i < s.buf@.len() && ({
            ||| s.eof && (e matches Error::Xml { location, message } && location == s.spot(i) && (message@
                == "unexpected end of input in markup"@ || message@ == "unexpected end of input in a start tag"@))
            ||| e == Error::DtdNotSupported(s.spot(i))
            ||| e matches Error::Xml { location, message } && location == s.spot(i) && message@
                == "unsupported markup declaration"@
        })
}

/// The input ended inside the root element, or outside it without a
/// feature or a collection.
spec fn end_refused(s: FeatureSplitter, e: Error) -> bool {
    ||| !(s.mode == Mode::Epilog || s.mode == Mode::Prolog) && (e matches Error::Xml { location, message } && location
        == s.spot(s.buf@.len() as int) && message@ == "unexpected end of input"@)
    ||| (s.mode == Mode::Epilog || s.mode == Mode::Prolog) && !document_complete(s) && e is NoFeatures
}

/// Why a step from `before` failed with `e`: the markup it found was refused
/// (as `handled` says), markup could not be read, or the input ended where
/// the document is not complete.
pub closed spec fn step_failed(before: FeatureSplitter, after: FeatureSplitter, e: Error) -> bool {
    ||| exists|m: Markup|
        #![trigger handled(before, after, m, Err(e))]
        before.pos <= m.start && markup_ok(before.buf@, m) && handled(before, after, m, Err(e))
    ||| scan_refused(before, e)
    ||| before.eof && end_refused(before, e)
}

/// One step from `a` to `b` that read a piece of markup, as `handled`
/// says, or reached the end of a complete document.
pub closed spec fn advanced(a: FeatureSplitter, b: FeatureSplitter) -> bool {
    ||| exists|m: Markup|
        #![trigger handled(a, b, m, Ok(()))]
        a.pos <= m.start && m.end == b.pos && markup_ok(a.buf@, m) && handled(a, b, m, Ok(()))
    ||| b.finished && b.pos == b.buf@.len() && document_complete(b)
}

/// States that follow one another by such steps.
pub closed spec fn walk(t: Seq<FeatureSplitter>) -> bool {
    forall|i: int| 0 <= i < t.len() - 1 ==> #[trigger] advanced(t[i], t[i + 1])
}

/// A call of `next_chunk` from `before` to `after` that returned `r`: it
/// took steps from `before` as `walk` says, then delivered the first chunk
/// queued, found the splitter finished, waited for input, or failed in a
/// step as `step_failed` says.
pub closed spec fn walked_to(before: FeatureSplitter, after: FeatureSplitter, r: Result<Poll, Error>) -> bool {
    exists|t: Seq<FeatureSplitter>|
        #![trigger walk(t)]
        t.len() >= 1 && t[0] == before && walk(t) && match r {
            Ok(Poll::Chunk(_)) => t.last().ready_spans@.len() > 0 && after.last_spans@ == t.last().ready_spans@[0],
            Ok(Poll::Done) => t.last().finished,
            Ok(Poll::NeedInput) => t.last().buf@ == after.buf@,
            Err(e) => exists|x: FeatureSplitter| #![trigger step_failed(t.last(), x, e)] step_failed(t.last(), x, e),
        }
}

/// What the end tag `m` outside features did: it must close the innermost
/// open element; a member element without a child is counted as a
/// reference; closing the root leaves the document.
spec fn end_outside_post(before: FeatureSplitter, after: FeatureSplitter, m: Markup, r: Result<(), Error>) -> bool {
    let name = trimmed_bytes(before.buf@.subrange(m.start + 2, m.end - 1));
    let top = before.stack@.last();
    &&& before.stack@.len() == 0 ==> (r matches Err(Error::Xml { location, message })
        && location == before.spot(m.start as int) && message@ == "end tag without a start tag"@)
    &&& before.stack@.len() > 0 && top.raw_name@ != name ==> (r matches Err(Error::Xml { location, .. })
        && location == before.spot(m.start as int))
    &&& before.stack@.len() > 0 && top.raw_name@ == name ==> {
        &&& r is Ok
        &&& after.stack@ == before.stack@.drop_last()
        &&& after.referenced_members == before.referenced_members + if top.members
            && !top.has_child {
            1int
        } else {
            0int
        }
        &&& after.mode == if after.stack@.len() == 0 && before.mode != Mode::Prolog {
            Mode::Epilog
        } else {
            before.mode
        }
    }
}

/// What the markup `m` did, from `before` to `after` with result `r`:
/// inside a feature only the depth is followed and the feature ends with
/// its end tag; after the root only comments, processing instructions and
/// white space may follow; elsewhere start and end tags are taken as
/// `start_tag_post` and `end_outside_post` say.
spec fn handled(before: FeatureSplitter, after: FeatureSplitter, m: Markup, r: Result<(), Error>) -> bool {
    match before.mode {
        Mode::Feature { depth, emit, start, bounded_by } => r is Ok && match m.kind {
            Kind::Start { empty: false, .. } => after.mode == (Mode::Feature {
                depth: (depth + 1) as u64,
                emit,
                start,
                bounded_by,
            }),
            Kind::End => if depth == 1 {
                &&& after.mode == Mode::Outside
                &&& !bounded_by ==> after.features_emitted == before.features_emitted + if emit {
                    1int
                } else {
                    0int
                }
                &&& !bounded_by && emit ==> ({
                    let spans = before.chunk_spans@.push((start as int, before.base + m.end));
                    ||| after.chunk_spans@ == spans && after.ready_spans@ == before.ready_spans@
                    ||| after.chunk_spans@.len() == 0 && after.ready_spans@ == before.ready_spans@.push(spans)
                })
                &&& !bounded_by && !emit ==> after.chunk_spans@ == before.chunk_spans@ && after.ready_spans@
                    == before.ready_spans@
                &&& bounded_by ==> after.next_bounded_by_id == before.next_bounded_by_id + 1
            } else {
                after.mode == (Mode::Feature { depth: (depth - 1) as u64, emit, start, bounded_by })
            },
            _ => after.mode == before.mode,
        },
        Mode::Epilog => match m.kind {
            Kind::Other => r is Ok && after.mode == before.mode,
            _ => r matches Err(Error::Xml { location, message }) && location == before.spot(m.start as int)
                && message@ == "content after the root element"@,
        },
        _ => match m.kind {
            Kind::Start { .. } => start_tag_post(before, after, m, r),
            Kind::End => end_outside_post(before, after, m, r),
            Kind::Other => r is Ok && after.mode == before.mode,
        },
    }
}

/// The text between `<` and `>` (or `/>`) of the start tag `m`.
pub open spec fn start_tag_bytes(buf: Seq<u8>, m: Markup) -> Seq<u8> {
    match m.kind {
        Kind::Start { empty, .. } => buf.subrange(m.start + 1, if empty { m.end - 2 } else { m.end - 1 }),
        _ => Seq::empty(),
    }
}

/// Where the element name of a tag's text ends: at white space, `/` or `>`,
/// from index `i` on.
pub open spec fn name_length(t: Seq<char>, i: int) -> int
    decreases t.len() - i,
{
    if i < 0 || i >= t.len() || is_ascii_space(t[i]) || t[i] == '/' || t[i] == '>' {
        i
    } else {
        name_length(t, i + 1)
    }
}

/// The namespace declaration an attribute makes, if it makes one.
pub open spec fn declaration_of(a: (Seq<char>, Seq<char>)) -> Seq<BindingView> {
    if a.0 == "xmlns"@ {
        seq![(None::<Seq<char>>, xml_unescaped(a.1))]
    } else if starts_with(a.0, "xmlns:"@) {
        seq![(Some(a.0.subrange(6, a.0.len() as int)), xml_unescaped(a.1))]
    } else {
        Seq::empty()
    }
}

/// The namespace declarations among attributes, in order.
pub open spec fn declarations_in(attributes: Seq<(Seq<char>, Seq<char>)>) -> Seq<BindingView>
    decreases attributes.len(),
{
    if attributes.len() == 0 {
        Seq::empty()
    } else {
        declarations_in(attributes.drop_last()) + declaration_of(attributes.last())
    }
}

/// The declarations `bs` made one after another in a context.
pub open spec fn declare_all(ctx: Seq<BindingView>, bs: Seq<BindingView>) -> Seq<BindingView>
    decreases bs.len(),
{
    if bs.len() == 0 {
        ctx
    } else {
        crate::namespace::declared(declare_all(ctx, bs.drop_last()), bs.last().0, bs.last().1)
    }
}

impl FeatureSplitter {
    /// The root element ended at index `end` of the buffer; a root that is
    /// still a candidate is the one feature of the document.
    fn end_root(&mut self, end: usize)
        requires
            old(self).wf(),
            old(self).context_id < old(self).base + old(self).pos,
            1 <= end <= old(self).pos,
            old(self).buf@[end - 1] == 0x3Eu8,
            !in_feature(old(self).mode),
            old(self).mode != Mode::Prolog,
            old(self).root_candidate matches Some(s) ==> s < old(self).base + end,
        ensures
            final(self).header == old(self).header,
            final(self).wf(),
            same_input(old(self), final(self)),
            final(self).mode == Mode::Epilog,
            final(self).stack@ == old(self).stack@,
            final(self).bindings@ == old(self).bindings@,
            final(self).header == old(self).header,
            final(self).saw_container == old(self).saw_container,
            final(self).referenced_members == old(self).referenced_members,
            final(self).next_bounded_by_id == old(self).next_bounded_by_id,
    {
        self.mode = Mode::Epilog;
        if let Some(start) = self.root_candidate {
            self.root_candidate = None;
            self.root_feature = true;
            let emit = match (&self.options.layers, &self.header) {
                (Some(layers), Some(header)) => layer_wanted(layers.as_slice(), &header.root),
                _ => true,
            };
            if emit {
                self.begin_feature(start);
            }
            self.end_feature(emit, start, end);
        }
    }

    /// Read the document header from the root's name, its attributes and the
    /// declarations it made (`bindings[before..]`), and enter the root.
    fn read_header(&mut self, root: QName, attributes: &Vec<(String, String)>, before: usize)
        requires
            old(self).wf(),
            old(self).mode == Mode::Prolog,
            before <= old(self).bindings@.len(),
        ensures
            final(self).wf(),
            same_input(old(self), final(self)),
            same_queue(old(self), final(self)),
            same_chunk(old(self), final(self)),
            final(self).mode == Mode::Outside,
            final(self).root_candidate == old(self).root_candidate,
            final(self).stack@ == old(self).stack@,
            final(self).bindings@ == old(self).bindings@,
            final(self).saw_container == old(self).saw_container,
            final(self).root_feature == old(self).root_feature,
            final(self).referenced_members == old(self).referenced_members,
            final(self).next_bounded_by_id == old(self).next_bounded_by_id,
            final(self).context_id == old(self).context_id,
            final(self).header is Some,
            final(self).header->0.root@ == root@,
            final(self).header->0.namespaces@ == declare_all(
                Seq::empty(),
                bindings_view(old(self).bindings@).subrange(before as int, old(self).bindings@.len() as int),
            ),
            final(self).header->0.fme_produced == crate::namespace::declares(final(self).header->0.namespaces@, ns::FME@),
            wfs_view(final(self).header->0.wfs_attributes@) == wfs_attributes_of(
                attributes@.map_values(|a: (String, String)| (a.0@, a.1@)),
            ),
            opt_string_view(final(self).header->0.schema_location) == schema_location_of(
                bindings_view(old(self).bindings@),
                attributes@.map_values(|a: (String, String)| (a.0@, a.1@)),
            ),
    {
        let ghost av = attributes@.map_values(|a: (String, String)| (a.0@, a.1@));
        let mut namespaces = NamespaceContext::new();
        let ghost bs = bindings_view(self.bindings@);
        let mut i = before;
        while i < self.bindings.len()
            invariant
                before <= i <= self.bindings@.len(),
                bs == bindings_view(self.bindings@),
                namespaces@ == declare_all(Seq::empty(), bs.subrange(before as int, i as int)),
            decreases self.bindings.len() - i,
        {
            let (prefix, uri) = &self.bindings[i];
            let prefix = match prefix {
                Some(p) => Some(p.as_str()),
                None => None,
            };
            namespaces.declare(prefix, uri.as_str());
            assert(bs.subrange(before as int, i + 1).drop_last() =~= bs.subrange(before as int, i as int));
            i = i + 1;
        }
        let mut schema_location: Option<String> = None;
        let mut wfs_attributes: Vec<(QName, String)> = Vec::new();
        let mut k: usize = 0;
        assert(bs.subrange(before as int, self.bindings@.len() as int) == bs.subrange(before as int, i as int));
        let ghost final_namespaces = namespaces@;
        while k < attributes.len()
            invariant
                k <= attributes@.len(),
                namespaces@ == final_namespaces,
                av == attributes@.map_values(|a: (String, String)| (a.0@, a.1@)),
                bs == bindings_view(self.bindings@),
                wfs_view(wfs_attributes@) == wfs_attributes_of(av.take(k as int)),
                opt_string_view(schema_location) == schema_location_of(bs, av.take(k as int)),
            decreases attributes.len() - k,
        {
            let (key, value) = &attributes[k];
            assert(av.take(k + 1).drop_last() =~= av.take(k as int));
            assert(av.take(k + 1).last() == (key@, value@));
            let ghost before_wfs = wfs_attributes@;
            let chars = chars_of(key.as_str());
            let xmlns = chars_of("xmlns");
            proof {
                reveal_strlit("xmlns");
            }
            let is_declaration = starts_with_exec(chars.as_slice(), xmlns.as_slice()) && (chars.len() == 5
                || chars[5] == ':');
            assert(is_declaration == is_namespace_binding(key@)) by {
                assert("xmlns"@ =~= seq!['x', 'm', 'l', 'n', 's']);
            }
            if !is_declaration {
                match index_of(chars.as_slice(), ':') {
                    Some(_) => {
                        if let Some(name) = resolve_name(&self.bindings, key.as_str(), false) {
                            let in_xsi = match &name.ns {
                                Some(uri) => str_eq(uri.as_str(), ns::XSI),
                                None => false,
                            };
                            if in_xsi && str_eq(name.local.as_str(), "schemaLocation") {
                                schema_location = Some(unescape(value.as_str()));
                            }
                        }
                    },
                    None => {
                        if wfs_attribute(key.as_str()) {
                            let q = QName::new(None, key.as_str());
                            let v = unescape(value.as_str());
                            wfs_attributes.push((q, v));
                            assert(wfs_view(wfs_attributes@) =~= wfs_view(before_wfs).push((q@, v@)));
                        }
                    },
                }
            }
            k = k + 1;
        }
        assert(av.take(k as int) =~= av);
        let fme_produced = namespaces.declares_uri(ns::FME);
        assert(namespaces@ == declare_all(Seq::empty(), bs.subrange(before as int, self.bindings@.len() as int)));
        let ghost root_view = root@;
        let header = DocumentHeader { root, namespaces, schema_location, wfs_attributes, fme_produced };
        assert(header.root@ == root_view);
        self.header = Some(header);
        self.mode = Mode::Outside;
    }
}

/// `true` if the name is `xmlns:` followed by a prefix; the prefix.
fn declared_prefix(key: &[char]) -> (r: Option<String>)
    ensures
        r matches Some(p) ==> starts_with(key@, "xmlns:"@) && p@ == key@.subrange(6, key@.len() as int),
        r is None ==> !starts_with(key@, "xmlns:"@),
{
    let head = chars_of("xmlns:");
    proof {
        reveal_strlit("xmlns:");
    }
    if starts_with_exec(key, head.as_slice()) {
        Some(string_from(key, 6, key.len()))
    } else {
        None
    }
}

impl FeatureSplitter {
    /// Mark the innermost open element as having a child element.
    fn parent_has_child(&mut self)
        requires
            old(self).wf(),
        ensures
            final(self).header == old(self).header,
            final(self).wf(),
            same_input(old(self), final(self)),
            same_queue(old(self), final(self)),
            same_chunk(old(self), final(self)),
            final(self).mode == old(self).mode,
            final(self).root_candidate == old(self).root_candidate,
            final(self).bindings@ == old(self).bindings@,
            final(self).header == old(self).header,
            final(self).saw_container == old(self).saw_container,
            final(self).root_feature == old(self).root_feature,
            final(self).referenced_members == old(self).referenced_members,
            final(self).next_bounded_by_id == old(self).next_bounded_by_id,
            final(self).context_id == old(self).context_id,
            final(self).stack@.len() == old(self).stack@.len(),
            forall|i: int| 0 <= i < final(self).stack@.len() ==> (#[trigger] final(self).stack@[i]).bindings_before
                == old(self).stack@[i].bindings_before && final(self).stack@[i].members == old(self).stack@[i].members,
            old(self).stack@.len() == 0 ==> final(self).stack@ == old(self).stack@,
            old(self).stack@.len() > 0 ==> {
                let last = old(self).stack@.len() - 1;
                &&& final(self).stack@.subrange(0, last) == old(self).stack@.subrange(0, last)
                &&& final(self).stack@[last].has_child
                &&& final(self).stack@[last].raw_name == old(self).stack@[last].raw_name
                &&& final(self).stack@[last].bounded_by == old(self).stack@[last].bounded_by
            },
    {
        if self.stack.len() > 0 {
            let ghost before = self.stack@;
            let mut frame = self.stack.pop().unwrap();
            frame.has_child = true;
            self.stack.push(frame);
            assert(self.stack@ == before.update(before.len() - 1, frame));
        }
    }

    /// Drop the declarations made since `before`.
    fn drop_bindings(&mut self, before: usize)
        requires
            old(self).wf(),
            old(self).stack@.len() > 0 ==> old(self).stack@.last().bindings_before <= before,
        ensures
            final(self).header == old(self).header,
            final(self).wf(),
            same_input(old(self), final(self)),
            same_queue(old(self), final(self)),
            same_chunk(old(self), final(self)),
            final(self).mode == old(self).mode,
            final(self).root_candidate == old(self).root_candidate,
            final(self).stack@ == old(self).stack@,
            final(self).saw_container == old(self).saw_container,
            final(self).root_feature == old(self).root_feature,
            final(self).referenced_members == old(self).referenced_members,
            final(self).next_bounded_by_id == old(self).next_bounded_by_id,
            final(self).context_id == old(self).context_id,
            final(self).bindings@.len() <= old(self).bindings@.len(),
            old(self).bindings@.len() > before ==> final(self).bindings@ == old(self).bindings@.subrange(0, before as int),
            old(self).bindings@.len() <= before ==> final(self).bindings@ == old(self).bindings@,
    {
        if self.bindings.len() > before {
            self.bindings.truncate(before);
            self.bindings_changed = true;
        }
    }

    /// The element name and attributes of the start tag `m`.
    fn read_start_tag(&self, m: Markup) -> (r: Result<(String, Vec<(String, String)>), Error>)
        requires
            self.wf(),
            markup_ok(self.buf@, m),
            m.kind is Start,
        ensures
            r matches Err(e) ==> e is Xml,
            ({
                let tb = start_tag_bytes(self.buf@, m);
                let t = decode_utf8(tb);
                let nl = name_length(t, 0);
                &&& !valid_utf8(tb) ==> (r matches Err(Error::Xml { location, message })
                    && location == self.spot(m.start as int) && message@ == "invalid UTF-8 in a start tag"@)
                &&& valid_utf8(tb) ==> match attributes_from(t.skip(nl), 0) {
                    Ok(expected) => r matches Ok((name, attributes)) && name@ == t.take(nl)
                        && attributes@.len() == expected.len()
                        && forall|k: int| 0 <= k < expected.len() ==> (#[trigger] attributes@[k].0@, attributes@[k].1@)
                        == expected[k],
                    Err(e) => r matches Err(Error::Xml { location, message })
                        && location == self.spot(m.start as int) && message@ == attribute_error_text(e),
                }
            }),
    {
        let empty = match m.kind {
            Kind::Start { empty, .. } => empty,
            _ => false,
        };
        let tag_end = if empty {
            m.end - 2
        } else {
            m.end - 1
        };
        let mut tag_bytes: Vec<u8> = Vec::new();
        append_range(&mut tag_bytes, self.buf.as_slice(), m.start + 1, tag_end);
        let tag = match utf8_string(tag_bytes.as_slice()) {
            Some(tag) => tag,
            None => return Err(self.error_str(m.start, "invalid UTF-8 in a start tag")),
        };
        proof {
            encode_utf8_decode_utf8(tag@);
        }
        let chars = chars_of(tag.as_str());
        let mut ne: usize = 0;
        while ne < chars.len() && !(is_space(chars[ne]) || chars[ne] == '/' || chars[ne] == '>')
            invariant
                ne <= chars@.len(),
                name_length(chars@, 0) == name_length(chars@, ne as int),
            decreases chars.len() - ne,
        {
            ne = ne + 1;
        }
        assert(chars@.subrange(ne as int, chars@.len() as int) == chars@.skip(ne as int));
        assert(chars@.subrange(0, ne as int) == chars@.take(ne as int));
        let raw_name = string_from(chars.as_slice(), 0, ne);
        let rest = slice_of(chars.as_slice(), ne, chars.len());
        match parse_attributes(rest.as_slice()) {
            Ok(attributes) => Ok((raw_name, attributes)),
            Err(message) => Err(self.error(m.start, message)),
        }
    }

    /// Take the namespace declarations among `attributes` into the scope.
    fn declare_attributes(&mut self, attributes: &Vec<(String, String)>)
        requires
            old(self).wf(),
        ensures
            final(self).wf(),
            same_input(old(self), final(self)),
            same_queue(old(self), final(self)),
            same_chunk(old(self), final(self)),
            final(self).mode == old(self).mode,
            final(self).root_candidate == old(self).root_candidate,
            final(self).stack@ == old(self).stack@,
            final(self).header == old(self).header,
            final(self).saw_container == old(self).saw_container,
            final(self).root_feature == old(self).root_feature,
            final(self).referenced_members == old(self).referenced_members,
            final(self).next_bounded_by_id == old(self).next_bounded_by_id,
            final(self).context_id == old(self).context_id,
            old(self).bindings@.len() <= final(self).bindings@.len(),
            final(self).bindings@.subrange(0, old(self).bindings@.len() as int) == old(self).bindings@,
            bindings_view(final(self).bindings@) == bindings_view(old(self).bindings@) + declarations_in(
                attributes@.map_values(|a: (String, String)| (a.0@, a.1@)),
            ),
            declarations_in(attributes@.map_values(|a: (String, String)| (a.0@, a.1@))).len() > 0
                ==> final(self).bindings_changed,
            declarations_in(attributes@.map_values(|a: (String, String)| (a.0@, a.1@))).len() == 0
                ==> final(self).bindings_changed == old(self).bindings_changed,
    {
        let ghost pairs = attributes@.map_values(|a: (String, String)| (a.0@, a.1@));
        let mut k: usize = 0;
        assert(pairs.take(0) =~= Seq::<(Seq<char>, Seq<char>)>::empty());
        assert(bindings_view(self.bindings@) =~= bindings_view(old(self).bindings@) + Seq::<BindingView>::empty());
        while k < attributes.len()
            invariant
                self.wf(),
                same_input(old(self), self),
                same_queue(old(self), self),
                same_chunk(old(self), self),
                self.mode == old(self).mode,
                self.root_candidate == old(self).root_candidate,
                self.stack@ == old(self).stack@,
                self.header == old(self).header,
                self.saw_container == old(self).saw_container,
                self.root_feature == old(self).root_feature,
                self.referenced_members == old(self).referenced_members,
                self.next_bounded_by_id == old(self).next_bounded_by_id,
                self.context_id == old(self).context_id,
                old(self).bindings@.len() <= self.bindings@.len(),
                self.bindings@.subrange(0, old(self).bindings@.len() as int) == old(self).bindings@,
                k <= attributes@.len(),
                pairs == attributes@.map_values(|a: (String, String)| (a.0@, a.1@)),
                bindings_view(self.bindings@) == bindings_view(old(self).bindings@) + declarations_in(pairs.take(k as int)),
                declarations_in(pairs.take(k as int)).len() > 0 ==> self.bindings_changed,
                declarations_in(pairs.take(k as int)).len() == 0 ==> self.bindings_changed == old(self).bindings_changed,
            decreases attributes.len() - k,
        {
            let (key, value) = &attributes[k];
            assert(pairs.take(k + 1).drop_last() == pairs.take(k as int));
            assert(pairs.take(k + 1).last() == (key@, value@));
            let ghost before = self.bindings@;
            let key_chars = chars_of(key.as_str());
            if str_eq(key.as_str(), "xmlns") {
                self.bindings.push((None, unescape(value.as_str())));
                self.bindings_changed = true;
                assert(bindings_view(self.bindings@) =~= bindings_view(before).push((None::<Seq<char>>, xml_unescaped(value@))));
            } else if let Some(prefix) = declared_prefix(key_chars.as_slice()) {
                self.bindings.push((Some(prefix), unescape(value.as_str())));
                self.bindings_changed = true;
                assert(bindings_view(self.bindings@) =~= bindings_view(before).push((Some(prefix@), xml_unescaped(value@))));
            } else {
                assert(declaration_of((key@, value@)) =~= Seq::<BindingView>::empty());
            }
            k = k + 1;
        }
        assert(pairs.take(k as int) == pairs);
    }

    /// `true` if a member rule names `name`.
    fn is_member_element(&self, name: &QName) -> (r: bool)
        ensures
            r == exists|j: int| 0 <= j < self.options.member_rules@.len()
                && (#[trigger] rule_view(self.options.member_rules@[j])).1 == name@,
    {
        let mut members = false;
        let mut j: usize = 0;
        while j < self.options.member_rules.len()
            invariant
                j <= self.options.member_rules@.len(),
                members == exists|k: int| 0 <= k < j && (#[trigger] rule_view(self.options.member_rules@[k])).1 == name@,
            decreases self.options.member_rules.len() - j,
        {
            let hit = *self.options.member_rules[j].element() == *name;
            assert(hit == (rule_view(self.options.member_rules@[j as int]).1 == name@));
            if hit {
                members = true;
            }
            j = j + 1;
        }
        members
    }

    /// The element name as written, `buf[m.start + 1..name_end]`.
    fn raw_name_bytes(&self, from: usize, to: usize) -> (r: Vec<u8>)
        requires
            from <= to <= self.buf@.len(),
        ensures
            r@ == self.buf@.subrange(from as int, to as int),
    {
        let mut raw: Vec<u8> = Vec::new();
        append_range(&mut raw, self.buf.as_slice(), from, to);
        raw
    }

    /// A member element or a known collection was seen: the root is not a
    /// single feature.
    fn mark_container(&mut self)
        requires
            old(self).wf(),
            old(self).mode != Mode::Prolog,
        ensures
            final(self).header == old(self).header,
            final(self).wf(),
            same_input(old(self), final(self)),
            same_queue(old(self), final(self)),
            same_chunk(old(self), final(self)),
            final(self).mode == old(self).mode,
            final(self).root_candidate is None,
            final(self).stack@ == old(self).stack@,
            final(self).bindings@ == old(self).bindings@,
            final(self).referenced_members == old(self).referenced_members,
            final(self).next_bounded_by_id == old(self).next_bounded_by_id,
            final(self).context_id == old(self).context_id,
            final(self).saw_container,
    {
        self.saw_container = true;
        self.root_candidate = None;
    }

    /// The root starting at `start` may be the one feature of the document.
    fn mark_root_candidate(&mut self, start: u64)
        requires
            old(self).wf(),
            old(self).stack@.len() == 0,
            old(self).chunk_spans@.len() == 0,
            old(self).base <= start < old(self).base + old(self).pos,
            old(self).stream@[start as int] == 0x3Cu8,
            last_end(old(self)) <= start,
            old(self).mode == Mode::Outside,
        ensures
            final(self).header == old(self).header,
            final(self).wf(),
            same_input(old(self), final(self)),
            same_queue(old(self), final(self)),
            same_chunk(old(self), final(self)),
            final(self).mode == old(self).mode,
            final(self).root_candidate == Some(start),
            final(self).stack@ == old(self).stack@,
            final(self).bindings@ == old(self).bindings@,
            final(self).referenced_members == old(self).referenced_members,
            final(self).next_bounded_by_id == old(self).next_bounded_by_id,
            final(self).context_id == old(self).context_id,
    {
        self.root_candidate = Some(start);
    }

    /// One more member element without a feature.
    fn count_reference(&mut self)
        requires
            old(self).wf(),
            old(self).referenced_members < old(self).base + old(self).pos,
        ensures
            final(self).header == old(self).header,
            final(self).wf(),
            same_input(old(self), final(self)),
            same_queue(old(self), final(self)),
            same_chunk(old(self), final(self)),
            final(self).mode == old(self).mode,
            final(self).root_candidate == old(self).root_candidate,
            final(self).stack@ == old(self).stack@,
            final(self).bindings@ == old(self).bindings@,
            final(self).next_bounded_by_id == old(self).next_bounded_by_id,
            final(self).context_id == old(self).context_id,
            final(self).header == old(self).header,
            final(self).saw_container == old(self).saw_container,
            final(self).referenced_members == old(self).referenced_members + 1,
    {
        self.referenced_members = self.referenced_members + 1;
    }

    /// Open an element outside features.
    fn push_frame(&mut self, frame: Frame)
        requires
            old(self).wf(),
            old(self).stack@.len() > 0 ==> old(self).stack@.last().bindings_before <= frame.bindings_before,
            frame.bindings_before <= old(self).bindings@.len(),
            old(self).root_candidate is Some ==> !frame.members,
            old(self).mode != Mode::Prolog,
        ensures
            final(self).header == old(self).header,
            final(self).wf(),
            same_input(old(self), final(self)),
            same_queue(old(self), final(self)),
            same_chunk(old(self), final(self)),
            final(self).mode == old(self).mode,
            final(self).root_candidate == old(self).root_candidate,
            final(self).stack@ == old(self).stack@.push(frame),
            final(self).bindings@ == old(self).bindings@,
            final(self).saw_container == old(self).saw_container,
            final(self).referenced_members == old(self).referenced_members,
    {
        let ghost stack_before = self.stack@;
        proof {
            if stack_before.len() > 0 {
                assert forall|i: int| 0 <= i < stack_before.len() implies stack_before[i].bindings_before
                    <= frame.bindings_before by {
                    assert(stack_before[i].bindings_before <= stack_before.last().bindings_before);
                }
            }
        }
        self.stack.push(frame);
        assert(self.stack@.drop_last() == stack_before);
        assert(self.stack@.last() == frame);
    }

    /// Into a collection's `boundedBy` that starts at `start`.
    fn enter_bounded_by(&mut self, start: u64, name: Vec<u8>)
        requires
            old(self).wf(),
            old(self).base <= start,
            start + 1 <= old(self).base + old(self).pos,
            old(self).stream@[start as int] == 0x3Cu8,
            last_end(old(self)) <= start,
            !in_feature(old(self).mode),
            old(self).mode != Mode::Prolog,
        ensures
            final(self).wf(),
            same_input(old(self), final(self)),
            final(self).mode == (Mode::Feature { depth: 1, emit: true, start, bounded_by: true }),
            final(self).feature_name@ == name@,
            same_queue(old(self), final(self)),
            same_chunk(old(self), final(self)),
            final(self).stack@ == old(self).stack@,
            final(self).bindings@ == old(self).bindings@,
    {
        self.feature_name = name;
        self.mode = Mode::Feature { depth: 1, emit: true, start, bounded_by: true };
    }


    /// A start tag outside features: the root, a container or a feature.
    #[verifier::rlimit(100)]
    fn start_tag(&mut self, m: Markup) -> (r: Result<(), Error>)
        requires
            old(self).wf(),
            markup_ok(old(self).buf@, m),
            m.kind is Start,
            m.end == old(self).pos,
            last_end(old(self)) <= old(self).base + m.start,
            old(self).referenced_members <= old(self).base + m.start,
            old(self).context_id <= old(self).base + m.start,
            old(self).next_bounded_by_id <= old(self).base + m.start,
            !in_feature(old(self).mode),
            old(self).mode != Mode::Epilog,
        ensures
            r matches Err(e) ==> e is Xml,
            final(self).wf(),
            same_input(old(self), final(self)),
            start_tag_post(*old(self), *final(self), m, r),
    {
        let (name_end, empty) = match m.kind {
            Kind::Start { name_end, empty } => (name_end, empty),
            _ => (0, false),
        };
        let (raw_name, attributes) = match self.read_start_tag(m) {
            Ok(parsed) => parsed,
            Err(e) => return Err(e),
        };
        proof {
            let t = decode_utf8(start_tag_bytes(self.buf@, m));
            let expected = attributes_from(t.skip(name_length(t, 0)), 0)->Ok_0;
            assert(attributes@.map_values(|a: (String, String)| (a.0@, a.1@)) =~= expected);
        }
        let before = self.bindings.len();
        self.declare_attributes(&attributes);
        let declared = self.bindings.len() > before;
        let name = match resolve_name(&self.bindings, raw_name.as_str(), true) {
            Some(name) => name,
            None => {
                let mut message = owned("undeclared namespace prefix in <");
                append(&mut message, raw_name.as_str());
                append(&mut message, ">");
                return Err(self.error(m.start, message));
            },
        };
        let start = self.base + m.start as u64;
        assert(self.stream@[start as int] == self.buf@[m.start as int]);
        let is_root = self.mode == Mode::Prolog;
        if is_root {
            proof {
                assert(bindings_view(self.bindings@).subrange(before as int, self.bindings@.len() as int) =~= declarations_in(
                    attributes@.map_values(|a: (String, String)| (a.0@, a.1@)),
                ));
            }
            self.read_header(name.duplicate(), &attributes, before);
        }
        let collection = is_collection(&name);
        let parent_has_members = self.stack.len() > 0 && self.stack[self.stack.len() - 1].members;
        if parent_has_members && !collection {
            // A feature. Its own declarations travel in its bytes.
            if declared {
                self.drop_bindings(before);
            }
            assert(self.bindings@ =~= old(self).bindings@);
            self.parent_has_child();
            assert(self.features_emitted == old(self).features_emitted);
            assert(self.options.layers == old(self).options.layers);
            self.start_wanted_feature(m, start, name_end, empty, &name);
            return Ok(());
        }
        if !is_root && is_bounded_by(&name) {
            // The envelope of the collection this element is in, copied for
            // the features it bounds. Its declarations travel in its bytes.
            if declared {
                self.drop_bindings(before);
            }
            if !empty {
                let raw = self.raw_name_bytes(m.start + 1, name_end);
                self.enter_bounded_by(start, raw);
            }
            return Ok(());
        }
        let members = self.is_member_element(&name);
        self.open_container(m, start, name_end, empty, members, collection, is_root, before, declared);
        Ok(())
    }

    /// A feature named `name` starts (markup `m` at stream offset `start`);
    /// it is copied when the layer filter wants it.
    fn start_wanted_feature(&mut self, m: Markup, start: u64, name_end: usize, empty: bool, name: &QName)
        requires
            old(self).wf(),
            markup_ok(old(self).buf@, m),
            m.kind == (Kind::Start { name_end, empty }),
            m.end == old(self).pos,
            start == old(self).base + m.start,
            old(self).stream@[start as int] == 0x3Cu8,
            last_end(old(self)) <= start,
            old(self).context_id <= start,
            old(self).mode == Mode::Outside,
            old(self).root_candidate is None,
        ensures
            final(self).bindings@ == old(self).bindings@,
            final(self).wf(),
            same_input(old(self), final(self)),
            feature_started(
                old(self).base,
                old(self).features_emitted,
                *final(self),
                wanted_layer(layers_view(old(self).options.layers), name@),
                m,
            ),
    {
        let emit = match &self.options.layers {
            Some(layers) => {
                let slice = layers.as_slice();
                let wanted = layer_wanted(slice, name);
                proof {
                    let v = names_view(layers@);
                    assert(slice@ == layers@);
                    assert(v.len() == layers@.len());
                    assert(layers_view(self.options.layers) == Some(v));
                    if wanted {
                        let i = choose|i: int| 0 <= i < slice@.len() && layer_accepts(#[trigger] slice@[i]@, name@);
                        assert(0 <= i < v.len());
                        assert(v[i] == layers@[i]@);
                        assert(layer_accepts(v[i], name@));
                        assert(accepted_by(v, name@));
                    } else {
                        assert forall|i: int| 0 <= i < v.len() implies !layer_accepts(#[trigger] v[i], name@) by {
                            assert(v[i] == layers@[i]@);
                        }
                        assert(!accepted_by(v, name@));
                    }
                    assert(wanted == wanted_layer(layers_view(self.options.layers), name@));
                }
                wanted
            },
            None => true,
        };
        assert(emit == wanted_layer(layers_view(self.options.layers), name@));
            self.start_feature(m, start, name_end, empty, emit);
    }

    /// A feature element starts at stream offset `start` (markup `m`).
    #[verifier::rlimit(100)]
    fn start_feature(&mut self, m: Markup, start: u64, name_end: usize, empty: bool, emit: bool)
        requires
            old(self).wf(),
            markup_ok(old(self).buf@, m),
            m.kind == (Kind::Start { name_end, empty }),
            m.end == old(self).pos,
            start == old(self).base + m.start,
            old(self).stream@[start as int] == 0x3Cu8,
            last_end(old(self)) <= start,
            old(self).context_id <= start,
            old(self).mode == Mode::Outside,
            old(self).root_candidate is None,
        ensures
            final(self).bindings@ == old(self).bindings@,
            final(self).wf(),
            same_input(old(self), final(self)),
            !empty ==> final(self).mode == (Mode::Feature { depth: 1, emit, start, bounded_by: false })
                && final(self).feature_name@ == old(self).buf@.subrange(m.start + 1, name_end as int)
                && final(self).features_emitted == old(self).features_emitted,
            empty ==> final(self).mode == old(self).mode,
            empty && emit ==> final(self).features_emitted == old(self).features_emitted + 1,
            empty && emit ==> ({
                let span = (start as int, old(self).base + m.end);
                ||| final(self).chunk_spans@.len() > 0 && final(self).chunk_spans@.last() == span
                ||| final(self).chunk_spans@.len() == 0 && final(self).ready_spans@.len() > 0
                    && final(self).ready_spans@.last().len() > 0 && final(self).ready_spans@.last().last() == span
            }),
            empty && !emit ==> final(self).features_emitted == old(self).features_emitted,
    {
        if emit {
            self.begin_feature(start);
        }
        if empty {
            self.end_feature(emit, start, m.end);
        } else {
            self.feature_name = self.raw_name_bytes(m.start + 1, name_end);
            self.mode = Mode::Feature { depth: 1, emit, start, bounded_by: false };
        }
    }

    /// The root or a container starts (markup `m`, at stream offset `start`).
    #[verifier::rlimit(100)]
    fn open_container(
        &mut self,
        m: Markup,
        start: u64,
        name_end: usize,
        empty: bool,
        members: bool,
        collection: bool,
        is_root: bool,
        before: usize,
        declared: bool,
    )
        requires
            old(self).wf(),
            markup_ok(old(self).buf@, m),
            m.kind == (Kind::Start { name_end, empty }),
            m.end == old(self).pos,
            start == old(self).base + m.start,
            old(self).stream@[start as int] == 0x3Cu8,
            last_end(old(self)) <= start,
            old(self).context_id <= start,
            old(self).referenced_members <= start,
            old(self).mode == Mode::Outside,
            is_root ==> old(self).stack@.len() == 0 && old(self).chunk_spans@.len() == 0 && old(self).root_candidate is None,
            old(self).stack@.len() > 0 ==> old(self).stack@.last().bindings_before <= before,
            before <= old(self).bindings@.len(),
            declared == (old(self).bindings@.len() > before),
        ensures
            final(self).header == old(self).header,
            final(self).wf(),
            same_input(old(self), final(self)),
            !empty ==> {
                let top = final(self).stack@.last();
                &&& final(self).stack@.len() == old(self).stack@.len() + 1
                &&& top.raw_name@ == old(self).buf@.subrange(m.start + 1, name_end as int)
                &&& top.members == members
                &&& !top.has_child
                &&& top.bindings_before == before
                &&& top.bounded_by is None
            },
            (members || collection) && !(empty && is_root) ==> final(self).saw_container
                && final(self).root_candidate is None,
            empty && !is_root ==> final(self).stack@.len() == old(self).stack@.len(),
            empty && members && !is_root ==> final(self).referenced_members == old(self).referenced_members + 1,
    {
        if members || collection {
            self.mark_container();
        } else if is_root && self.options.allow_single_feature_root {
            self.mark_root_candidate(start);
        }
        self.parent_has_child();
        if empty {
            if declared {
                self.drop_bindings(before);
            }
            if members {
                self.count_reference();
            }
            if is_root {
                self.end_root(m.end);
            }
            return;
        }
        let raw = self.raw_name_bytes(m.start + 1, name_end);
        self.push_frame(Frame { raw_name: raw, members, has_child: false, bindings_before: before, bounded_by: None });
    }
}

/// `true` if `a` holds the bytes `b[from..to]`.
fn bytes_eq_range(a: &[u8], b: &[u8], from: usize, to: usize) -> (r: bool)
    requires
        from <= to <= b@.len(),
    ensures
        r == (a@ == b@.subrange(from as int, to as int)),
{
    if a.len() != to - from {
        return false;
    }
    let mut i: usize = 0;
    while i < a.len()
        invariant
            i <= a@.len() == to - from,
            to <= b@.len(),
            forall|j: int| 0 <= j < i ==> a@[j] == b@[from + j],
        decreases a.len() - i,
    {
        if a[i] != b[from + i] {
            assert(a@[i as int] != b@.subrange(from as int, to as int)[i as int]);
            return false;
        }
        i = i + 1;
    }
    assert(a@ =~= b@.subrange(from as int, to as int));
    true
}

impl FeatureSplitter {
    /// The innermost open element ended: pop it and its declarations.
    fn pop_frame(&mut self) -> (r: Option<Frame>)
        requires
            old(self).wf(),
        ensures
            final(self).wf(),
            same_input(old(self), final(self)),
            same_queue(old(self), final(self)),
            same_chunk(old(self), final(self)),
            final(self).mode == old(self).mode,
            final(self).root_candidate == old(self).root_candidate,
            final(self).header == old(self).header,
            final(self).referenced_members == old(self).referenced_members,
            final(self).next_bounded_by_id == old(self).next_bounded_by_id,
            final(self).context_id == old(self).context_id,
            r is None <==> old(self).stack@.len() == 0,
            r is None ==> final(self).stack@ == old(self).stack@,
            r is Some ==> final(self).stack@ == old(self).stack@.drop_last(),
            r matches Some(f) ==> f == old(self).stack@.last(),
    {
        if self.stack.len() == 0 {
            return None;
        }
        let ghost before = self.stack@;
        let frame = self.stack.pop().unwrap();
        assert(self.stack@ == before.drop_last());
        if self.bindings.len() > frame.bindings_before {
            self.bindings.truncate(frame.bindings_before);
            self.bindings_changed = true;
        }
        proof {
            if self.stack@.len() > 0 {
                assert(self.stack@.last() == before[before.len() - 2]);
                assert(before[before.len() - 2].bindings_before <= before.last().bindings_before);
            }
        }
        Some(frame)
    }

    /// An end tag outside features.
    fn end_outside(&mut self, m: Markup) -> (r: Result<(), Error>)
        requires
            old(self).wf(),
            markup_ok(old(self).buf@, m),
            m.kind is End,
            m.end == old(self).pos,
            old(self).referenced_members <= old(self).base + m.start,
            old(self).context_id <= old(self).base + m.start,
            last_end(old(self)) <= old(self).base + m.start,
            old(self).root_candidate matches Some(s) ==> s < old(self).base + m.start,
            !in_feature(old(self).mode),
            old(self).mode != Mode::Epilog,
        ensures
            r matches Err(e) ==> e is Xml,
            final(self).wf(),
            same_input(old(self), final(self)),
            end_outside_post(*old(self), *final(self), m, r),
    {
        let (from, to) = trim_ascii_range(self.buf.as_slice(), m.start + 2, m.end - 1);
        let frame = match self.pop_frame() {
            Some(frame) => frame,
            None => return Err(self.error_str(m.start, "end tag without a start tag")),
        };
        if !bytes_eq_range(frame.raw_name.as_slice(), self.buf.as_slice(), from, to) {
            let mut message = owned("end tag </");
            let mut name: Vec<u8> = Vec::new();
            append_range(&mut name, self.buf.as_slice(), from, to);
            let written = lossy_string(name.as_slice());
            append(&mut message, written.as_str());
            append(&mut message, "> does not match <");
            let opened = lossy_string(frame.raw_name.as_slice());
            append(&mut message, opened.as_str());
            append(&mut message, ">");
            return Err(self.error(m.start, message));
        }
        if frame.members && !frame.has_child {
            self.count_reference();
        }
        if self.stack.len() == 0 && self.mode != Mode::Prolog {
            self.end_root(m.end);
        }
        Ok(())
    }

    /// The error of a scan that failed.
    fn scan_error(&self, e: ScanError) -> (r: Error)
        requires
            self.wf(),
            match e {
                ScanError::InMarkup(i) => i <= self.buf@.len(),
                ScanError::InStartTag(i) => i <= self.buf@.len(),
                ScanError::Doctype(i) => i <= self.buf@.len(),
                ScanError::Declaration(i) => i <= self.buf@.len(),
            },
        ensures
            match e {
                ScanError::InMarkup(i) => r matches Error::Xml { location, message }
                    && location == self.spot(i as int) && message@ == "unexpected end of input in markup"@,
                ScanError::InStartTag(i) => r matches Error::Xml { location, message }
                    && location == self.spot(i as int) && message@ == "unexpected end of input in a start tag"@,
                ScanError::Doctype(i) => r == Error::DtdNotSupported(self.spot(i as int)),
                ScanError::Declaration(i) => r matches Error::Xml { location, message }
                    && location == self.spot(i as int) && message@ == "unsupported markup declaration"@,
            },
    {
        match e {
            ScanError::InMarkup(i) => self.error_str(i, "unexpected end of input in markup"),
            ScanError::InStartTag(i) => self.error_str(i, "unexpected end of input in a start tag"),
            ScanError::Doctype(i) => Error::DtdNotSupported(
                Location { source: self.source, byte_offset: self.base + i as u64, feature_seq: None, gml_id: None },
            ),
            ScanError::Declaration(i) => self.error_str(i, "unsupported markup declaration"),
        }
    }

    /// End of input: check the document is complete and flush the last chunk.
    fn finish(&mut self) -> (r: Result<(), Error>)
        requires
            old(self).wf(),
        ensures
            final(self).header == old(self).header,
            final(self).mode == old(self).mode,
            final(self).wf(),
            final(self).finished,
            final(self).stream@ == old(self).stream@,
            final(self).delivered@ == old(self).delivered@,
            final(self).eof == old(self).eof,
            final(self).buf@ == old(self).buf@,
            final(self).pos == old(self).pos,
            final(self).options.target_chunk_bytes == old(self).options.target_chunk_bytes,
            final(self).source == old(self).source,
            r is Ok <==> document_complete(*old(self)),
            document_complete(*final(self)) == document_complete(*old(self)),
            old(self).mode != Mode::Epilog && old(self).mode != Mode::Prolog ==> (r matches Err(Error::Xml { location, message })
                && location == old(self).spot(old(self).buf@.len() as int) && message@ == "unexpected end of input"@),
            (old(self).mode == Mode::Epilog || old(self).mode == Mode::Prolog) && !document_complete(*old(self))
                ==> r matches Err(Error::NoFeatures(_)),
    {
        self.finished = true;
        if self.mode != Mode::Epilog && self.mode != Mode::Prolog {
            return Err(self.error_str(self.buf.len(), "unexpected end of input"));
        }
        self.flush_chunk();
        if !self.saw_container && !self.root_feature {
            return Err(Error::NoFeatures(self.source.describe()));
        }
        Ok(())
    }

    /// Process one piece of markup, or the end of the input.
    #[verifier::rlimit(100)]
    fn step(&mut self) -> (r: Result<Stepped, Error>)
        requires
            old(self).wf(),
            !old(self).finished,
        ensures
            r matches Err(e) ==> step_failed(*old(self), *final(self), e),
            final(self).finished ==> final(self).header == old(self).header,
            r matches Ok(Stepped::NeedInput) ==> final(self).awaiting_markup() && final(self).mode == old(self).mode
                && (!in_feature(old(self).mode) ==> no_open(old(self).buf@, old(self).pos as int, final(self).pos as int)),
            r matches Ok(Stepped::Progress) && !final(self).finished ==> exists|m: Markup|
                old(self).pos <= m.start && m.end == final(self).pos && markup_ok(old(self).buf@, m) && (!in_feature(
                    old(self).mode,
                ) ==> no_open(old(self).buf@, old(self).pos as int, m.start as int)) && handled(
                    *old(self),
                    *final(self),
                    m,
                    Ok(()),
                ),
            r matches Err(Error::NoFeatures(_)) ==> final(self).pos == final(self).buf@.len() && final(self).eof
                && final(self).outside_root() && !document_complete(*final(self)),
            final(self).wf(),
            final(self).stream@ == old(self).stream@,
            final(self).delivered@ == old(self).delivered@,
            final(self).eof == old(self).eof,
            final(self).buf@ == old(self).buf@,
            final(self).pos >= old(self).pos,
            final(self).options.target_chunk_bytes == old(self).options.target_chunk_bytes,
            r matches Ok(Stepped::Progress) ==> final(self).finished || final(self).pos > old(self).pos,
            r matches Ok(Stepped::NeedInput) ==> !final(self).finished && !final(self).eof,
            final(self).finished ==> final(self).eof,
            final(self).source == old(self).source,
            old(self).pos == old(self).buf@.len() && !old(self).eof ==> r matches Ok(Stepped::NeedInput),
            old(self).pos == old(self).buf@.len() && old(self).eof ==> (r is Ok <==> document_complete(*old(self)))
                && final(self).finished,
            final(self).finished && r is Ok ==> final(self).pos == final(self).buf@.len() && document_complete(*final(self)),
            old(self).pos == old(self).buf@.len() && old(self).eof && !old(self).outside_root() ==> r matches Err(
                Error::Xml { .. },
            ),
            old(self).pos == old(self).buf@.len() && old(self).eof && old(self).outside_root() && !document_complete(
                *old(self),
            ) ==> r matches Err(Error::NoFeatures(_)),
    {
        let scanned = match self.mode {
            Mode::Feature { .. } => next_feature_markup(
                self.buf.as_slice(),
                self.pos,
                self.eof,
                self.feature_name.as_slice(),
            ),
            _ => next_markup(self.buf.as_slice(), self.pos, self.eof),
        };
        match scanned {
            Scanned::NeedInput(q) => {
                self.pos = q;
                Ok(Stepped::NeedInput)
            },
            Scanned::NoMore(q) => {
                self.pos = q;
                match self.finish() {
                    Ok(()) => Ok(Stepped::Progress),
                    Err(e) => Err(e),
                }
            },
            Scanned::Failed(e) => {
                let err = self.scan_error(e);
                assert(scan_refused(*self, err));
                Err(err)
            },
            Scanned::Found(m) => {
                let ghost s0 = *self;
                self.pos = m.end;
                let ghost s1 = *self;
                let r = self.handle(m);
                proof {
                    assert(handled(s1, *self, m, r) == handled(s0, *self, m, r));
                }
                match r {
                    Ok(()) => Ok(Stepped::Progress),
                    Err(e) => Err(e),
                }
            },
        }
    }

    /// Process the markup `m` that was just read.
    #[verifier::rlimit(100)]
    fn handle(&mut self, m: Markup) -> (r: Result<(), Error>)
        requires
            old(self).wf(),
            markup_ok(old(self).buf@, m),
            m.end == old(self).pos,
            last_end(old(self)) <= old(self).base + m.start,
            old(self).referenced_members <= old(self).base + m.start,
            old(self).context_id <= old(self).base + m.start,
            old(self).next_bounded_by_id <= old(self).base + m.start,
            old(self).root_candidate matches Some(s) ==> s < old(self).base + m.start,
            old(self).mode matches Mode::Feature { depth, start, .. } ==> start + depth <= old(self).base + m.start,
        ensures
            r matches Err(e) ==> e is Xml,
            final(self).wf(),
            same_input(old(self), final(self)),
            handled(*old(self), *final(self), m, r),
    {
        match self.mode {
            Mode::Feature { depth, emit, start, bounded_by } => match m.kind {
                Kind::Start { empty: false, .. } => {
                    self.mode = Mode::Feature { depth: depth + 1, emit, start, bounded_by };
                    Ok(())
                },
                Kind::End => {
                    if depth == 1 {
                        self.mode = Mode::Outside;
                        if bounded_by {
                            self.end_bounded_by(start, m.end);
                        } else {
                            self.end_feature(emit, start, m.end);
                        }
                    } else {
                        self.mode = Mode::Feature { depth: depth - 1, emit, start, bounded_by };
                    }
                    Ok(())
                },
                _ => Ok(()),
            },
            Mode::Prolog | Mode::Outside => match m.kind {
                Kind::Start { .. } => self.start_tag(m),
                Kind::End => self.end_outside(m),
                Kind::Other => Ok(()),
            },
            Mode::Epilog => match m.kind {
                Kind::Other => Ok(()),
                _ => Err(self.error_str(m.start, "content after the root element")),
            },
        }
    }
}

impl FeatureSplitter {
    /// The next chunk, `NeedInput` when the input so far holds no complete
    /// chunk, or `Done` after the last one.
    ///
    /// A chunk is a run of whole elements of the stream, after those already
    /// delivered, in stream order: `final.last_spans()` says where each lies,
    /// and its bytes are those elements as written, one after another. Chunks
    /// are numbered on from 0, and so are the elements in them; a chunk
    /// carries the splitter's source. All of a chunk's elements but the last
    /// take fewer bytes than the target. `Done` comes only once the input has
    /// been read through and the document is complete, with no chunk left,
    /// or after an error; after an error, or once `Done`, every call is
    /// `Done` again. Once the input has been read through and no chunk is
    /// left, the call that finishes reports an input that ends inside the
    /// root element as `Xml`, and a document without a feature or a
    /// collection as `NoFeatures`; `NoFeatures` comes only then. Every step
    /// the call takes is one that `handled` describes (`walked_to`): a start
    /// tag under an element that a member rule names begins a feature, its
    /// end queues the feature's span, and an error comes from refused or
    /// unreadable markup or an incomplete document (`step_failed`). When it
    /// waits for input, the markup where it stopped is no whole start tag.
    #[verifier::rlimit(60)]
    pub fn next_chunk(&mut self) -> (r: Result<Poll, Error>)
        requires
            old(self).wf(),
        ensures
            final(self).wf(),
            final(self).stream() == old(self).stream(),
            final(self).input_ended() == old(self).input_ended(),
            match r {
                Ok(Poll::Chunk(c)) => {
                    &&& chunk_ok(
                        c,
                        final(self).last_spans(),
                        final(self).stream(),
                        old(self).next_delivered_seq(),
                        old(self).next_delivered_feature(),
                        old(self).delivered_end(),
                    )
                    &&& final(self).next_delivered_seq() == old(self).next_delivered_seq() + 1
                    &&& final(self).next_delivered_feature() == old(self).next_delivered_feature() + c.features
                    &&& final(self).delivered_end() == final(self).last_spans().last().1
                    &&& within_target(final(self).last_spans(), final(self).target())
                },
                Ok(Poll::NeedInput) => !final(self).input_ended() && !final(self).is_finished() && final(self).awaiting_markup()
                    && final(self).next_delivered_seq() == old(self).next_delivered_seq(),
                Ok(Poll::Done) => final(self).is_finished() && final(self).queued_chunks() == 0,
                Err(_) => final(self).is_finished() && final(self).queued_chunks() == 0,
            },
            r matches Ok(Poll::Chunk(c)) ==> c.source == final(self).source_id(),
            old(self).is_finished() && old(self).queued_chunks() == 0 ==> r matches Ok(Poll::Done),
            r matches Ok(Poll::Done) && !old(self).is_finished() ==> final(self).read_through() && final(self).complete(),
            r matches Err(e) ==> final(self).failed_with(e),
            r matches Err(Error::NoFeatures(_)) ==> final(self).read_through() && final(self).outside_root()
                && !final(self).complete(),
            !old(self).is_finished() && old(self).queued_chunks() == 0 && old(self).read_through()
                && !old(self).outside_root() ==> r matches Err(Error::Xml { .. }),
            !old(self).is_finished() && old(self).queued_chunks() == 0 && old(self).read_through()
                && old(self).outside_root() && !old(self).complete() ==> r matches Err(Error::NoFeatures(_)),
            final(self).target() == old(self).target(),
            walked_to(*old(self), *final(self), r),
    {
        let ghost mut trace: Seq<FeatureSplitter> = seq![*self];
        loop
            invariant
                self.wf(),
                trace.len() >= 1 && trace[0] == *old(self) && walk(trace) && trace.last() == *self,
                self.finished && !old(self).finished ==> self.pos == self.buf@.len() && document_complete(*self),
                old(self).read_through() && !old(self).finished ==> document_complete(*self) == document_complete(
                    *old(self),
                ) && self.outside_root() == old(self).outside_root() && (!self.finished ==> self.pos
                    == self.buf@.len() && self.ready@.len() == old(self).ready@.len()),
                self.options.target_chunk_bytes == old(self).options.target_chunk_bytes,
                self.stream@ == old(self).stream@,
                self.eof == old(self).eof,
                self.delivered@ == old(self).delivered@,
                self.source == old(self).source,
                old(self).finished ==> self.finished && self.ready@ == old(self).ready@,
                self.finished && !old(self).finished ==> self.eof,
            decreases (if self.finished { 0int } else { 1int }), self.buf@.len() - self.pos,
        {
            if self.ready.len() > 0 {
                let ghost spans = self.ready_spans@[0];
                let ghost q = self.ready@;
                let ghost qs = self.ready_spans@;
                let ghost last = *self;
                let chunk = self.ready.remove(0);
                assert(self.ready@ == q.drop_first());
                proof {
                    assert(within_target(qs[0], self.options.target_chunk_bytes as int));
                    assert(all_within(qs.drop_first(), self.options.target_chunk_bytes as int));
                    self.ready_spans = Ghost(qs.drop_first());
                    self.delivered = Ghost((self.delivered@.0 + 1, self.delivered@.1 + chunk.features, spans.last().1));
                    self.last_spans = Ghost(spans);
                    crate::chunk::lemma_queue_order(q, qs, self.stream@, old(self).delivered@.0, old(self).delivered@.1, old(self).delivered@.2);
                    assert(trace.last() == last);
                    assert(walked_to(*old(self), *self, Ok(Poll::Chunk(chunk))));
                }
                return Ok(Poll::Chunk(chunk));
            }
            if self.finished {
                assert(walked_to(*old(self), *self, Ok(Poll::Done)));
                return Ok(Poll::Done);
            }
            let ghost prev = *self;
            match self.step() {
                Err(e) => {
                    let ghost after = *self;
                    self.stop();
                    assert(step_failed(prev, after, e));
                    assert(walked_to(*old(self), *self, Err::<Poll, Error>(e)));
                    return Err(e);
                },
                Ok(Stepped::NeedInput) => {
                    assert(walked_to(*old(self), *self, Ok(Poll::NeedInput)));
                    return Ok(Poll::NeedInput);
                },
                Ok(Stepped::Progress) => {
                    proof {
                        assert(advanced(prev, *self));
                        let t0 = trace;
                        trace = trace.push(*self);
                        assert forall|k: int| 0 <= k < trace.len() - 1 implies #[trigger] advanced(trace[k], trace[k + 1]) by {
                            if k < t0.len() - 1 {
                                assert(trace[k] == t0[k] && trace[k + 1] == t0[k + 1]);
                            }
                        }
                    }
                },
            }
        }
    }

    /// Stop after an error: the chunks not delivered yet are dropped.
    fn stop(&mut self)
        requires
            old(self).wf(),
        ensures
            final(self).base == old(self).base,
            final(self).source == old(self).source,
            final(self).pos == old(self).pos,
            final(self).buf@ == old(self).buf@,
            final(self).mode == old(self).mode,
            final(self).saw_container == old(self).saw_container,
            final(self).root_feature == old(self).root_feature,
            final(self).wf(),
            final(self).finished,
            final(self).stream@ == old(self).stream@,
            final(self).eof == old(self).eof,
            final(self).options.target_chunk_bytes == old(self).options.target_chunk_bytes,
            final(self).ready@.len() == 0,
    {
        self.finished = true;
        let ghost next = queue_next(self.ready@, self.ready_spans@, self.delivered@.0, self.delivered@.1, self.delivered@.2);
        self.ready.clear();
        proof {
            self.ready_spans = Ghost(Seq::empty());
            self.delivered = Ghost(next);
            assert(all_within(Seq::<Seq<(int, int)>>::empty(), self.options.target_chunk_bytes as int));
        }
    }

    /// Read on until the document header is known: `Ok(true)` once it is,
    /// read from the root start tag (`root_tag_read`: its name, declarations,
    /// WFS attributes and schema location); `Ok(false)` when more input is
    /// needed, stopped at markup that is no whole start tag. A document
    /// without a root element, or that fails before it, is an error, with
    /// its cause (`failed_with`).
    #[verifier::rlimit(50)]
    pub fn poll_header(&mut self) -> (r: Result<bool, Error>)
        requires
            old(self).wf(),
        ensures
            final(self).wf(),
            final(self).stream() == old(self).stream(),
            final(self).input_ended() == old(self).input_ended(),
            final(self).next_delivered_seq() == old(self).next_delivered_seq(),
            final(self).next_delivered_feature() == old(self).next_delivered_feature(),
            final(self).delivered_end() == old(self).delivered_end(),
            r matches Ok(false) ==> !final(self).input_ended() && final(self).awaiting_markup(),
            r matches Ok(true) ==> final(self).has_header(),
            r matches Ok(true) && !old(self).has_header() ==> final(self).root_tag_read(),
            !old(self).is_finished() ==> (r matches Err(e) ==> final(self).failed_with(e)),
            old(self).has_header() ==> r matches Ok(true),
            !old(self).has_header() && old(self).is_finished() ==> r matches Err(Error::NoFeatures(_)),
            r is Err ==> final(self).is_finished(),
            final(self).target() == old(self).target(),
    {
        loop
            invariant
                self.wf(),
                self.options.target_chunk_bytes == old(self).options.target_chunk_bytes,
                self.stream@ == old(self).stream@,
                self.eof == old(self).eof,
                self.delivered@ == old(self).delivered@,
                old(self).header is Some ==> self.header is Some,
                old(self).finished ==> self.finished && self.header == old(self).header,
                self.header is Some && old(self).header is None ==> self.root_tag_read(),
                self.finished && !old(self).finished ==> self.header is Some,
            decreases (if self.finished { 0int } else { 1int }), self.buf@.len() - self.pos,
        {
            if self.header.is_some() {
                return Ok(true);
            }
            if self.finished {
                return Err(Error::NoFeatures(self.source.describe()));
            }
            let ghost prev = *self;
            match self.step() {
                Err(e) => {
                    let ghost after = *self;
                    self.finished = true;
                    assert(step_failed(prev, after, e));
                    return Err(e);
                },
                Ok(Stepped::NeedInput) => return Ok(false),
                Ok(Stepped::Progress) => {
                    proof {
                        if self.header is Some && !self.finished {
                            let m = choose|m: Markup|
                                prev.pos <= m.start && m.end == self.pos && markup_ok(prev.buf@, m) && (!in_feature(
                                    prev.mode,
                                ) ==> no_open(prev.buf@, prev.pos as int, m.start as int)) && handled(
                                    prev,
                                    *self,
                                    m,
                                    Ok(()),
                                );
                            assert(prev.mode == Mode::Prolog);
                            assert(m.kind is Start);
                            assert(start_tag_post(prev, *self, m, Ok(())));
                            assert(self.root_tag_read());
                        }
                    }
                },
            }
        }
    }
}

/// Features emitted but not delivered yet: in ready chunks and in the chunk
/// being filled.
pub closed spec fn queue_features(s: &FeatureSplitter) -> int {
    queue_next(s.ready@, s.ready_spans@, s.delivered@.0, s.delivered@.1, s.delivered@.2).1 - s.delivered@.1
        + s.chunk_spans@.len()
}

/// The WFS response attributes a header keeps, as documented:
/// `numberMatched`, `numberReturned`, `next`, `previous` and `timeStamp`
/// (WFS 2.0), `numberOfFeatures` (WFS 1.1).
pub open spec fn documented_wfs_attribute(name: Seq<char>) -> bool {
    ||| name == "numberMatched"@
    ||| name == "numberReturned"@
    ||| name == "numberOfFeatures"@
    ||| name == "next"@
    ||| name == "previous"@
    ||| name == "timeStamp"@
}

proof fn lemma_no_colon(n: Seq<char>)
    requires
        forall|i: int| 0 <= i < n.len() ==> n[i] != ':',
    ensures
        first_index_of(n, ':') is None,
{
}

proof fn lemma_documented_kept(n: Seq<char>)
    requires
        documented_wfs_attribute(n),
    ensures
        !is_namespace_binding(n),
        first_index_of(n, ':') is None,
        is_wfs_attribute(n),
{
    reveal_strlit("numberMatched");
    reveal_strlit("numberReturned");
    reveal_strlit("numberOfFeatures");
    reveal_strlit("next");
    reveal_strlit("previous");
    reveal_strlit("timeStamp");
    reveal_strlit("xmlns");
    assert(n[0] != 'x');
    assert(forall|i: int| 0 <= i < n.len() ==> n[i] != ':');
    lemma_no_colon(n);
    if is_namespace_binding(n) {
        assert(n.subrange(0, 5)[0] == n[0]);
    }
}

/// The header keeps every unprefixed documented WFS response attribute of
/// the root, with its value unescaped, and nothing else.
pub proof fn law_header_keeps_wfs_attributes(attributes: Seq<(Seq<char>, Seq<char>)>)
    ensures
        forall|k: int|
            0 <= k < attributes.len() && documented_wfs_attribute(#[trigger] attributes[k].0) ==> wfs_attributes_of(
                attributes,
            ).contains(((None, attributes[k].0), xml_unescaped(attributes[k].1))),
        forall|x: ((Option<Seq<char>>, Seq<char>), Seq<char>)|
            #[trigger] wfs_attributes_of(attributes).contains(x) ==> x.0.0 is None && documented_wfs_attribute(x.0.1),
    decreases attributes.len(),
{
    if attributes.len() > 0 {
        let rest = attributes.drop_last();
        law_header_keeps_wfs_attributes(rest);
        let a = attributes.last();
        let kept = wfs_attributes_of(attributes);
        assert forall|k: int|
            0 <= k < attributes.len() && documented_wfs_attribute(#[trigger] attributes[k].0) implies kept.contains(
            ((None, attributes[k].0), xml_unescaped(attributes[k].1)),
        ) by {
            lemma_documented_kept(attributes[k].0);
            if k < attributes.len() - 1 {
                assert(attributes[k] == rest[k]);
                let w = ((None::<Seq<char>>, rest[k].0), xml_unescaped(rest[k].1));
                assert(wfs_attributes_of(rest).contains(w));
                let j = choose|j: int| 0 <= j < wfs_attributes_of(rest).len() && wfs_attributes_of(rest)[j] == w;
                assert(kept[j] == w);
            } else {
                assert(kept.last() == ((None::<Seq<char>>, a.0), xml_unescaped(a.1)));
            }
        }
        assert forall|x: ((Option<Seq<char>>, Seq<char>), Seq<char>)| #[trigger] kept.contains(x) implies x.0.0 is None
            && documented_wfs_attribute(x.0.1) by {
            let j = choose|j: int| 0 <= j < kept.len() && kept[j] == x;
            if j < wfs_attributes_of(rest).len() {
                assert(wfs_attributes_of(rest).contains(x));
            }
        }
    }
}

} // verus!
