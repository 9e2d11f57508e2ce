//! The layer a read asks for.

use vstd::prelude::*;

use crate::namespace::resolved;
use crate::qname::clark;
use crate::splitter::layer_accepts;
use crate::text::{chars_of, first_index_of, index_of, opt_str_eq, str_eq, string_from};
use crate::location::{decimal, decimal_string};
use crate::report::{Warning, WarningKind};
use crate::text::{append, owned};
use crate::{Error, FeatureChunk, NamespaceContext, QName, SourceId};

verus! {

/// The layer a read asks for: a Clark name (exact), `prefix:local` (the
/// prefix resolved per chunk), or a local name (any namespace).
#[derive(Debug, Clone)]
pub enum LayerSelector {
    Exact(QName),
    Prefixed { prefix: String, local: String },
    Local(String),
}

/// `layer` read as a selector gives `r`: `{uri}local` is exact (the URI ends
/// at the first `}`), `prefix:local` splits at the first `:`, anything else
/// is a local name.
pub open spec fn parsed_as(layer: Seq<char>, r: LayerSelector) -> bool {
    let rest = layer.drop_first();
    if layer.len() > 0 && layer[0] == '{' && first_index_of(rest, '}') is Some {
        let i = first_index_of(rest, '}')->0;
        r matches LayerSelector::Exact(q) && q@ == (Some(rest.take(i)), rest.skip(i + 1))
    } else if first_index_of(layer, ':') is Some {
        let i = first_index_of(layer, ':')->0;
        r matches LayerSelector::Prefixed { prefix, local } && prefix@ == layer.take(i) && local@ == layer.skip(i + 1)
    } else {
        r matches LayerSelector::Local(l) && l@ == layer
    }
}

/// The splitter's filter entry for a selector, as a value.
pub open spec fn filter_name(s: LayerSelector) -> (Option<Seq<char>>, Seq<char>) {
    match s {
        LayerSelector::Exact(name) => name@,
        LayerSelector::Prefixed { local, .. } => (None, local@),
        LayerSelector::Local(local) => (None, local@),
    }
}

/// The selector takes a feature named `name` where `bindings` are in scope.
/// A prefix that is not declared there does not narrow the match.
pub open spec fn selector_accepts(
    s: LayerSelector,
    name: (Option<Seq<char>>, Seq<char>),
    bindings: Seq<(Option<Seq<char>>, Seq<char>)>,
) -> bool {
    match s {
        LayerSelector::Exact(exact) => exact@ == name,
        LayerSelector::Local(local) => name.1 == local@,
        LayerSelector::Prefixed { prefix, local } => name.1 == local@ && match resolved(bindings, Some(prefix@)) {
            Some(uri) => name.0 == Some(uri),
            None => true,
        },
    }
}

impl LayerSelector {
    pub fn parse(layer: &str) -> (r: LayerSelector)
        ensures
            parsed_as(layer@, r),
    {
        let chars = chars_of(layer);
        if chars.len() > 0 && chars[0] == '{' {
            let rest = string_from(&chars, 1, chars.len());
            let rest_chars = chars_of(rest.as_str());
            assert(rest_chars@ == layer@.drop_first());
            match index_of(&rest_chars, '}') {
                Some(i) => {
                    let uri = string_from(&rest_chars, 0, i);
                    let local = string_from(&rest_chars, i + 1, rest_chars.len());
                    assert(rest_chars@.take(i as int) == rest_chars@.subrange(0, i as int));
                    assert(rest_chars@.skip(i + 1) == rest_chars@.subrange(i + 1, rest_chars@.len() as int));
                    return LayerSelector::Exact(QName::new(Some(uri.as_str()), local.as_str()));
                },
                None => {
                    assert(first_index_of(layer@.drop_first(), '}') is None);
                },
            }
        }
        match index_of(&chars, ':') {
            Some(i) => {
                let prefix = string_from(&chars, 0, i);
                let local = string_from(&chars, i + 1, chars.len());
                assert(chars@.take(i as int) == chars@.subrange(0, i as int));
                assert(chars@.skip(i + 1) == chars@.subrange(i + 1, chars@.len() as int));
                LayerSelector::Prefixed { prefix, local }
            },
            None => {
                assert(chars@.subrange(0, chars@.len() as int) == chars@);
                LayerSelector::Local(string_from(&chars, 0, chars.len()))
            },
        }
    }

    /// The splitter's filter entry: exact, or the local name in any namespace.
    pub fn filter(&self) -> (r: QName)
        ensures
            r@ == filter_name(*self),
    {
        match self {
            LayerSelector::Exact(name) => name.duplicate(),
            LayerSelector::Prefixed { local, .. } => QName::new(None, local.as_str()),
            LayerSelector::Local(local) => QName::new(None, local.as_str()),
        }
    }

    pub fn accepts(&self, name: &QName, namespaces: &NamespaceContext) -> (r: bool)
        ensures
            r == selector_accepts(*self, name@, namespaces@),
    {
        match self {
            LayerSelector::Exact(exact) => opt_str_eq(exact.ns_str(), name.ns_str()) && str_eq(
                exact.local.as_str(),
                name.local.as_str(),
            ),
            LayerSelector::Local(local) => str_eq(name.local.as_str(), local.as_str()),
            LayerSelector::Prefixed { prefix, local } => {
                str_eq(name.local.as_str(), local.as_str()) && match namespaces.resolve_prefix(Some(prefix.as_str())) {
                    Some(uri) => opt_str_eq(name.ns_str(), Some(uri)),
                    None => true,
                }
            },
        }
    }
}

/// What the splitter lets through is never narrower than what the selector
/// takes: a feature the selector accepts passes the selector's filter entry,
/// whatever namespaces are in scope.
pub proof fn lemma_filter_covers_selector(
    s: LayerSelector,
    name: (Option<Seq<char>>, Seq<char>),
    bindings: Seq<(Option<Seq<char>>, Seq<char>)>,
)
    requires
        selector_accepts(s, name, bindings),
    ensures
        layer_accepts(filter_name(s), name),
{
}

/// A name in a namespace, written in Clark notation, selects exactly that
/// name again: `{uri}local` names the layer `local` in `uri` (for a URI
/// without `}`).
pub proof fn lemma_clark_name_selects_it(name: (Option<Seq<char>>, Seq<char>), r: LayerSelector)
    requires
        name.0 is Some,
        !name.0->0.contains('}'),
        parsed_as(clark(name), r),
    ensures
        r matches LayerSelector::Exact(q) && q@ == name,
{
    let uri = name.0->0;
    let layer = clark(name);
    let rest = layer.drop_first();
    assert(rest =~= uri + seq!['}'] + name.1);
    assert(rest[uri.len() as int] == '}');
    assert(forall|j: int| 0 <= j < uri.len() ==> rest[j] == uri[j]);
    assert(first_index_of(rest, '}') is Some);
    let i = first_index_of(rest, '}')->0;
    assert(i == uri.len()) by {
        if i < uri.len() {
            assert(rest[i] == uri[i]);
            assert(uri.contains('}'));
        }
    }
    assert(rest.take(i) =~= uri);
    assert(rest.skip(i + 1) =~= name.1);
}

/// The numbering and the warnings of a read over several sources, one after
/// another: every source gets the next source id, chunks are numbered on
/// across sources, and a source without features is skipped with a warning.
pub struct ChunkSequencer {
    next_source: u32,
    next_seq: u64,
    warnings: Vec<Warning>,
}

/// The warning for a source skipped for want of features.
pub open spec fn skipped_source_message(name: Seq<char>) -> Seq<char> {
    "skipped "@ + name + ": no feature collection or feature member"@
}

/// The warning for member elements that only refer to their features.
pub open spec fn referenced_message(count: nat) -> Seq<char> {
    decimal(count) + " feature members given by reference (not read)"@
}

impl ChunkSequencer {
    /// The id the next source gets.
    pub closed spec fn next_source(&self) -> nat {
        self.next_source as nat
    }

    /// The number the next chunk gets.
    pub closed spec fn next_seq(&self) -> nat {
        self.next_seq as nat
    }

    /// The warnings so far.
    pub closed spec fn warnings(&self) -> Seq<Warning> {
        self.warnings@
    }

    pub fn new() -> (r: ChunkSequencer)
        ensures
            r.next_source() == 0,
            r.next_seq() == 0,
            r.warnings() == Seq::<Warning>::empty(),
    {
        ChunkSequencer { next_source: 0, next_seq: 0, warnings: Vec::new() }
    }

    /// Sources opened so far.
    pub fn sources_opened(&self) -> (r: u32)
        ensures
            r == self.next_source(),
    {
        self.next_source
    }

    /// Chunks numbered so far.
    pub fn chunks_numbered(&self) -> (r: u64)
        ensures
            r == self.next_seq(),
    {
        self.next_seq
    }

    /// A source is opened: its id, in the order sources are opened.
    pub fn open_source(&mut self) -> (r: SourceId)
        requires
            old(self).next_source() < u32::MAX,
        ensures
            r.0 == old(self).next_source(),
            final(self).next_source() == old(self).next_source() + 1,
            final(self).next_seq() == old(self).next_seq(),
            final(self).warnings() == old(self).warnings(),
    {
        let id = SourceId(self.next_source);
        self.next_source = self.next_source + 1;
        id
    }

    /// A chunk of the current source, numbered on from the chunks of the
    /// sources before it.
    pub fn number(&mut self, chunk: FeatureChunk) -> (r: FeatureChunk)
        requires
            old(self).next_seq() < u64::MAX,
        ensures
            r.seq == old(self).next_seq(),
            r == (FeatureChunk { seq: r.seq, ..chunk }),
            final(self).next_seq() == old(self).next_seq() + 1,
            final(self).next_source() == old(self).next_source(),
            final(self).warnings() == old(self).warnings(),
    {
        let mut chunk = chunk;
        chunk.seq = self.next_seq;
        self.next_seq = self.next_seq + 1;
        chunk
    }

    /// Reading a source's header failed: a source without features is
    /// skipped with a warning (`None`), any other error ends the read.
    pub fn header_failed(&mut self, error: Error) -> (r: Option<Error>)
        ensures
            match error {
                Error::NoFeatures(name) => r is None && final(self).warnings() == old(self).warnings().push(
                    final(self).warnings().last(),
                ) && final(self).warnings().last().kind == WarningKind::SkippedSource
                    && final(self).warnings().last().location is None && final(self).warnings().last().message@
                    == skipped_source_message(name@),
                _ => r == Some(error) && final(self).warnings() == old(self).warnings(),
            },
            final(self).next_seq() == old(self).next_seq(),
            final(self).next_source() == old(self).next_source(),
    {
        match error {
            Error::NoFeatures(name) => {
                let mut message = owned("skipped ");
                append(&mut message, name.as_str());
                append(&mut message, ": no feature collection or feature member");
                self.warnings.push(Warning { kind: WarningKind::SkippedSource, location: None, message });
                None
            },
            other => Some(other),
        }
    }

    /// A source is read to its end: member elements that only refer to
    /// their features are reported.
    pub fn source_done(&mut self, referenced: u64)
        ensures
            referenced == 0 ==> final(self).warnings() == old(self).warnings(),
            referenced > 0 ==> final(self).warnings() == old(self).warnings().push(final(self).warnings().last())
                && final(self).warnings().last().kind == WarningKind::ReferencedMember
                && final(self).warnings().last().location is None && final(self).warnings().last().message@
                == referenced_message(referenced as nat),
            final(self).next_seq() == old(self).next_seq(),
            final(self).next_source() == old(self).next_source(),
    {
        if referenced > 0 {
            let mut message = decimal_string(referenced);
            append(&mut message, " feature members given by reference (not read)");
            self.warnings.push(Warning { kind: WarningKind::ReferencedMember, location: None, message });
        }
    }

    /// The warnings so far; none are left.
    pub fn take_warnings(&mut self) -> (r: Vec<Warning>)
        ensures
            r@ == old(self).warnings(),
            final(self).warnings() == Seq::<Warning>::empty(),
            final(self).next_seq() == old(self).next_seq(),
            final(self).next_source() == old(self).next_source(),
    {
        let mut out: Vec<Warning> = Vec::new();
        std::mem::swap(&mut out, &mut self.warnings);
        out
    }
}

} // verus!
