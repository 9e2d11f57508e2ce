//! Namespace handling. Elements are matched by namespace URI, never by prefix.

use vstd::prelude::*;

use crate::QName;
use crate::text::{
    append, chars_of, first_index_of, index_of, opt_int, opt_str_eq, opt_str_view, opt_string_view,
    owned, push_char, str_eq, string_from,
};

verus! {

/// One binding as values: the prefix (`None`: the default namespace) and its URI.
pub type BindingView = (Option<Seq<char>>, Seq<char>);

/// The index of the first binding of `prefix` at or after `i`.
pub open spec fn prefix_index_from(bs: Seq<BindingView>, prefix: Option<Seq<char>>, i: int) -> Option<int>
    decreases bs.len() - i,
{
    if i < 0 || i >= bs.len() {
        None
    } else if bs[i].0 == prefix {
        Some(i)
    } else {
        prefix_index_from(bs, prefix, i + 1)
    }
}

/// The index of the binding of `prefix`.
pub open spec fn prefix_index(bs: Seq<BindingView>, prefix: Option<Seq<char>>) -> Option<int> {
    prefix_index_from(bs, prefix, 0)
}

/// Each prefix is bound at most once.
pub open spec fn unique_prefixes(bs: Seq<BindingView>) -> bool {
    forall|i: int, j: int| 0 <= i < j < bs.len() ==> bs[i].0 != bs[j].0
}

/// The bindings after binding `prefix` to `uri`: an earlier binding of the
/// prefix is replaced in place, otherwise the binding is added at the end.
pub open spec fn declared(bs: Seq<BindingView>, prefix: Option<Seq<char>>, uri: Seq<char>) -> Seq<BindingView> {
    match prefix_index(bs, prefix) {
        Some(i) => bs.update(i, (prefix, uri)),
        None => bs.push((prefix, uri)),
    }
}

/// The URI `prefix` resolves to. `xmlns=""` undeclares the default namespace.
pub open spec fn resolved(bs: Seq<BindingView>, prefix: Option<Seq<char>>) -> Option<Seq<char>> {
    match prefix_index(bs, prefix) {
        Some(i) => if bs[i].1.len() == 0 && prefix is None {
            None
        } else {
            Some(bs[i].1)
        },
        None => None,
    }
}

/// A prefixed name (`gml:Point`) resolved against the bindings: the part
/// before the first `:` is the prefix; an unprefixed name takes the default
/// namespace, or none.
pub open spec fn resolved_name(bs: Seq<BindingView>, name: Seq<char>) -> Option<(Option<Seq<char>>, Seq<char>)> {
    match first_index_of(name, ':') {
        Some(k) => match resolved(bs, Some(name.subrange(0, k))) {
            Some(uri) => Some((Some(uri), name.subrange(k + 1, name.len() as int))),
            None => None,
        },
        None => Some((resolved(bs, None), name)),
    }
}

/// An attribute value: `&`, `<` and `"` escaped.
pub open spec fn escaped_value(s: Seq<char>) -> Seq<char>
    decreases s.len(),
{
    if s.len() == 0 {
        Seq::empty()
    } else {
        escaped_value(s.drop_last()) + escaped_char(s.last())
    }
}

pub open spec fn escaped_char(c: char) -> Seq<char> {
    if c == '&' {
        "&amp;"@
    } else if c == '<' {
        "&lt;"@
    } else if c == '"' {
        "&quot;"@
    } else {
        seq![c]
    }
}

/// One binding as an `xmlns` attribute, preceded by a space.
pub open spec fn xmlns_attribute(b: BindingView) -> Seq<char> {
    (match b.0 {
        Some(prefix) => " xmlns:"@ + prefix,
        None => " xmlns"@,
    }) + "=\""@ + escaped_value(b.1) + "\""@
}

/// The bindings as `xmlns` attributes, in order.
pub open spec fn xmlns_attributes(bs: Seq<BindingView>) -> Seq<char>
    decreases bs.len(),
{
    if bs.len() == 0 {
        Seq::empty()
    } else {
        xmlns_attributes(bs.drop_last()) + xmlns_attribute(bs.last())
    }
}

/// Some prefix (or the default namespace) is bound to `uri`.
pub open spec fn declares(bs: Seq<BindingView>, uri: Seq<char>) -> bool {
    exists|i: int| 0 <= i < bs.len() && bs[i].1 == uri
}

/// The view of one stored binding.
pub open spec fn binding_view(b: (Option<String>, String)) -> BindingView {
    (opt_string_view(b.0), b.1@)
}

/// Namespace declarations in scope at some point of the document.
///
/// The splitter records the declarations of the root element and of the
/// ancestors of the feature container; every chunk carries them so that it
/// can be parsed on its own.
#[derive(Debug)]
pub struct NamespaceContext {
    /// `(prefix, uri)`; `None` prefix is the default namespace. Each prefix
    /// appears once.
    bindings: Vec<(Option<String>, String)>,
}

impl View for NamespaceContext {
    type V = Seq<BindingView>;

    closed spec fn view(&self) -> Seq<BindingView> {
        self.bindings@.map_values(|b: (Option<String>, String)| binding_view(b))
    }
}

impl NamespaceContext {
    #[verifier::type_invariant]
    closed spec fn well_formed(self) -> bool {
        unique_prefixes(self@)
    }
}

/// Properties of [`prefix_index_from`].
pub proof fn lemma_prefix_index(bs: Seq<BindingView>, prefix: Option<Seq<char>>, from: int)
    requires
        0 <= from,
    ensures
        prefix_index_from(bs, prefix, from) matches Some(i) ==> from <= i < bs.len() && bs[i].0 == prefix,
        forall|j: int| from <= j < bs.len() && (prefix_index_from(bs, prefix, from) matches Some(i) ==> j < i)
            ==> bs[j].0 != prefix,
    decreases bs.len() - from,
{
    if from < bs.len() && bs[from].0 != prefix {
        lemma_prefix_index(bs, prefix, from + 1);
    }
}

/// In bindings with unique prefixes, the binding found is the one at `i`.
pub proof fn lemma_prefix_index_at(bs: Seq<BindingView>, i: int)
    requires
        unique_prefixes(bs),
        0 <= i < bs.len(),
    ensures
        prefix_index(bs, bs[i].0) == Some(i),
{
    lemma_prefix_index(bs, bs[i].0, 0);
}

/// Declaring keeps prefixes unique.
pub proof fn lemma_declared_unique(bs: Seq<BindingView>, prefix: Option<Seq<char>>, uri: Seq<char>)
    requires
        unique_prefixes(bs),
    ensures
        unique_prefixes(declared(bs, prefix, uri)),
{
    lemma_prefix_index(bs, prefix, 0);
}

/// What a prefix resolves to after a declaration: the declared URI for the
/// declared prefix (unless it undeclares the default namespace), and what it
/// resolved to before for every other prefix.
pub proof fn lemma_resolve_after_declare(
    bs: Seq<BindingView>,
    prefix: Option<Seq<char>>,
    uri: Seq<char>,
    other: Option<Seq<char>>,
)
    requires
        unique_prefixes(bs),
    ensures
        resolved(declared(bs, prefix, uri), prefix) == (if uri.len() == 0 && prefix is None {
            None
        } else {
            Some(uri)
        }),
        other != prefix ==> resolved(declared(bs, prefix, uri), other) == resolved(bs, other),
{
    let after = declared(bs, prefix, uri);
    lemma_prefix_index(bs, prefix, 0);
    lemma_prefix_index(bs, other, 0);
    lemma_declared_unique(bs, prefix, uri);
    lemma_prefix_index(after, prefix, 0);
    lemma_prefix_index(after, other, 0);
    match prefix_index(bs, prefix) {
        Some(i) => {
            lemma_prefix_index_at(after, i);
            if let Some(j) = prefix_index(bs, other) {
                lemma_prefix_index_at(after, j);
            }
        },
        None => {
            lemma_prefix_index_at(after, bs.len() as int);
            if let Some(j) = prefix_index(bs, other) {
                lemma_prefix_index_at(after, j);
            }
        },
    }
}

impl NamespaceContext {
    pub fn new() -> (r: NamespaceContext)
        ensures
            r@ == Seq::<BindingView>::empty(),
    {
        let r = NamespaceContext { bindings: Vec::new() };
        assert(r@ =~= Seq::<BindingView>::empty());
        r
    }

    /// The index of the binding of `prefix`.
    fn find(&self, prefix: Option<&str>) -> (r: Option<usize>)
        ensures
            opt_int(r) == prefix_index(self@, opt_str_view(prefix)),
            r matches Some(i) ==> i < self@.len(),
    {
        let ghost p = opt_str_view(prefix);
        proof {
            lemma_prefix_index(self@, p, 0);
        }
        let mut i: usize = 0;
        while i < self.bindings.len()
            invariant
                i <= self.bindings@.len(),
                self@.len() == self.bindings@.len(),
                self@ == self.bindings@.map_values(|b: (Option<String>, String)| binding_view(b)),
                p == opt_str_view(prefix),
                prefix_index(self@, p) == prefix_index_from(self@, p, i as int),
            decreases self.bindings.len() - i,
        {
            let bound = match &self.bindings[i].0 {
                Some(s) => Some(s.as_str()),
                None => None,
            };
            assert(opt_str_view(bound) == self@[i as int].0);
            if opt_str_eq(bound, prefix) {
                return Some(i);
            }

            i = i + 1;
        }
        None
    }

    /// Bind `prefix` (`None`: the default namespace) to `uri`, replacing an
    /// earlier binding of the same prefix.
    pub fn declare(&mut self, prefix: Option<&str>, uri: &str)
        ensures
            final(self)@ == declared(old(self)@, opt_str_view(prefix), uri@),
    {
        proof {
            use_type_invariant(&*self);
            lemma_declared_unique(self@, opt_str_view(prefix), uri@);
        }
        let binding = (
            match prefix {
                Some(p) => Some(owned(p)),
                None => None,
            },
            owned(uri),
        );
        let ghost old_view = self@;
        let mut bindings: Vec<(Option<String>, String)> = Vec::new();
        std::mem::swap(&mut bindings, &mut self.bindings);
        assert(bindings@.map_values(|b: (Option<String>, String)| binding_view(b)) == old_view);
        match Self::find_in(&bindings, prefix) {
            Some(i) => {
                bindings.set(i, binding);
            },
            None => {
                bindings.push(binding);
            },
        }
        assert(bindings@.map_values(|b: (Option<String>, String)| binding_view(b)) =~= declared(
            old_view,
            opt_str_view(prefix),
            uri@,
        ));
        self.bindings = bindings;
    }

    /// [`Self::find`] over bindings taken out of a context.
    fn find_in(bindings: &Vec<(Option<String>, String)>, prefix: Option<&str>) -> (r: Option<usize>)
        ensures
            opt_int(r) == prefix_index(
                bindings@.map_values(|b: (Option<String>, String)| binding_view(b)),
                opt_str_view(prefix),
            ),
            r matches Some(i) ==> i < bindings@.len(),
    {
        let ghost bs = bindings@.map_values(|b: (Option<String>, String)| binding_view(b));
        let ghost p = opt_str_view(prefix);
        proof {
            lemma_prefix_index(bs, p, 0);
        }
        let mut i: usize = 0;
        while i < bindings.len()
            invariant
                i <= bindings@.len(),
                bs == bindings@.map_values(|b: (Option<String>, String)| binding_view(b)),
                p == opt_str_view(prefix),
                prefix_index(bs, p) == prefix_index_from(bs, p, i as int),
            decreases bindings.len() - i,
        {
            let bound = match &bindings[i].0 {
                Some(s) => Some(s.as_str()),
                None => None,
            };
            assert(opt_str_view(bound) == bs[i as int].0);
            if opt_str_eq(bound, prefix) {
                return Some(i);
            }
            i = i + 1;
        }
        None
    }

    pub fn resolve_prefix(&self, prefix: Option<&str>) -> (r: Option<&str>)
        ensures
            opt_str_view(r) == resolved(self@, opt_str_view(prefix)),
    {
        match self.find(prefix) {
            Some(i) => {
                let uri = self.bindings[i].1.as_str();
                assert(uri@ == self@[i as int].1);
                // `xmlns=""` undeclares the default namespace.
                if uri.is_empty() && prefix.is_none() {
                    None
                } else {
                    Some(uri)
                }
            },
            None => None,
        }
    }
}

impl NamespaceContext {
    /// Resolve a prefixed name such as `gml:Point` into a [`QName`].
    ///
    /// An unprefixed name takes the default namespace, or none if there is no
    /// default. An undeclared prefix gives `None`.
    pub fn resolve(&self, prefixed: &str) -> (r: Option<QName>)
        ensures
            opt_qname_view(r) == resolved_name(self@, prefixed@),
    {
        let chars = chars_of(prefixed);
        match index_of(chars.as_slice(), ':') {
            Some(k) => {
                let prefix = string_from(chars.as_slice(), 0, k);
                assert(k < chars.len());
                let local = string_from(chars.as_slice(), k + 1, chars.len());
                match self.resolve_prefix(Some(prefix.as_str())) {
                    Some(uri) => Some(QName::new(Some(uri), local.as_str())),
                    None => None,
                }
            },
            None => {
                let uri = self.resolve_prefix(None);
                Some(QName::new(uri, prefixed))
            },
        }
    }

    /// The bindings as `(prefix, uri)`, in declaration order.
    pub fn iter(&self) -> (r: Vec<(Option<&str>, &str)>)
        ensures
            r@.len() == self@.len(),
            forall|i: int| 0 <= i < r@.len() ==> (opt_str_view(#[trigger] r@[i].0), r@[i].1@) == self@[i],
    {
        let mut out: Vec<(Option<&str>, &str)> = Vec::new();
        let mut i: usize = 0;
        while i < self.bindings.len()
            invariant
                i <= self.bindings@.len(),
                self@ == self.bindings@.map_values(|b: (Option<String>, String)| binding_view(b)),
                out@.len() == i,
                forall|j: int| 0 <= j < i ==> (opt_str_view(#[trigger] out@[j].0), out@[j].1@) == self@[j],
            decreases self.bindings.len() - i,
        {
            let (prefix, uri) = &self.bindings[i];
            let prefix = match prefix {
                Some(p) => Some(p.as_str()),
                None => None,
            };
            out.push((prefix, uri.as_str()));
            i = i + 1;
        }
        out
    }

    pub fn is_empty(&self) -> (r: bool)
        ensures
            r == (self@.len() == 0),
    {
        self.bindings.len() == 0
    }

    /// `true` if some prefix (or the default namespace) is bound to `uri`.
    pub fn declares_uri(&self, uri: &str) -> (r: bool)
        ensures
            r == declares(self@, uri@),
    {
        let mut i: usize = 0;
        while i < self.bindings.len()
            invariant
                i <= self.bindings@.len(),
                self@ == self.bindings@.map_values(|b: (Option<String>, String)| binding_view(b)),
                forall|j: int| 0 <= j < i ==> self@[j].1 != uri@,
            decreases self.bindings.len() - i,
        {
            if str_eq(self.bindings[i].1.as_str(), uri) {
                assert(self@[i as int].1 == uri@);
                return true;
            }
            i = i + 1;
        }
        false
    }

    /// Serialize as `xmlns` attributes, to prepend to a standalone chunk.
    ///
    /// Each attribute is preceded by a space (`' xmlns:gml="…"'`), so the
    /// result can be inserted right after an element name. Empty if nothing is
    /// declared.
    pub fn to_xmlns_attributes(&self) -> (r: String)
        ensures
            r@ == xmlns_attributes(self@),
    {
        let mut out = String::new();
        let mut i: usize = 0;
        while i < self.bindings.len()
            invariant
                i <= self.bindings@.len(),
                self@ == self.bindings@.map_values(|b: (Option<String>, String)| binding_view(b)),
                out@ == xmlns_attributes(self@.subrange(0, i as int)),
            decreases self.bindings.len() - i,
        {
            let ghost before = out@;
            let (prefix, uri) = &self.bindings[i];
            match prefix {
                Some(prefix) => {
                    append(&mut out, " xmlns:");
                    append(&mut out, prefix.as_str());
                },
                None => append(&mut out, " xmlns"),
            }
            append(&mut out, "=\"");
            let ghost opened = out@;
            let chars = chars_of(uri.as_str());
            let mut k: usize = 0;
            while k < chars.len()
                invariant
                    k <= chars@.len(),
                    out@ == opened + escaped_value(chars@.subrange(0, k as int)),
                decreases chars.len() - k,
            {
                let c = chars[k];
                if c == '&' {
                    append(&mut out, "&amp;");
                } else if c == '<' {
                    append(&mut out, "&lt;");
                } else if c == '"' {
                    append(&mut out, "&quot;");
                } else {
                    push_char(&mut out, c);
                }
                assert(chars@.subrange(0, k + 1).drop_last() == chars@.subrange(0, k as int));
                k = k + 1;
            }
            assert(chars@.subrange(0, chars@.len() as int) == chars@);
            append(&mut out, "\"");
            assert(self@.subrange(0, i + 1).drop_last() == self@.subrange(0, i as int));
            assert(out@ == before + xmlns_attribute(self@[i as int]));
            i = i + 1;
        }
        assert(self@.subrange(0, self@.len() as int) == self@);
        out
    }

    /// A copy with the same bindings.
    pub fn duplicate(&self) -> (r: NamespaceContext)
        ensures
            r@ == self@,
    {
        proof {
            use_type_invariant(self);
        }
        let mut bindings: Vec<(Option<String>, String)> = Vec::new();
        let mut i: usize = 0;
        while i < self.bindings.len()
            invariant
                i <= self.bindings@.len(),
                self@ == self.bindings@.map_values(|b: (Option<String>, String)| binding_view(b)),
                bindings@.len() == i,
                forall|j: int| 0 <= j < i ==> binding_view(#[trigger] bindings@[j]) == self@[j],
            decreases self.bindings.len() - i,
        {
            let (prefix, uri) = &self.bindings[i];
            let prefix = match prefix {
                Some(p) => Some(owned(p.as_str())),
                None => None,
            };
            let entry = (prefix, owned(uri.as_str()));
            assert(binding_view(entry) == self@[i as int]);
            bindings.push(entry);
            i = i + 1;
        }
        assert(bindings@.map_values(|b: (Option<String>, String)| binding_view(b)) =~= self@);
        NamespaceContext { bindings }
    }

    /// `true` if both contexts hold the same bindings in the same order.
    pub fn same_as(&self, other: &NamespaceContext) -> (r: bool)
        ensures
            r == (self@ == other@),
    {
        if self.bindings.len() != other.bindings.len() {
            return false;
        }
        let mut i: usize = 0;
        while i < self.bindings.len()
            invariant
                i <= self.bindings@.len() == other.bindings@.len(),
                self@ == self.bindings@.map_values(|b: (Option<String>, String)| binding_view(b)),
                other@ == other.bindings@.map_values(|b: (Option<String>, String)| binding_view(b)),
                forall|j: int| 0 <= j < i ==> self@[j] == other@[j],
            decreases self.bindings.len() - i,
        {
            let (p1, u1) = &self.bindings[i];
            let (p2, u2) = &other.bindings[i];
            let p1 = match p1 {
                Some(p) => Some(p.as_str()),
                None => None,
            };
            let p2 = match p2 {
                Some(p) => Some(p.as_str()),
                None => None,
            };
            if !opt_str_eq(p1, p2) || !str_eq(u1.as_str(), u2.as_str()) {
                assert(self@[i as int] != other@[i as int]);
                return false;
            }
            i = i + 1;
        }
        assert(self@ =~= other@);
        true
    }
}

impl PartialEq for NamespaceContext {
    fn eq(&self, other: &Self) -> (r: bool) {
        self.same_as(other)
    }
}

impl vstd::std_specs::cmp::PartialEqSpecImpl for NamespaceContext {
    open spec fn obeys_eq_spec() -> bool {
        true
    }

    open spec fn eq_spec(&self, other: &Self) -> bool {
        self@ == other@
    }
}

impl Eq for NamespaceContext {
}

impl Default for NamespaceContext {
    fn default() -> (r: NamespaceContext)
        ensures
            r@ == Seq::<BindingView>::empty(),
    {
        NamespaceContext::new()
    }
}

/// The view of an optional name.
pub open spec fn opt_qname_view(q: Option<QName>) -> Option<(Option<Seq<char>>, Seq<char>)> {
    match q {
        Some(n) => Some(n@),
        None => None,
    }
}

} // verus!
