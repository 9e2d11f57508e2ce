//! Qualified names: a namespace URI and a local name, never a prefix.

use vstd::prelude::*;

use crate::ns;
use crate::text::{opt_str_view, opt_string_view, owned, push_char, append, str_eq};

verus! {

/// Namespace URI + local name. Never the prefix: prefixes differ between
/// files and WFS pages.
#[derive(Debug, Clone, Hash)]
pub struct QName {
    pub ns: Option<String>,
    pub local: String,
}

impl View for QName {
    type V = (Option<Seq<char>>, Seq<char>);

    open spec fn view(&self) -> (Option<Seq<char>>, Seq<char>) {
        (opt_string_view(self.ns), self.local@)
    }
}

impl PartialEq for QName {
    fn eq(&self, other: &Self) -> (r: bool) {
        let same_ns = match (&self.ns, &other.ns) {
            (Some(a), Some(b)) => str_eq(a.as_str(), b.as_str()),
            (None, None) => true,
            _ => false,
        };
        same_ns && str_eq(self.local.as_str(), other.local.as_str())
    }
}

impl vstd::std_specs::cmp::PartialEqSpecImpl for QName {
    open spec fn obeys_eq_spec() -> bool {
        true
    }

    open spec fn eq_spec(&self, other: &Self) -> bool {
        self@ == other@
    }
}

impl Eq for QName {
}

/// `true` if `uri` is one of the GML namespaces (2/3.1 or 3.2).
pub open spec fn is_gml_namespace(uri: Option<Seq<char>>) -> bool {
    uri == Some(ns::GML@) || uri == Some(ns::GML_32@)
}

/// Clark notation: `{uri}local`, or `local` for a name in no namespace.
pub open spec fn clark(name: (Option<Seq<char>>, Seq<char>)) -> Seq<char> {
    match name.0 {
        Some(uri) => seq!['{'] + uri + seq!['}'] + name.1,
        None => name.1,
    }
}

impl QName {
    pub fn new(ns: Option<&str>, local: &str) -> (r: QName)
        ensures
            r@ == (opt_str_view(ns), local@),
    {
        QName {
            ns: match ns {
                Some(uri) => Some(owned(uri)),
                None => None,
            },
            local: owned(local),
        }
    }

    /// A copy with the same view.
    pub fn duplicate(&self) -> (r: QName)
        ensures
            r@ == self@,
    {
        QName {
            ns: match &self.ns {
                Some(uri) => Some(owned(uri.as_str())),
                None => None,
            },
            local: owned(self.local.as_str()),
        }
    }

    /// The namespace as a `str`.
    pub fn ns_str(&self) -> (r: Option<&str>)
        ensures
            opt_str_view(r) == self@.0,
    {
        match &self.ns {
            Some(uri) => Some(uri.as_str()),
            None => None,
        }
    }

    /// `true` if this element is in one of the GML namespaces (2/3.1 or 3.2).
    pub fn is_gml(&self) -> (r: bool)
        ensures
            r == is_gml_namespace(self@.0),
    {
        match &self.ns {
            Some(uri) => str_eq(uri.as_str(), ns::GML) || str_eq(uri.as_str(), ns::GML_32),
            None => false,
        }
    }

    /// `true` if this is `local` in one of the GML namespaces.
    pub fn is_gml_named(&self, local: &str) -> (r: bool)
        ensures
            r == (is_gml_namespace(self@.0) && self@.1 == local@),
    {
        self.is_gml() && str_eq(self.local.as_str(), local)
    }

    /// Clark notation: `{uri}local`.
    pub fn to_clark(&self) -> (r: String)
        ensures
            r@ == clark(self@),
    {
        match &self.ns {
            Some(uri) => {
                let mut out = String::new();
                push_char(&mut out, '{');
                append(&mut out, uri.as_str());
                push_char(&mut out, '}');
                append(&mut out, self.local.as_str());
                assert(out@ == seq!['{'] + uri@ + seq!['}'] + self.local@);
                out
            },
            None => owned(self.local.as_str()),
        }
    }
}

} // verus!
