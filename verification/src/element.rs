//! The start tag of an element that route nodes match: the anchors among
//! the nodes are counted, `xsi:nil` is read, and each attribute that a node
//! routes goes to its targets.

use vstd::prelude::*;

use crate::ns;
use crate::reader::Attributes;
use crate::route::{RouteNode, attribute_steps, selected_indices};
use crate::text::{chars_of, opt_string_view, owned, str_eq, string_from, string_of};
use crate::version::{trim, trimmed};

verus! {

/// The node's anchor is counter `a`.
pub open spec fn anchors(anchor: Option<usize>, a: int) -> bool {
    match anchor {
        Some(x) => x as int == a,
        None => false,
    }
}

/// How many of `nodes` anchor the lists counted by counter `a`.
pub open spec fn anchor_hits<T>(nodes: Seq<&RouteNode<T>>, a: int) -> int
    decreases nodes.len(),
{
    if nodes.len() == 0 {
        0
    } else {
        anchor_hits(nodes.drop_last(), a) + if anchors(nodes.last().anchor, a) {
            1int
        } else {
            0int
        }
    }
}

/// The targets that `nodes` give the attribute `(ns, local)`, node by node.
pub open spec fn targets_among<T>(nodes: Seq<&RouteNode<T>>, ns: Option<Seq<char>>, local: Seq<char>) -> Seq<T>
    decreases nodes.len(),
{
    if nodes.len() == 0 {
        Seq::empty()
    } else {
        let n = nodes.last();
        targets_among(nodes.drop_last(), ns, local) + selected_indices(
            attribute_steps(n.attributes@),
            ns,
            local,
            n.attributes@.len() as int,
            false,
        ).map_values(|i: usize| n.attributes@[i as int].1)
    }
}

/// What an attribute puts: its value trimmed, and for `xlink:href` without
/// the leading `#` of a local reference when `strip_hash`.
pub open spec fn put_text_of(a: (Option<Seq<char>>, Seq<char>, Seq<char>), strip_hash: bool) -> Seq<char> {
    let v = trimmed(a.2);
    if strip_hash && a.0 == Some(ns::XLINK@) && a.1 == "href"@ && v.len() > 0 && v[0] == '#' {
        v.drop_first()
    } else {
        v
    }
}

/// `xsi:nil` among the attributes: the last one decides, `true` or `1`.
pub open spec fn nil_of(attrs: Seq<(Option<Seq<char>>, Seq<char>, Seq<char>)>) -> bool
    decreases attrs.len(),
{
    if attrs.len() == 0 {
        false
    } else {
        let a = attrs.last();
        if a.0 == Some(ns::XSI@) && a.1 == "nil"@ {
            trimmed(a.2) == "true"@ || trimmed(a.2) == "1"@
        } else {
            nil_of(attrs.drop_last())
        }
    }
}

/// The `(target, text)` pairs the attributes give, in order; those in the
/// `xsi` namespace give none.
pub open spec fn attribute_puts<T>(
    nodes: Seq<&RouteNode<T>>,
    attrs: Seq<(Option<Seq<char>>, Seq<char>, Seq<char>)>,
    strip_hash: bool,
) -> Seq<(T, Seq<char>)>
    decreases attrs.len(),
{
    if attrs.len() == 0 {
        Seq::empty()
    } else {
        let a = attrs.last();
        let rest = attribute_puts(nodes, attrs.drop_last(), strip_hash);
        if a.0 == Some(ns::XSI@) {
            rest
        } else {
            let v = put_text_of(a, strip_hash);
            rest + targets_among(nodes, a.0, a.1).map_values(|t: T| (t, v))
        }
    }
}

/// The view of the pairs.
pub open spec fn puts_view<T>(ps: Seq<(T, String)>) -> Seq<(T, Seq<char>)> {
    ps.map_values(|p: (T, String)| (p.0, p.1@))
}

proof fn lemma_hits_step<T>(nodes: Seq<&RouteNode<T>>, i: int, a: int)
    requires
        0 <= i < nodes.len(),
    ensures
        anchor_hits(nodes.take(i + 1), a) == anchor_hits(nodes.take(i), a) + if anchors(nodes[i].anchor, a) {
            1int
        } else {
            0int
        },
{
    assert(nodes.take(i + 1).drop_last() =~= nodes.take(i));
}

proof fn lemma_hits_grow<T>(nodes: Seq<&RouteNode<T>>, i: int, a: int)
    requires
        0 <= i <= nodes.len(),
    ensures
        0 <= anchor_hits(nodes.take(i), a) <= anchor_hits(nodes, a),
    decreases nodes.len() - i,
{
    if i < nodes.len() {
        lemma_hits_step(nodes, i, a);
        lemma_hits_grow(nodes, i + 1, a);
        lemma_hits_nonneg(nodes.take(i), a);
    } else {
        assert(nodes.take(i) =~= nodes);
        lemma_hits_nonneg(nodes, a);
    }
}

proof fn lemma_hits_nonneg<T>(nodes: Seq<&RouteNode<T>>, a: int)
    ensures
        anchor_hits(nodes, a) >= 0,
    decreases nodes.len(),
{
    if nodes.len() > 0 {
        lemma_hits_nonneg(nodes.drop_last(), a);
    }
}

proof fn lemma_puts_push<T>(ps: Seq<(T, String)>, p: (T, String))
    ensures
        puts_view(ps.push(p)) == puts_view(ps).push((p.0, p.1@)),
{
    assert(puts_view(ps.push(p)) =~= puts_view(ps).push((p.0, p.1@)));
}

/// The attribute's text to put.
fn put_text(a: &(Option<String>, String, String), strip_hash: bool) -> (r: String)
    ensures
        r@ == put_text_of((opt_string_view(a.0), a.1@, a.2@), strip_hash),
{
    let chars = chars_of(a.2.as_str());
    let v = trim(&chars);
    let xlink = match &a.0 {
        Some(uri) => str_eq(uri.as_str(), ns::XLINK),
        None => false,
    };
    if strip_hash && xlink && str_eq(a.1.as_str(), "href") && v.len() > 0 && v[0] == '#' {
        let r = string_from(&v, 1, v.len());
        assert(v@.subrange(1, v@.len() as int) =~= v@.drop_first());
        r
    } else {
        string_of(&v)
    }
}

/// The start tag of an element that `nodes` match: count the anchors among
/// them, and give each attribute that they route its targets, with its
/// text. Returns whether the element is `xsi:nil`, and the pairs.
pub fn start_element<T: Copy>(
    nodes: &Vec<&RouteNode<T>>,
    attrs: &Attributes,
    counts: &mut Vec<u32>,
    strip_hash: bool,
) -> (r: (bool, Vec<(T, String)>))
    requires
        forall|i: int| 0 <= i < nodes@.len() ==> ((#[trigger] nodes@[i]).anchor matches Some(a) ==> a < old(counts)@.len()),
        forall|a: int| 0 <= a < old(counts)@.len() ==> old(counts)@[a] + anchor_hits(nodes@, a) <= u32::MAX,
    ensures
        final(counts)@.len() == old(counts)@.len(),
        forall|a: int| 0 <= a < old(counts)@.len() ==> #[trigger] final(counts)@[a] == old(counts)@[a] + anchor_hits(nodes@, a),
        r.0 == nil_of(attrs@),
        puts_view(r.1@) == attribute_puts(nodes@, attrs@, strip_hash),
{
    let ghost start = counts@;
    let mut i: usize = 0;
    while i < nodes.len()
        invariant
            i <= nodes@.len(),
            counts@.len() == start.len(),
            forall|j: int| 0 <= j < nodes@.len() ==> ((#[trigger] nodes@[j]).anchor matches Some(a) ==> a < start.len()),
            forall|a: int| 0 <= a < start.len() ==> start[a] + anchor_hits(nodes@, a) <= u32::MAX,
            forall|a: int| 0 <= a < start.len() ==> #[trigger] counts@[a] == start[a] + anchor_hits(nodes@.take(i as int), a),
        decreases nodes.len() - i,
    {
        let ghost before = counts@;
        let anchor = nodes[i].anchor;
        if let Some(a) = anchor {
            proof {
                lemma_hits_step(nodes@, i as int, a as int);
                lemma_hits_grow(nodes@, i + 1, a as int);
            }
            let c = counts[a];
            counts.set(a, c + 1);
            assert(counts@ == before.update(a as int, (before[a as int] + 1) as u32));
        } else {
            assert(counts@ == before);
        }
        proof {
            assert forall|b: int| 0 <= b < start.len() implies #[trigger] counts@[b] == start[b] + anchor_hits(
                nodes@.take(i + 1),
                b,
            ) by {
                lemma_hits_step(nodes@, i as int, b);
                assert(before[b] == start[b] + anchor_hits(nodes@.take(i as int), b));
                if anchors(anchor, b) {
                    assert(counts@[b] == before[b] + 1);
                } else {
                    assert(counts@[b] == before[b]);
                }
            }
        }
        i = i + 1;
    }
    assert(nodes@.take(i as int) =~= nodes@);
    let raw = attrs.iter_raw();
    let mut nil = false;
    let mut puts: Vec<(T, String)> = Vec::new();
    let mut k: usize = 0;
    while k < raw.len()
        invariant
            k <= raw@.len(),
            raw@.len() == attrs@.len(),
            forall|q: int| 0 <= q < raw@.len() ==> (opt_string_view((#[trigger] raw@[q]).0), raw@[q].1@, raw@[q].2@)
                == attrs@[q],
            nil == nil_of(attrs@.take(k as int)),
            puts_view(puts@) == attribute_puts(nodes@, attrs@.take(k as int), strip_hash),
        decreases raw.len() - k,
    {
        let a = &raw[k];
        let ghost av = attrs@[k as int];
        assert(attrs@.take(k + 1).drop_last() =~= attrs@.take(k as int));
        assert(attrs@.take(k + 1).last() == av);
        let in_xsi = match &a.0 {
            Some(uri) => str_eq(uri.as_str(), ns::XSI),
            None => false,
        };
        if in_xsi {
            if str_eq(a.1.as_str(), "nil") {
                let v = trim(&chars_of(a.2.as_str()));
                let t = string_of(&v);
                nil = str_eq(t.as_str(), "true") || str_eq(t.as_str(), "1");
            }
        } else {
            let ns_name = match &a.0 {
                Some(uri) => Some(uri.as_str()),
                None => None,
            };
            let mut targets: Vec<T> = Vec::new();
            let mut j: usize = 0;
            while j < nodes.len()
                invariant
                    j <= nodes@.len(),
                    opt_string_view(a.0) == av.0,
                    a.1@ == av.1,
                    crate::text::opt_str_view(ns_name) == av.0,
                    targets@ == targets_among(nodes@.take(j as int), av.0, av.1),
                decreases nodes.len() - j,
            {
                nodes[j].attribute_targets(ns_name, a.1.as_str(), &mut targets);
                assert(nodes@.take(j + 1).drop_last() =~= nodes@.take(j as int));
                j = j + 1;
            }
            assert(nodes@.take(j as int) =~= nodes@);
            let v = put_text(a, strip_hash);
            let ghost prev = puts_view(puts@);
            let mut m: usize = 0;
            while m < targets.len()
                invariant
                    m <= targets@.len(),
                    puts_view(puts@) == prev + targets@.take(m as int).map_values(|t: T| (t, v@)),
                decreases targets.len() - m,
            {
                let t = targets[m];
                let o = owned(v.as_str());
                proof {
                    lemma_puts_push(puts@, (t, o));
                }
                puts.push((t, o));
                assert(targets@.take(m + 1).map_values(|t: T| (t, v@)) =~= targets@.take(m as int).map_values(
                    |t: T| (t, v@),
                ).push((t, v@)));
                m = m + 1;
            }
            assert(targets@.take(m as int) =~= targets@);
        }
        k = k + 1;
    }
    assert(attrs@.take(k as int) =~= attrs@);
    (nil, puts)
}

} // verus!
