//! Path steps of a read's route tree, and how element and attribute names
//! select among them.

use vstd::prelude::*;

use crate::QName;
use crate::text::{opt_str_view, str_eq};

verus! {

/// One step of the tree.
#[derive(Debug, Clone)]
pub enum Step {
    /// `*`: any element.
    Any,
    /// A local name; `ns: None` matches it in any namespace.
    Name { ns: Option<String>, local: String },
}

/// The step as a value: `None` for `*`, else the name.
pub open spec fn step_view(s: Step) -> Option<(Option<Seq<char>>, Seq<char>)> {
    match s {
        Step::Any => None,
        Step::Name { ns, local } => Some(
            (
                match ns {
                    Some(u) => Some(u@),
                    None => None,
                },
                local@,
            ),
        ),
    }
}

/// The step names exactly this namespace and local name.
pub open spec fn exact_step(s: Step, ns: Option<Seq<char>>, local: Seq<char>) -> bool {
    match step_view(s) {
        Some((Some(uri), l)) => ns == Some(uri) && l == local,
        _ => false,
    }
}

/// The step names this local name in any namespace.
pub open spec fn any_namespace_step(s: Step, local: Seq<char>) -> bool {
    match step_view(s) {
        Some((None, l)) => l == local,
        _ => false,
    }
}

/// Some step of `steps` names exactly this namespace and local name.
pub open spec fn has_exact(steps: Seq<Step>, ns: Option<Seq<char>>, local: Seq<char>) -> bool {
    exists|j: int| 0 <= j < steps.len() && exact_step(#[trigger] steps[j], ns, local)
}

/// A step matches a name: `*` (for an element), the exact namespace, or an
/// unprefixed step unless a sibling names this exact namespace (the more
/// specific step wins).
pub open spec fn step_selected(s: Step, ns: Option<Seq<char>>, local: Seq<char>, exact: bool, element: bool) -> bool {
    (element && s is Any) || exact_step(s, ns, local) || (!exact && any_namespace_step(s, local))
}

/// The indices among the first `n` steps that a name selects, in order; an
/// element's name, or else an attribute's.
pub open spec fn selected_indices(steps: Seq<Step>, ns: Option<Seq<char>>, local: Seq<char>, n: int, element: bool) -> Seq<usize>
    decreases n,
{
    if n <= 0 {
        Seq::empty()
    } else {
        let before = selected_indices(steps, ns, local, n - 1, element);
        if step_selected(steps[n - 1], ns, local, has_exact(steps, ns, local), element) {
            before.push((n - 1) as usize)
        } else {
            before
        }
    }
}

impl Step {
    /// The step for a name of a schema path: `*` without a namespace is any element.
    pub fn of(name: &QName) -> (r: Step)
        ensures
            step_view(r) == if name@.0 is None && name@.1 == "*"@ {
                None
            } else {
                Some(name@)
            },
    {
        if name.ns.is_none() && str_eq(name.local.as_str(), "*") {
            Step::Any
        } else {
            let d = name.duplicate();
            Step::Name { ns: d.ns, local: d.local }
        }
    }

    /// Exactly this namespace and local name.
    pub fn is_exact(&self, ns: Option<&str>, local: &str) -> (r: bool)
        ensures
            r == exact_step(*self, opt_str_view(ns), local@),
    {
        match self {
            Step::Name { ns: Some(uri), local: l } => match ns {
                Some(n) => str_eq(uri.as_str(), n) && str_eq(l.as_str(), local),
                None => false,
            },
            _ => false,
        }
    }

    /// The local name in any namespace.
    pub fn is_any_namespace(&self, local: &str) -> (r: bool)
        ensures
            r == any_namespace_step(*self, local@),
    {
        match self {
            Step::Name { ns: None, local: l } => str_eq(l.as_str(), local),
            _ => false,
        }
    }
}

/// The index of the first step equal to `step`, or the number of steps.
pub open spec fn first_step_index(steps: Seq<Step>, step: Option<(Option<Seq<char>>, Seq<char>)>) -> int
    decreases steps.len(),
{
    if steps.len() == 0 {
        0
    } else if step_view(steps.last()) == step && first_step_index(steps.drop_last(), step) == steps.len() - 1 {
        steps.len() - 1
    } else if first_step_index(steps.drop_last(), step) < steps.len() - 1 {
        first_step_index(steps.drop_last(), step)
    } else {
        steps.len() as int
    }
}

proof fn lemma_first_step_index(steps: Seq<Step>, step: Option<(Option<Seq<char>>, Seq<char>)>, i: int)
    requires
        0 <= i <= steps.len(),
        forall|j: int| 0 <= j < i ==> step_view(#[trigger] steps[j]) != step,
        i < steps.len() ==> step_view(steps[i]) == step,
    ensures
        first_step_index(steps, step) == i,
    decreases steps.len(),
{
    if steps.len() > 0 {
        if i < steps.len() {
            if i < steps.len() - 1 {
                lemma_first_step_index(steps.drop_last(), step, i);
            } else {
                lemma_first_step_index(steps.drop_last(), step, i);
            }
        } else {
            lemma_first_step_index(steps.drop_last(), step, steps.len() - 1);
        }
    }
}

/// `true` if the two steps are the same step.
pub fn same_step(a: &Step, b: &Step) -> (r: bool)
    ensures
        r == (step_view(*a) == step_view(*b)),
{
    match (a, b) {
        (Step::Any, Step::Any) => true,
        (Step::Name { ns: na, local: la }, Step::Name { ns: nb, local: lb }) => {
            let same_ns = match (na, nb) {
                (Some(x), Some(y)) => str_eq(x.as_str(), y.as_str()),
                (None, None) => true,
                _ => false,
            };
            same_ns && str_eq(la.as_str(), lb.as_str())
        },
        _ => false,
    }
}

/// One node of the tree: an element some path leads to or through. `T` is
/// what a node fills: an output column, and which part of it.
#[derive(Debug)]
pub struct RouteNode<T> {
    pub step: Step,
    pub children: Vec<RouteNode<T>>,
    pub attributes: Vec<(Step, T)>,
    /// Columns that take the element itself (text, geometry, map, box).
    pub targets: Vec<T>,
    /// The counter of the lists anchored on this element.
    pub anchor: Option<usize>,
}

/// The steps of a node's children.
pub open spec fn child_steps<T>(children: Seq<RouteNode<T>>) -> Seq<Step> {
    children.map_values(|c: RouteNode<T>| c.step)
}

/// The steps of a node's attributes.
pub open spec fn attribute_steps<T>(attributes: Seq<(Step, T)>) -> Seq<Step> {
    attributes.map_values(|a: (Step, T)| a.0)
}

impl<T: Copy> RouteNode<T> {
    pub fn new(step: Step) -> (r: RouteNode<T>)
        ensures
            r.step == step,
            r.children@.len() == 0,
            r.attributes@.len() == 0,
            r.targets@.len() == 0,
            r.anchor is None,
    {
        RouteNode { step, children: Vec::new(), attributes: Vec::new(), targets: Vec::new(), anchor: None }
    }

    /// Add the children that match element `name` to `out`: `*`, the exact
    /// namespace, and an unprefixed step unless a sibling names this exact
    /// namespace (the more specific step wins).
    pub fn matching_children<'n>(&'n self, name: &QName, out: &mut Vec<&'n RouteNode<T>>)
        ensures
            final(out)@ == old(out)@ + selected_indices(
                child_steps(self.children@),
                name@.0,
                name@.1,
                self.children@.len() as int,
                true,
            ).map_values(|i: usize| &self.children@[i as int]),
    {
        let ghost steps = child_steps(self.children@);
        let ns = name.ns_str();
        let local = name.local.as_str();
        let mut exact = false;
        let mut i: usize = 0;
        while i < self.children.len()
            invariant
                i <= self.children@.len(),
                steps == child_steps(self.children@),
                opt_str_view(ns) == name@.0,
                local@ == name@.1,
                exact == exists|j: int| 0 <= j < i && exact_step(#[trigger] steps[j], name@.0, name@.1),
            decreases self.children.len() - i,
        {
            let hit = self.children[i].step.is_exact(ns, local);
            assert(steps[i as int] == self.children@[i as int].step);
            if hit {
                exact = true;
            }
            assert(exact == exists|j: int| 0 <= j < i + 1 && exact_step(#[trigger] steps[j], name@.0, name@.1)) by {
                if hit {
                    assert(exact_step(steps[i as int], name@.0, name@.1));
                }
            }
            i = i + 1;
        }
        assert(exact == has_exact(steps, name@.0, name@.1));
        let ghost start = out@;
        let mut k: usize = 0;
        while k < self.children.len()
            invariant
                k <= self.children@.len(),
                steps == child_steps(self.children@),
                opt_str_view(ns) == name@.0,
                local@ == name@.1,
                exact == has_exact(steps, name@.0, name@.1),
                out@ == start + selected_indices(steps, name@.0, name@.1, k as int, true).map_values(
                    |i: usize| &self.children@[i as int],
                ),
            decreases self.children.len() - k,
        {
            let child = &self.children[k];
            assert(steps[k as int] == child.step);
            let selected = match &child.step {
                Step::Any => true,
                step => step.is_exact(ns, local) || (!exact && step.is_any_namespace(local)),
            };
            assert(selected == step_selected(steps[k as int], name@.0, name@.1, exact, true));
            let ghost before = selected_indices(steps, name@.0, name@.1, k as int, true);
            if selected {
                out.push(child);
            }
            proof {
                let after = selected_indices(steps, name@.0, name@.1, k + 1, true);
                if selected {
                    assert(after == before.push(k));
                    assert(after.map_values(|i: usize| &self.children@[i as int]) =~= before.map_values(
                        |i: usize| &self.children@[i as int],
                    ).push(&self.children@[k as int]));
                } else {
                    assert(after == before);
                }
            }
            k = k + 1;
        }
    }

    /// Add the targets of attribute `(ns, local)` to `out`, matched like
    /// elements (but no `*`).
    pub fn attribute_targets(&self, ns: Option<&str>, local: &str, out: &mut Vec<T>)
        ensures
            final(out)@ == old(out)@ + selected_indices(
                attribute_steps(self.attributes@),
                opt_str_view(ns),
                local@,
                self.attributes@.len() as int,
                false,
            ).map_values(|i: usize| self.attributes@[i as int].1),
    {
        let ghost steps = attribute_steps(self.attributes@);
        let ghost nsv = opt_str_view(ns);
        let mut exact = false;
        let mut i: usize = 0;
        while i < self.attributes.len()
            invariant
                i <= self.attributes@.len(),
                steps == attribute_steps(self.attributes@),
                nsv == opt_str_view(ns),
                exact == exists|j: int| 0 <= j < i && exact_step(#[trigger] steps[j], nsv, local@),
            decreases self.attributes.len() - i,
        {
            let hit = self.attributes[i].0.is_exact(ns, local);
            assert(steps[i as int] == self.attributes@[i as int].0);
            if hit {
                exact = true;
            }
            assert(exact == exists|j: int| 0 <= j < i + 1 && exact_step(#[trigger] steps[j], nsv, local@)) by {
                if hit {
                    assert(exact_step(steps[i as int], nsv, local@));
                }
            }
            i = i + 1;
        }
        assert(exact == has_exact(steps, nsv, local@));
        let ghost start = out@;
        let mut k: usize = 0;
        while k < self.attributes.len()
            invariant
                k <= self.attributes@.len(),
                steps == attribute_steps(self.attributes@),
                nsv == opt_str_view(ns),
                exact == has_exact(steps, nsv, local@),
                out@ == start + selected_indices(steps, nsv, local@, k as int, false).map_values(
                    |i: usize| self.attributes@[i as int].1,
                ),
            decreases self.attributes.len() - k,
        {
            let step = &self.attributes[k].0;
            assert(steps[k as int] == *step);
            let selected = step.is_exact(ns, local) || (!exact && step.is_any_namespace(local));
            assert(selected == step_selected(steps[k as int], nsv, local@, exact, false));
            let ghost before = selected_indices(steps, nsv, local@, k as int, false);
            if selected {
                out.push(self.attributes[k].1);
            }
            proof {
                let after = selected_indices(steps, nsv, local@, k + 1, false);
                if selected {
                    assert(after == before.push(k));
                    assert(after.map_values(|i: usize| self.attributes@[i as int].1) =~= before.map_values(
                        |i: usize| self.attributes@[i as int].1,
                    ).push(self.attributes@[k as int].1));
                } else {
                    assert(after == before);
                }
            }
            k = k + 1;
        }
    }

    /// The child for `step`, added at the end if there is none.
    pub fn child_mut(&mut self, step: Step) -> (r: &mut RouteNode<T>)
        ensures
            ({
                let index = first_step_index(child_steps(old(self).children@), step_view(step));
                let children = if index < old(self).children@.len() {
                    old(self).children@
                } else {
                    old(self).children@.push(*r)
                };
                &&& index < old(self).children@.len() ==> *r == old(self).children@[index]
                &&& index == old(self).children@.len() ==> (r.step == step && r.children@.len() == 0
                    && r.attributes@.len() == 0 && r.targets@.len() == 0 && r.anchor is None)
                &&& final(self).children@ == children.update(index, *final(r))
            }),
            final(self).step == old(self).step,
            final(self).attributes == old(self).attributes,
            final(self).targets == old(self).targets,
            final(self).anchor == old(self).anchor,
    {
        let ghost steps = child_steps(self.children@);
        let mut index: usize = 0;
        while index < self.children.len() && !same_step(&self.children[index].step, &step)
            invariant
                index <= self.children@.len(),
                steps == child_steps(self.children@),
                forall|j: int| 0 <= j < index ==> step_view(#[trigger] steps[j]) != step_view(step),
            decreases self.children.len() - index,
        {
            assert(steps[index as int] == self.children@[index as int].step);
            index = index + 1;
        }
        proof {
            if index < self.children@.len() {
                assert(steps[index as int] == self.children@[index as int].step);
            }
            lemma_first_step_index(steps, step_view(step), index as int);
        }
        if index == self.children.len() {
            self.children.push(RouteNode::new(step));
        }
        &mut self.children[index]
    }

    /// Nothing below this node needs the element's content.
    pub fn is_leaf(&self) -> (r: bool)
        ensures
            r == (self.children@.len() == 0),
    {
        self.children.len() == 0
    }
}

} // verus!
