//! Warnings of a read.

use vstd::prelude::*;

use crate::Location;
use crate::text::{ascii_lower, chars_of, contains, contains_exec, to_ascii_lower};

verus! {

#[derive(Debug, Clone, Copy, PartialEq, Eq, Hash, PartialOrd, Ord, Structural)]
pub enum WarningKind {
    /// srsName missing or in no recognised form; read as written (x/y).
    UnknownSrs,
    /// srsName recognised, but its code is not in the CRS table: where the
    /// CRS's axis order was needed, x/y was assumed. Also a compound CRS's
    /// part that names no known CRS: the CRS is its other parts.
    UnknownCrs,
    AxisConflict,
    SegmentGap,
    UnclosedRing,
    NumArcMismatch,
    ReferencedMember,
    /// A source without a feature collection or feature member (ISO metadata
    /// next to the GML in a zip, say).
    SkippedSource,
    Other,
}

#[derive(Debug, Clone)]
pub struct Warning {
    pub kind: WarningKind,
    pub location: Option<Location>,
    pub message: String,
}

/// The kind of a geometry parser's warning, by its text, compared without
/// regard to case.
pub open spec fn geometry_warning_kind(message: Seq<char>) -> WarningKind {
    let lower = ascii_lower(message);
    if contains(lower, "not closed"@) || contains(lower, "unclosed"@) {
        WarningKind::UnclosedRing
    } else if contains(lower, "gap"@) {
        WarningKind::SegmentGap
    } else if contains(lower, "numarc"@) {
        WarningKind::NumArcMismatch
    } else {
        WarningKind::Other
    }
}

impl Warning {
    /// A warning from the geometry parser, classified by its text.
    ///
    /// The words looked for hold no letter that any character other than an
    /// ASCII letter turns into when lower-cased, so lower-casing ASCII
    /// letters alone finds them wherever a full lower-casing would.
    pub fn from_geometry(message: String, location: Option<Location>) -> (r: Warning)
        ensures
            r.kind == geometry_warning_kind(message@),
            r.message@ == message@,
            r.location == location,
    {
        let text = chars_of(message.as_str());
        let lower = to_ascii_lower(&text);
        let not_closed = chars_of("not closed");
        let unclosed = chars_of("unclosed");
        let gap = chars_of("gap");
        let numarc = chars_of("numarc");
        let kind = if contains_exec(&lower, &not_closed) || contains_exec(&lower, &unclosed) {
            WarningKind::UnclosedRing
        } else if contains_exec(&lower, &gap) {
            WarningKind::SegmentGap
        } else if contains_exec(&lower, &numarc) {
            WarningKind::NumArcMismatch
        } else {
            WarningKind::Other
        };
        Warning { kind, location, message }
    }
}

/// Warnings kept in a report. Later ones are dropped so that a warning per
/// feature can't make the report grow with the input; the first ones show
/// what is wrong.
pub const MAX_WARNINGS: usize = 1000;

/// What a read reports besides its rows.
#[derive(Debug)]
pub struct ReadReport {
    /// Features read per layer: a layer's count is the sum of its entries.
    pub features_per_layer: Vec<(String, u64)>,
    /// Features skipped, where and why.
    pub skipped: Vec<(Location, String)>,
    pub warnings: Vec<Warning>,
}

/// The features counted for layer `k`.
pub open spec fn layer_count(v: Seq<(String, u64)>, k: Seq<char>) -> int
    decreases v.len(),
{
    if v.len() == 0 {
        0
    } else {
        layer_count(v.drop_last(), k) + if v.last().0@ == k {
            v.last().1 as int
        } else {
            0
        }
    }
}

/// The warnings kept after `more` are added to `ws` one by one.
pub open spec fn kept_warnings(ws: Seq<Warning>, more: Seq<Warning>) -> Seq<Warning> {
    if ws.len() >= MAX_WARNINGS {
        ws
    } else if ws.len() + more.len() <= MAX_WARNINGS {
        ws + more
    } else {
        (ws + more).take(MAX_WARNINGS as int)
    }
}

proof fn lemma_count_nonneg(v: Seq<(String, u64)>, k: Seq<char>)
    ensures
        layer_count(v, k) >= 0,
    decreases v.len(),
{
    if v.len() > 0 {
        lemma_count_nonneg(v.drop_last(), k);
    }
}

/// Replacing the entry at `i` changes a count by the difference of the two.
proof fn lemma_count_update(v: Seq<(String, u64)>, i: int, e: (String, u64), k: Seq<char>)
    requires
        0 <= i < v.len(),
    ensures
        layer_count(v.update(i, e), k) == layer_count(v, k) - (if v[i].0@ == k {
            v[i].1 as int
        } else {
            0
        }) + (if e.0@ == k {
            e.1 as int
        } else {
            0
        }),
    decreases v.len(),
{
    if i < v.len() - 1 {
        assert(v.update(i, e).drop_last() =~= v.drop_last().update(i, e));
        lemma_count_update(v.drop_last(), i, e, k);
    } else {
        assert(v.update(i, e).drop_last() =~= v.drop_last());
    }
}

/// An entry's count is part of its layer's.
proof fn lemma_entry_in_count(v: Seq<(String, u64)>, i: int)
    requires
        0 <= i < v.len(),
    ensures
        v[i].1 <= layer_count(v, v[i].0@),
    decreases v.len(),
{
    lemma_count_nonneg(v.drop_last(), v[i].0@);
    if i < v.len() - 1 {
        lemma_entry_in_count(v.drop_last(), i);
    }
}

/// The first entry's share, and the rest's.
proof fn lemma_count_first(v: Seq<(String, u64)>, k: Seq<char>)
    requires
        v.len() > 0,
    ensures
        layer_count(v, k) == layer_count(v.drop_first(), k) + if v[0].0@ == k {
            v[0].1 as int
        } else {
            0
        },
    decreases v.len(),
{
    if v.len() > 1 {
        let a = v.drop_last();
        let b = v.drop_first();
        lemma_count_first(a, k);
        assert(a.drop_first() =~= b.drop_last());
        assert(a[0] == v[0]);
        assert(b.last() == v.last());
        assert(layer_count(b, k) == layer_count(b.drop_last(), k) + if b.last().0@ == k {
            b.last().1 as int
        } else {
            0
        });
        assert(layer_count(v, k) == layer_count(a, k) + if v.last().0@ == k {
            v.last().1 as int
        } else {
            0
        });
        assert(layer_count(a.drop_first(), k) == layer_count(b.drop_last(), k));
    } else {
        assert(v.drop_first().len() == 0);
        assert(v.drop_last().len() == 0);
        assert(v.last() == v[0]);
        assert(layer_count(v.drop_last(), k) == 0);
        assert(layer_count(v.drop_first(), k) == 0);
    }
}

impl Default for ReadReport {
    /// Nothing read yet.
    fn default() -> (r: ReadReport)
        ensures
            r.features_per_layer@.len() == 0,
            r.skipped@.len() == 0,
            r.warnings@.len() == 0,
    {
        ReadReport { features_per_layer: Vec::new(), skipped: Vec::new(), warnings: Vec::new() }
    }
}

impl ReadReport {
    /// Add a warning, up to [`MAX_WARNINGS`].
    pub fn warn(&mut self, warning: Warning)
        ensures
            final(self).warnings@ == if old(self).warnings@.len() < MAX_WARNINGS {
                old(self).warnings@.push(warning)
            } else {
                old(self).warnings@
            },
            final(self).skipped@ == old(self).skipped@,
            final(self).features_per_layer@ == old(self).features_per_layer@,
    {
        if self.warnings.len() < MAX_WARNINGS {
            self.warnings.push(warning);
        }
    }

    /// Count `count` more features of `layer`.
    pub fn add_features(&mut self, layer: String, count: u64)
        requires
            layer_count(old(self).features_per_layer@, layer@) + count <= u64::MAX,
        ensures
            forall|k: Seq<char>| #[trigger] layer_count(final(self).features_per_layer@, k) == layer_count(
                old(self).features_per_layer@,
                k,
            ) + if k == layer@ {
                count as int
            } else {
                0
            },
            final(self).skipped@ == old(self).skipped@,
            final(self).warnings@ == old(self).warnings@,
    {
        let ghost before = self.features_per_layer@;
        let mut i: usize = 0;
        while i < self.features_per_layer.len()
            invariant
                i <= self.features_per_layer@.len(),
                self.features_per_layer@ == before,
                before == old(self).features_per_layer@,
                layer_count(before, layer@) + count <= u64::MAX,
                self.skipped@ == old(self).skipped@,
                self.warnings@ == old(self).warnings@,
                forall|j: int| 0 <= j < i ==> (#[trigger] self.features_per_layer@[j]).0@ != layer@,
            decreases self.features_per_layer.len() - i,
        {
            if crate::text::str_eq(self.features_per_layer[i].0.as_str(), layer.as_str()) {
                proof {
                    lemma_entry_in_count(before, i as int);
                    assert(before[i as int].0@ == layer@);
                }
                let (name, old_count) = self.features_per_layer.remove(i);
                let entry = (name, old_count + count);
                self.features_per_layer.insert(i, entry);
                proof {
                    assert(self.features_per_layer@ =~= before.update(i as int, entry));
                    assert forall|k: Seq<char>| #[trigger] layer_count(self.features_per_layer@, k) == layer_count(
                        before,
                        k,
                    ) + if k == layer@ {
                        count as int
                    } else {
                        0
                    } by {
                        lemma_count_update(before, i as int, entry, k);
                    }
                }
                return;
            }
            i = i + 1;
        }
        let entry = (layer, count);
        self.features_per_layer.push(entry);
        proof {
            assert(self.features_per_layer@.drop_last() =~= before);
        }
    }

    /// Add another report's counts, skipped features and warnings (up to
    /// [`MAX_WARNINGS`]).
    pub fn merge(&mut self, other: ReadReport)
        requires
            forall|k: Seq<char>| #[trigger] layer_count(old(self).features_per_layer@, k) + layer_count(
                other.features_per_layer@,
                k,
            ) <= u64::MAX,
        ensures
            forall|k: Seq<char>| #[trigger] layer_count(final(self).features_per_layer@, k) == layer_count(
                old(self).features_per_layer@,
                k,
            ) + layer_count(other.features_per_layer@, k),
            final(self).skipped@ == old(self).skipped@ + other.skipped@,
            final(self).warnings@ == kept_warnings(old(self).warnings@, other.warnings@),
    {
        let ghost start_counts = self.features_per_layer@;
        let ghost start_warnings = self.warnings@;
        let ghost other_counts = other.features_per_layer@;
        let ghost other_warnings = other.warnings@;
        let ghost other_skipped = other.skipped@;
        let mut other = other;
        let mut layers = Vec::new();
        std::mem::swap(&mut layers, &mut other.features_per_layer);
        while layers.len() > 0
            invariant
                forall|k: Seq<char>| #[trigger] layer_count(self.features_per_layer@, k) + layer_count(layers@, k)
                    == layer_count(start_counts, k) + layer_count(other_counts, k),
                forall|k: Seq<char>| #[trigger] layer_count(start_counts, k) + layer_count(other_counts, k) <= u64::MAX,
                self.skipped@ == old(self).skipped@,
                self.warnings@ == start_warnings,
            decreases layers@.len(),
        {
            let ghost rest = layers@;
            let (name, count) = layers.remove(0);
            proof {
                assert(layers@ == rest.drop_first());
                assert forall|k: Seq<char>| #[trigger] layer_count(rest, k) == layer_count(layers@, k) + if name@ == k {
                    count as int
                } else {
                    0
                } by {
                    lemma_count_first(rest, k);
                }
                lemma_count_nonneg(layers@, name@);
                assert(layer_count(self.features_per_layer@, name@) + layer_count(rest, name@) <= u64::MAX);
            }
            let ghost name_view = name@;
            self.add_features(name, count);
            assert forall|k: Seq<char>| #[trigger] layer_count(self.features_per_layer@, k) + layer_count(layers@, k)
                == layer_count(start_counts, k) + layer_count(other_counts, k) by {
                assert(layer_count(rest, k) == layer_count(layers@, k) + if name_view == k {
                    count as int
                } else {
                    0
                });
            }
        }
        let mut skipped = Vec::new();
        std::mem::swap(&mut skipped, &mut other.skipped);
        self.skipped.append(&mut skipped);
        let mut warnings = Vec::new();
        std::mem::swap(&mut warnings, &mut other.warnings);
        let total = warnings.len();
        let mut taken: usize = 0;
        while warnings.len() > 0
            invariant
                taken + warnings@.len() == other_warnings.len(),
                warnings@ == other_warnings.skip(taken as int),
                self.warnings@ == kept_warnings(start_warnings, other_warnings.take(taken as int)),
                forall|k: Seq<char>| #[trigger] layer_count(self.features_per_layer@, k) == layer_count(start_counts, k)
                    + layer_count(other_counts, k),
                self.skipped@ == old(self).skipped@ + other_skipped,
                taken + warnings@.len() <= usize::MAX,
            decreases warnings@.len(),
        {
            let w = warnings.remove(0);
            proof {
                assert(w == other_warnings[taken as int]);
                assert(other_warnings.take(taken + 1) =~= other_warnings.take(taken as int).push(w));
                assert(warnings@ =~= other_warnings.skip(taken + 1));
                let ws = start_warnings;
                let more = other_warnings.take(taken as int);
                if ws.len() < MAX_WARNINGS && ws.len() + more.len() + 1 > MAX_WARNINGS && ws.len() + more.len() < MAX_WARNINGS {
                }
                if ws.len() < MAX_WARNINGS && ws.len() + more.len() >= MAX_WARNINGS {
                    assert((ws + more.push(w)).take(MAX_WARNINGS as int) =~= (ws + more).take(MAX_WARNINGS as int));
                }
                if ws.len() < MAX_WARNINGS && ws.len() + more.len() < MAX_WARNINGS {
                    assert(ws + more.push(w) =~= (ws + more).push(w));
                }
            }
            self.warn(w);
            taken = taken + 1;
        }
        assert(other_warnings.take(taken as int) =~= other_warnings);
    }
}

/// However many reports are merged into one, it keeps at most
/// [`MAX_WARNINGS`] warnings, and the first ones it had stay first.
pub proof fn lemma_warnings_stay_capped(ws: Seq<Warning>, more: Seq<Warning>)
    requires
        ws.len() <= MAX_WARNINGS,
    ensures
        kept_warnings(ws, more).len() <= MAX_WARNINGS,
        kept_warnings(ws, more).take(ws.len() as int) == ws,
{
    let r = kept_warnings(ws, more);
    assert(r.take(ws.len() as int) =~= ws);
}

} // verus!
