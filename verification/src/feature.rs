//! What becomes of a feature whose values or geometry could not be read.

use vstd::prelude::*;

use crate::QName;
use crate::error::Error;
use crate::reader::{Attributes, EventView, GmlReader, XmlEvent, event_view};
use crate::text::{append, chars_of, occurs_at, opt_string_view, owned, string_from, trim, trimmed};

verus! {

/// How a feature error is handled: a value that doesn't fit its column, a
/// missing value in a non-null column, a geometry that can't be read or held.
#[derive(Debug, Clone, Copy, PartialEq, Eq, Structural)]
pub enum OnFeatureError {
    Error,
    Skip,
    /// Keep attributes; geometry errors only.
    NullGeometry,
}

impl Default for OnFeatureError {
    /// Stop at the first feature error.
    fn default() -> (r: OnFeatureError)
        ensures
            r == OnFeatureError::Error,
    {
        OnFeatureError::Error
    }
}

/// What became of one feature.
#[derive(Debug, Clone, Copy, PartialEq, Eq, Structural)]
pub enum FeatureOutcome {
    Row,
    /// Skipped by `OnFeatureError::Skip` (recorded in the report).
    Skipped,
}

/// The kinds of feature error, in the order a feature is checked for them.
#[derive(Debug, Clone, Copy, PartialEq, Eq, Structural)]
pub enum FeatureFault {
    /// A value that doesn't fit its column.
    Value,
    /// A geometry that can't be read or held.
    Geometry,
    /// A missing value in a non-null column.
    Missing,
}

/// What a feature error leads to.
#[derive(Debug, Clone, Copy, PartialEq, Eq, Structural)]
pub enum FaultAction {
    /// The read fails with the error.
    Fail,
    /// The feature is skipped and the error recorded.
    Skip,
    /// The row is kept, its geometry null.
    KeepRow,
}

/// `NullGeometry` only helps with geometry errors.
pub open spec fn fault_action_spec(policy: OnFeatureError, fault: FeatureFault) -> FaultAction {
    match policy {
        OnFeatureError::Error => FaultAction::Fail,
        OnFeatureError::Skip => FaultAction::Skip,
        OnFeatureError::NullGeometry => if fault == FeatureFault::Geometry {
            FaultAction::KeepRow
        } else {
            FaultAction::Fail
        },
    }
}

/// What `policy` makes of a feature error of kind `fault`.
pub fn fault_action(policy: OnFeatureError, fault: FeatureFault) -> (r: FaultAction)
    ensures
        r == fault_action_spec(policy, fault),
{
    match policy {
        OnFeatureError::Error => FaultAction::Fail,
        OnFeatureError::Skip => FaultAction::Skip,
        OnFeatureError::NullGeometry => match fault {
            FeatureFault::Geometry => FaultAction::KeepRow,
            _ => FaultAction::Fail,
        },
    }
}

/// What a geometry column holds, from its field's GeoArrow extension type.
#[derive(Debug, Clone, Copy, PartialEq, Eq, Structural)]
pub enum GeometryKind {
    Point,
    LineString,
    Polygon,
    MultiPoint,
    MultiLineString,
    MultiPolygon,
    /// `geoarrow.geometry`: any simple-feature geometry.
    Mixed,
    /// `geoarrow.wkb`: anything, curves included.
    Wkb,
}

/// The coordinate dimension of a column.
#[derive(Debug, Clone, Copy, PartialEq, Eq, Structural)]
pub enum Dim {
    Xy,
    Xyz,
}

/// The kind and the dimension a column's geometries are written with.
#[derive(Debug, Clone, Copy, PartialEq, Eq, Structural)]
pub struct GeometrySpec {
    pub kind: GeometryKind,
    /// `None`: each geometry keeps its own dimension.
    pub dim: Option<Dim>,
}

/// The kind's name as messages write it.
pub open spec fn kind_name(kind: GeometryKind) -> Seq<char> {
    match kind {
        GeometryKind::Point => "Point"@,
        GeometryKind::LineString => "LineString"@,
        GeometryKind::Polygon => "Polygon"@,
        GeometryKind::MultiPoint => "MultiPoint"@,
        GeometryKind::MultiLineString => "MultiLineString"@,
        GeometryKind::MultiPolygon => "MultiPolygon"@,
        GeometryKind::Mixed => "Mixed"@,
        GeometryKind::Wkb => "Wkb"@,
    }
}

fn kind_str(kind: GeometryKind) -> (r: &'static str)
    ensures
        r@ == kind_name(kind),
{
    match kind {
        GeometryKind::Point => "Point",
        GeometryKind::LineString => "LineString",
        GeometryKind::Polygon => "Polygon",
        GeometryKind::MultiPoint => "MultiPoint",
        GeometryKind::MultiLineString => "MultiLineString",
        GeometryKind::MultiPolygon => "MultiPolygon",
        GeometryKind::Mixed => "Mixed",
        GeometryKind::Wkb => "Wkb",
    }
}

/// `a Polygon column`, `a MultiPolygon XYZ column`.
pub open spec fn spec_description(spec: GeometrySpec) -> Seq<char> {
    "a "@ + kind_name(spec.kind) + (if spec.dim == Some(Dim::Xyz) {
        " XYZ"@
    } else {
        Seq::empty()
    }) + " column"@
}

impl GeometrySpec {
    /// The column's type, for messages.
    pub fn describe(&self) -> (r: String)
        ensures
            r@ == spec_description(*self),
    {
        let mut out = String::new();
        append(&mut out, "a ");
        append(&mut out, kind_str(self.kind));
        let ghost middle = out@;
        match self.dim {
            Some(Dim::Xyz) => append(&mut out, " XYZ"),
            _ => {
                assert(out@ == middle + Seq::<char>::empty());
            },
        }
        append(&mut out, " column");
        out
    }
}

/// The last index where `</` starts in `s`.
pub open spec fn last_end_tag(s: Seq<char>) -> Option<int> {
    if exists|i: int| occurs_at(s, "</"@, i) {
        Some(choose|i: int| occurs_at(s, "</"@, i) && forall|j: int| i < j ==> !occurs_at(s, "</"@, j))
    } else {
        None
    }
}

/// An element's raw XML (from its content to its end tag) without the end
/// tag: what comes before the last `</`.
pub fn inner_raw(raw: &str) -> (r: String)
    ensures
        r@ == match last_end_tag(raw@) {
            Some(i) => raw@.take(i),
            None => raw@,
        },
{
    proof {
        reveal_strlit("</");
    }
    let s = chars_of(raw);
    let n = s.len();
    let mut i = n;
    while i >= 2
        invariant
            i <= n == s@.len(),
            s@ == raw@,
            forall|j: int| i - 1 <= j ==> !occurs_at(raw@, "</"@, j),
        decreases i,
    {
        proof {
            reveal_strlit("</");
        }
        if s[i - 2] == '<' && s[i - 1] == '/' {
            let k = i - 2;
            assert(occurs_at(raw@, "</"@, k as int)) by {
                assert(raw@.subrange(k as int, k + 2) =~= "</"@);
            }
            let ghost c = choose|c: int| occurs_at(raw@, "</"@, c) && forall|j: int| c < j ==> !occurs_at(raw@, "</"@, j);
            assert(c == k as int) by {
                if c < k {
                } else if c > k {
                }
            }
            assert(s@.take(k as int) == s@.subrange(0, k as int));
            return string_from(&s, 0, k);
        }
        assert(!occurs_at(raw@, "</"@, i - 2)) by {
            if occurs_at(raw@, "</"@, i - 2) {
                assert(raw@.subrange(i - 2, i as int)[0] == '<');
                assert(raw@.subrange(i - 2, i as int)[1] == '/');
            }
        }
        i = i - 1;
    }
    assert(last_end_tag(raw@) is None) by {
        reveal_strlit("</");
        if exists|j: int| occurs_at(raw@, "</"@, j) {
            let j = choose|j: int| occurs_at(raw@, "</"@, j);
            assert(j + 2 <= n);
        }
    }
    owned(raw)
}

/// `parent/child`, or `child` at the top.
pub open spec fn joined_path(parent: Seq<char>, child: Seq<char>) -> Seq<char> {
    if parent.len() == 0 {
        child
    } else {
        parent + "/"@ + child
    }
}

/// The path of a child element: `parent/child`, or `child` at the top.
pub fn join_path(parent: &str, child: &QName) -> (r: String)
    ensures
        r@ == joined_path(parent@, child@.1),
{
    if chars_of(parent).len() == 0 {
        owned(child.local.as_str())
    } else {
        let mut out = owned(parent);
        append(&mut out, "/");
        append(&mut out, child.local.as_str());
        out
    }
}

/// The text of the events, one after another.
pub open spec fn text_of(events: Seq<EventView>) -> Seq<char>
    decreases events.len(),
{
    if events.len() == 0 {
        Seq::empty()
    } else {
        text_of(events.drop_last()) + match events.last() {
            EventView::Text(t) => t,
            _ => Seq::empty(),
        }
    }
}

/// How many more start tags than end tags the events hold.
pub open spec fn depth_of(events: Seq<EventView>) -> int
    decreases events.len(),
{
    if events.len() == 0 {
        0
    } else {
        depth_of(events.drop_last()) + match events.last() {
            EventView::Start(..) => 1int,
            EventView::End(..) => -1int,
            _ => 0int,
        }
    }
}

/// No prefix of the events holds more end tags than start tags, and none is
/// the end of input: they stay inside the element that they started in.
pub open spec fn stays_inside(events: Seq<EventView>) -> bool {
    &&& forall|k: int| 0 <= k <= events.len() ==> depth_of(#[trigger] events.take(k)) >= 0
    &&& forall|k: int| 0 <= k < events.len() ==> !(#[trigger] events[k] is Eof)
}

/// The events are the rest of an element after its start tag: they stay
/// inside it, and the last is its end tag.
pub open spec fn closes_element(events: Seq<EventView>) -> bool {
    &&& events.len() > 0
    &&& events.last() is End
    &&& stays_inside(events.drop_last())
    &&& depth_of(events.drop_last()) == 0
}

proof fn lemma_stays_inside_push(events: Seq<EventView>, e: EventView)
    requires
        stays_inside(events),
        !(e is Eof),
        depth_of(events.push(e)) >= 0,
    ensures
        stays_inside(events.push(e)),
{
    let next = events.push(e);
    assert forall|k: int| 0 <= k <= next.len() implies depth_of(#[trigger] next.take(k)) >= 0 by {
        if k <= events.len() {
            assert(next.take(k) == events.take(k));
        } else {
            assert(next.take(k) == next);
        }
    }
    assert forall|k: int| 0 <= k < next.len() implies !(#[trigger] next[k] is Eof) by {
        if k < events.len() {
            assert(next[k] == events[k]);
        }
    }
}

/// The text of a subtree, gathered event by event: the text of every level
/// in document order, markup removed.
pub struct InnerText {
    text: String,
    depth: usize,
}

impl InnerText {
    /// The text gathered so far.
    pub closed spec fn gathered(&self) -> Seq<char> {
        self.text@
    }

    /// How many elements inside the subtree are open.
    pub closed spec fn open_elements(&self) -> nat {
        self.depth as nat
    }

    pub fn new() -> (r: InnerText)
        ensures
            r.gathered() == Seq::<char>::empty(),
            r.open_elements() == 0,
    {
        InnerText { text: String::new(), depth: 0 }
    }

    /// A start tag inside the subtree.
    pub fn start(&mut self)
        requires
            old(self).open_elements() < usize::MAX,
        ensures
            final(self).gathered() == old(self).gathered(),
            final(self).open_elements() == old(self).open_elements() + 1,
    {
        self.depth = self.depth + 1;
    }

    /// Text inside the subtree.
    pub fn text(&mut self, t: &str)
        ensures
            final(self).gathered() == old(self).gathered() + t@,
            final(self).open_elements() == old(self).open_elements(),
    {
        append(&mut self.text, t);
    }

    /// An end tag; `true` for the end of the subtree itself.
    pub fn end(&mut self) -> (closed: bool)
        ensures
            closed == (old(self).open_elements() == 0),
            final(self).gathered() == old(self).gathered(),
            !closed ==> final(self).open_elements() == old(self).open_elements() - 1,
    {
        if self.depth == 0 {
            true
        } else {
            self.depth = self.depth - 1;
            false
        }
    }

    pub fn into_text(self) -> (r: String)
        ensures
            r@ == self.gathered(),
    {
        self.text
    }
}

/// The path recorded for a level's text: its path, `#text` for the top.
pub open spec fn text_path(path: Seq<char>) -> Seq<char> {
    if path.len() == 0 {
        "#text"@
    } else {
        path
    }
}

/// The pairs recorded for the attributes of an element at `path`.
pub open spec fn attribute_pairs(
    path: Seq<char>,
    attrs: Seq<(Option<Seq<char>>, Seq<char>, Seq<char>)>,
) -> Seq<(Seq<char>, Seq<char>)> {
    attrs.map_values(|a: (Option<Seq<char>>, Seq<char>, Seq<char>)| (path + "/@"@ + a.1, a.2))
}

/// The view of a `(String, String)` pair.
pub open spec fn pair_view(p: (String, String)) -> (Seq<char>, Seq<char>) {
    (p.0@, p.1@)
}

/// What a subtree map holds: the pairs recorded, and path and text of each
/// open level.
pub type MapState = (Seq<(Seq<char>, Seq<char>)>, Seq<(Seq<char>, Seq<char>)>);

/// One event applied to a subtree map: a start tag records its attributes
/// and opens a level, text goes to the innermost level, an end tag closes
/// it and records its trimmed text, if any is left.
pub open spec fn map_step(s: MapState, e: EventView) -> MapState {
    match e {
        EventView::Start(name, attrs) => {
            let path = joined_path(s.1.last().0, name.1);
            (s.0 + attribute_pairs(path, attrs), s.1.push((path, Seq::<char>::empty())))
        },
        EventView::Text(t) => (s.0, s.1.drop_last().push((s.1.last().0, s.1.last().1 + t))),
        EventView::End(_) => {
            let (path, text) = s.1.last();
            (
                if trimmed(text).len() > 0 {
                    s.0.push((text_path(path), trimmed(text)))
                } else {
                    s.0
                },
                s.1.drop_last(),
            )
        },
        EventView::Eof => s,
    }
}

/// The subtree map after the events, from one open level at the empty path.
pub open spec fn map_of(events: Seq<EventView>) -> MapState
    decreases events.len(),
{
    if events.len() == 0 {
        (Seq::empty(), seq![(Seq::<char>::empty(), Seq::<char>::empty())])
    } else {
        map_step(map_of(events.drop_last()), events.last())
    }
}

/// A subtree as `path → text` pairs (attributes as `path/@name`), paths
/// relative to the element, gathered event by event.
pub struct SubtreeMap {
    pairs: Vec<(String, String)>,
    /// Path and text of each open level, the subtree's own element first.
    stack: Vec<(String, String)>,
}

impl SubtreeMap {
    /// The pairs recorded so far.
    pub closed spec fn recorded(&self) -> Seq<(Seq<char>, Seq<char>)> {
        self.pairs@.map_values(|p: (String, String)| pair_view(p))
    }

    /// Path and text of each open level.
    pub closed spec fn levels(&self) -> Seq<(Seq<char>, Seq<char>)> {
        self.stack@.map_values(|p: (String, String)| pair_view(p))
    }

    /// Starts at the subtree's own element: one open level, at the empty path.
    pub fn new() -> (r: SubtreeMap)
        ensures
            r.recorded() == Seq::<(Seq<char>, Seq<char>)>::empty(),
            r.levels() == seq![(Seq::<char>::empty(), Seq::<char>::empty())],
    {
        let mut stack: Vec<(String, String)> = Vec::new();
        stack.push((String::new(), String::new()));
        let r = SubtreeMap { pairs: Vec::new(), stack };
        assert(r.recorded() =~= Seq::<(Seq<char>, Seq<char>)>::empty());
        assert(r.levels() =~= seq![(Seq::<char>::empty(), Seq::<char>::empty())]);
        r
    }

    /// A start tag inside the subtree: its attributes are recorded at its
    /// path, and a level opens for it.
    pub fn start(&mut self, name: &QName, attrs: &Attributes)
        requires
            old(self).levels().len() > 0,
        ensures
            ({
                let path = joined_path(old(self).levels().last().0, name@.1);
                &&& final(self).recorded() == old(self).recorded() + attribute_pairs(path, attrs@)
                &&& final(self).levels() == old(self).levels().push((path, Seq::<char>::empty()))
            }),
    {
        let top = self.stack.len() - 1;
        let path = join_path(self.stack[top].0.as_str(), name);
        let listed = attrs.iter_raw();
        let ghost before = self.recorded();
        let mut i: usize = 0;
        while i < listed.len()
            invariant
                i <= listed@.len(),
                listed@.len() == attrs@.len(),
                forall|k: int| 0 <= k < listed@.len() ==> (opt_string_view((#[trigger] listed@[k]).0), listed@[k].1@, listed@[k].2@) == attrs@[k],
                self.recorded() == before + attribute_pairs(path@, attrs@).take(i as int),
                self.levels() == old(self).levels(),
            decreases listed.len() - i,
        {
            let mut key = owned(path.as_str());
            append(&mut key, "/@");
            append(&mut key, listed[i].1.as_str());
            let value = owned(listed[i].2.as_str());
            assert((opt_string_view(listed@[i as int].0), listed@[i as int].1@, listed@[i as int].2@) == attrs@[i as int]);
            assert(attribute_pairs(path@, attrs@)[i as int] == (key@, value@));
            let ghost prev = self.recorded();
            self.pairs.push((key, value));
            assert(self.recorded() =~= prev.push(attribute_pairs(path@, attrs@)[i as int]));
            assert(attribute_pairs(path@, attrs@).take(i + 1) == attribute_pairs(path@, attrs@).take(i as int).push(
                attribute_pairs(path@, attrs@)[i as int],
            ));
            assert(self.recorded() =~= before + attribute_pairs(path@, attrs@).take(i + 1));
            i = i + 1;
        }
        assert(attribute_pairs(path@, attrs@).take(i as int) == attribute_pairs(path@, attrs@));
        self.stack.push((path, String::new()));
        assert(self.levels() =~= old(self).levels().push((path@, Seq::<char>::empty())));
    }

    /// Text inside the subtree, added to the innermost open level.
    pub fn text(&mut self, t: &str)
        requires
            old(self).levels().len() > 0,
        ensures
            final(self).recorded() == old(self).recorded(),
            final(self).levels() == old(self).levels().drop_last().push(
                (old(self).levels().last().0, old(self).levels().last().1 + t@),
            ),
    {
        let (path, mut text) = self.stack.pop().unwrap();
        append(&mut text, t);
        self.stack.push((path, text));
        assert(self.levels() =~= old(self).levels().drop_last().push(
            (old(self).levels().last().0, old(self).levels().last().1 + t@),
        ));
    }

    /// An end tag: the innermost level closes, and its text is recorded,
    /// trimmed, if any is left; `true` when the subtree itself ended.
    pub fn end(&mut self) -> (closed: bool)
        requires
            old(self).levels().len() > 0,
        ensures
            final(self).levels() == old(self).levels().drop_last(),
            closed == (final(self).levels().len() == 0),
            ({
                let (path, text) = old(self).levels().last();
                final(self).recorded() == if trimmed(text).len() > 0 {
                    old(self).recorded().push((text_path(path), trimmed(text)))
                } else {
                    old(self).recorded()
                }
            }),
    {
        let (path, text) = self.stack.pop().unwrap();
        assert(self.levels() =~= old(self).levels().drop_last());
        let text = trim(text.as_str());
        if chars_of(text.as_str()).len() > 0 {
            let path = if chars_of(path.as_str()).len() == 0 {
                owned("#text")
            } else {
                path
            };
            self.pairs.push((path, text));
            assert(self.recorded() =~= old(self).recorded().push((pair_view((path, text)))));
        }
        self.stack.len() == 0
    }

    pub fn into_pairs(self) -> (r: Vec<(String, String)>)
        ensures
            r@.map_values(|p: (String, String)| pair_view(p)) == self.recorded(),
    {
        self.pairs
    }
}

/// The error for a subtree that the buffer ends inside of.
pub fn unexpected_eof(reader: &GmlReader<'_>) -> (r: Error)
    ensures
        r matches Error::Xml { message, .. } && message@ == "unexpected end of chunk inside a feature"@,
{
    Error::Xml { location: reader.location(), message: owned("unexpected end of chunk inside a feature") }
}

/// All text of a subtree, markup removed. Call it right after the
/// subtree's start tag; it reads up to and including its end tag.
pub fn inner_text(reader: &mut GmlReader<'_>) -> (r: Result<String, Error>)
    ensures
        final(reader).buffer() == old(reader).buffer(),
        final(reader).base() == old(reader).base(),
        final(reader).source_id() == old(reader).source_id(),
        old(reader).delivered().is_prefix_of(final(reader).delivered()),
        r matches Ok(t) ==> ({
            let events = final(reader).delivered().skip(old(reader).delivered().len() as int);
            closes_element(events) && t@ == text_of(events)
        }),
{
    let ghost start = reader.delivered();
    let mut gathered = InnerText::new();
    let total = reader.event_bound();
    let mut budget = total;
    assert(reader.delivered().skip(start.len() as int) =~= Seq::<EventView>::empty());
    loop
        invariant
            gathered.open_elements() + budget <= total,
            reader.buffer() == old(reader).buffer(),
            reader.base() == old(reader).base(),
            reader.source_id() == old(reader).source_id(),
            start == old(reader).delivered(),
            start.is_prefix_of(reader.delivered()),
            stays_inside(reader.delivered().skip(start.len() as int)),
            gathered.gathered() == text_of(reader.delivered().skip(start.len() as int)),
            gathered.open_elements() == depth_of(reader.delivered().skip(start.len() as int)),
        decreases budget,
    {
        if budget == 0 {
            return Err(reader.stalled());
        }
        budget = budget - 1;
        let ghost events = reader.delivered().skip(start.len() as int);
        let event = reader.next_event()?;
        let ghost next = reader.delivered().skip(start.len() as int);
        assert(next == events.push(event_view(event))) by {
            assert(next =~= events.push(event_view(event)));
        }
        assert(next.drop_last() == events);
        assert(start.is_prefix_of(reader.delivered())) by {
            assert(reader.delivered().take(start.len() as int) =~= start);
        }
        match event {
            XmlEvent::Start { .. } => {
                gathered.start();
                proof { lemma_stays_inside_push(events, event_view(event)); }
            },
            XmlEvent::Text(t) => {
                gathered.text(t.as_str());
                proof { lemma_stays_inside_push(events, event_view(event)); }
            },
            XmlEvent::End { .. } => {
                if gathered.end() {
                    return Ok(gathered.into_text());
                }
                proof { lemma_stays_inside_push(events, event_view(event)); }
            },
            XmlEvent::Eof => {
                return Err(unexpected_eof(reader));
            },
        }
    }
}

/// A subtree as `path → text` (attributes as `path/@name`), paths relative
/// to the element. Call it right after the subtree's start tag; it reads up
/// to and including its end tag.
pub fn subtree_map(reader: &mut GmlReader<'_>) -> (r: Result<Vec<(String, String)>, Error>)
    ensures
        final(reader).buffer() == old(reader).buffer(),
        final(reader).base() == old(reader).base(),
        final(reader).source_id() == old(reader).source_id(),
        old(reader).delivered().is_prefix_of(final(reader).delivered()),
        r matches Ok(pairs) ==> ({
            let events = final(reader).delivered().skip(old(reader).delivered().len() as int);
            &&& closes_element(events)
            &&& pairs@.map_values(|p: (String, String)| pair_view(p)) == map_of(events).0
        }),
{
    let ghost start = reader.delivered();
    let mut map = SubtreeMap::new();
    let mut budget = reader.event_bound();
    assert(reader.delivered().skip(start.len() as int) =~= Seq::<EventView>::empty());
    loop
        invariant
            reader.buffer() == old(reader).buffer(),
            reader.base() == old(reader).base(),
            reader.source_id() == old(reader).source_id(),
            start == old(reader).delivered(),
            start.is_prefix_of(reader.delivered()),
            stays_inside(reader.delivered().skip(start.len() as int)),
            map.levels().len() == depth_of(reader.delivered().skip(start.len() as int)) + 1,
            (map.recorded(), map.levels()) == map_of(reader.delivered().skip(start.len() as int)),
        decreases budget,
    {
        if budget == 0 {
            return Err(reader.stalled());
        }
        budget = budget - 1;
        let ghost events = reader.delivered().skip(start.len() as int);
        assert(events.take(events.len() as int) == events);
        let event = reader.next_event()?;
        let ghost next = reader.delivered().skip(start.len() as int);
        assert(next == events.push(event_view(event))) by {
            assert(next =~= events.push(event_view(event)));
        }
        assert(next.drop_last() == events);
        assert(start.is_prefix_of(reader.delivered())) by {
            assert(reader.delivered().take(start.len() as int) =~= start);
        }
        match event {
            XmlEvent::Start { name, attrs } => {
                map.start(&name, &attrs);
                proof { lemma_stays_inside_push(events, event_view(XmlEvent::Start { name, attrs })); }
            },
            XmlEvent::Text(t) => {
                map.text(t.as_str());
                proof { lemma_stays_inside_push(events, event_view(XmlEvent::Text(t))); }
            },
            XmlEvent::End { name } => {
                if map.end() {
                    return Ok(map.into_pairs());
                }
                proof { lemma_stays_inside_push(events, event_view(XmlEvent::End { name })); }
            },
            XmlEvent::Eof => {
                return Err(unexpected_eof(reader));
            },
        }
    }
}

} // verus!
