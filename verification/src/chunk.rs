//! What the splitter produces: runs of whole features, each copied as
//! written from the decoded stream.

use vstd::prelude::*;

use crate::{NamespaceContext, SourceId};

verus! {

/// One element as written: its bytes, from its start tag to its end tag.
#[derive(Debug)]
pub struct RawElement {
    pub source: SourceId,
    /// Offset in the decoded stream, for error locations.
    pub byte_offset: u64,
    pub bytes: Vec<u8>,
    /// Namespace declarations in scope at the element (its own are in its bytes).
    pub namespaces: NamespaceContext,
}

impl RawElement {
    /// A copy with the same bytes and namespaces.
    pub fn duplicate(&self) -> (r: RawElement)
        ensures
            r.source == self.source,
            r.byte_offset == self.byte_offset,
            r.bytes@ == self.bytes@,
            r.namespaces@ == self.namespaces@,
    {
        RawElement {
            source: self.source,
            byte_offset: self.byte_offset,
            bytes: copy_bytes(self.bytes.as_slice()),
            namespaces: self.namespaces.duplicate(),
        }
    }
}

/// A copy of `bytes`.
pub fn copy_bytes(bytes: &[u8]) -> (r: Vec<u8>)
    ensures
        r@ == bytes@,
{
    let mut out: Vec<u8> = Vec::new();
    let mut i: usize = 0;
    while i < bytes.len()
        invariant
            i <= bytes@.len(),
            out@ == bytes@.subrange(0, i as int),
        decreases bytes.len() - i,
    {
        out.push(bytes[i]);
        assert(bytes@.subrange(0, i + 1) == bytes@.subrange(0, i as int).push(bytes@[i as int]));
        i = i + 1;
    }
    assert(bytes@.subrange(0, bytes@.len() as int) == bytes@);
    out
}

/// Appends `bytes[from..to]` to `out`.
pub fn append_range(out: &mut Vec<u8>, bytes: &[u8], from: usize, to: usize)
    requires
        from <= to <= bytes@.len(),
    ensures
        final(out)@ == old(out)@ + bytes@.subrange(from as int, to as int),
{
    let ghost start = out@;
    let mut i = from;
    while i < to
        invariant
            from <= i <= to <= bytes@.len(),
            out@ == start + bytes@.subrange(from as int, i as int),
        decreases to - i,
    {
        out.push(bytes[i]);
        assert(bytes@.subrange(from as int, i + 1) == bytes@.subrange(from as int, i as int).push(bytes@[i as int]));
        i = i + 1;
    }
}

/// A self-contained run of whole features, produced by the splitter.
#[derive(Debug)]
pub struct FeatureChunk {
    pub source: SourceId,
    /// Sequence number within the read; used to restore order.
    pub seq: u64,
    /// Offset in the decoded stream, for error locations.
    pub byte_offset: u64,
    pub bytes: Vec<u8>,
    /// Namespace declarations in scope at the feature members.
    pub namespaces: NamespaceContext,
    /// Sequence number of the first feature in this chunk.
    pub first_feature_seq: u64,
    /// Number of features in this chunk.
    pub features: u64,
    /// The `boundedBy` of the innermost collection around these features
    /// that has one, whose srsName and srsDimension the features inherit.
    /// All features of a chunk share it.
    pub collection_bounded_by: Option<RawElement>,
}

/// The bytes of the stream in `spans`, one after another.
pub open spec fn concat_spans(stream: Seq<u8>, spans: Seq<(int, int)>) -> Seq<u8>
    decreases spans.len(),
{
    if spans.len() == 0 {
        Seq::empty()
    } else {
        concat_spans(stream, spans.drop_last()) + stream.subrange(spans.last().0, spans.last().1)
    }
}

/// Whole elements of the stream in stream order, without overlap, none
/// starting before `after`: each span starts at a `<` and ends after a `>`.
pub open spec fn spans_ok(stream: Seq<u8>, spans: Seq<(int, int)>, after: int) -> bool {
    &&& forall|i: int|
        0 <= i < spans.len() ==> {
            &&& 0 <= (#[trigger] spans[i]).0 < spans[i].1 <= stream.len()
            &&& stream[spans[i].0] == 0x3Cu8
            &&& stream[spans[i].1 - 1] == 0x3Eu8
        }
    &&& forall|i: int| 0 < i < spans.len() ==> spans[i - 1].1 <= (#[trigger] spans[i]).0
    &&& spans.len() > 0 ==> after <= spans[0].0
}

/// The bytes the spans take, together.
pub open spec fn spans_bytes(spans: Seq<(int, int)>) -> int
    decreases spans.len(),
{
    if spans.len() == 0 {
        0
    } else {
        spans_bytes(spans.drop_last()) + (spans.last().1 - spans.last().0)
    }
}

/// A run of spans is no longer than a target: all but its last one take
/// fewer bytes than the target (one span alone may take any number).
pub open spec fn within_target(spans: Seq<(int, int)>, target: int) -> bool {
    spans.len() <= 1 || spans_bytes(spans.drop_last()) < target
}

/// Every run of `qs` is no longer than the target.
pub open spec fn all_within(qs: Seq<Seq<(int, int)>>, target: int) -> bool
    decreases qs.len(),
{
    qs.len() == 0 || (within_target(qs[0], target) && all_within(qs.drop_first(), target))
}

/// A run that is no longer than the target may join the end.
pub proof fn lemma_all_within_push(qs: Seq<Seq<(int, int)>>, s: Seq<(int, int)>, target: int)
    requires
        all_within(qs, target),
        within_target(s, target),
    ensures
        all_within(qs.push(s), target),
    decreases qs.len(),
{
    let p = qs.push(s);
    if qs.len() > 0 {
        assert(within_target(qs[0], target) && all_within(qs.drop_first(), target));
        lemma_all_within_push(qs.drop_first(), s, target);
        assert(p.drop_first() =~= qs.drop_first().push(s));
        assert(p[0] == qs[0]);
        assert(within_target(p[0], target) && all_within(p.drop_first(), target));
    } else {
        assert(p.drop_first() =~= Seq::<Seq<(int, int)>>::empty());
        assert(all_within(p.drop_first(), target));
        assert(p[0] == s);
    }
}

/// The spans' bytes, one after another, are as long as the spans together.
pub proof fn lemma_concat_len(stream: Seq<u8>, spans: Seq<(int, int)>)
    requires
        forall|i: int| 0 <= i < spans.len() ==> 0 <= (#[trigger] spans[i]).0 <= spans[i].1 <= stream.len(),
    ensures
        concat_spans(stream, spans).len() == spans_bytes(spans),
    decreases spans.len(),
{
    if spans.len() > 0 {
        let d = spans.drop_last();
        assert forall|i: int| 0 <= i < d.len() implies 0 <= (#[trigger] d[i]).0 <= d[i].1 <= stream.len() by {
            assert(d[i] == spans[i]);
        }
        lemma_concat_len(stream, d);
        assert(spans.last() == spans[spans.len() - 1]);
    }
}

/// Where a run of spans ends (`after` for none).
pub open spec fn spans_end(spans: Seq<(int, int)>, after: int) -> int {
    if spans.len() == 0 {
        after
    } else {
        spans.last().1
    }
}

/// A chunk as delivered: sequence number `seq`, first feature `first`,
/// features after stream offset `after`, and bytes that are exactly those
/// features as written.
/// `spans`: where each of its features lies in the stream, `[start, end)`.
pub open spec fn chunk_ok(c: FeatureChunk, spans: Seq<(int, int)>, stream: Seq<u8>, seq: int, first: int, after: int) -> bool {
    &&& c.seq == seq
    &&& c.first_feature_seq == first
    &&& c.features == spans.len()
    &&& spans.len() > 0
    &&& spans_ok(stream, spans, after)
    &&& c.byte_offset == spans[0].0
    &&& c.bytes@ == concat_spans(stream, spans)
}

/// Chunks delivered in order, numbered on from `seq` and `first`, each after
/// the one before.
pub open spec fn queue_ok(q: Seq<FeatureChunk>, qs: Seq<Seq<(int, int)>>, stream: Seq<u8>, seq: int, first: int, after: int) -> bool
    decreases q.len(),
{
    if q.len() == 0 {
        qs.len() == 0
    } else {
        qs.len() == q.len() && chunk_ok(q[0], qs[0], stream, seq, first, after) && queue_ok(
            q.drop_first(),
            qs.drop_first(),
            stream,
            seq + 1,
            first + q[0].features,
            qs[0].last().1,
        )
    }
}

/// The sequence number, first feature and stream offset after a queue.
pub open spec fn queue_next(q: Seq<FeatureChunk>, qs: Seq<Seq<(int, int)>>, seq: int, first: int, after: int) -> (int, int, int)
    decreases q.len(),
{
    if q.len() == 0 {
        (seq, first, after)
    } else {
        queue_next(q.drop_first(), qs.drop_first(), seq + 1, first + q[0].features, qs[0].last().1)
    }
}

/// A chunk that follows a queue may be added at its end.
pub proof fn lemma_queue_push(
    q: Seq<FeatureChunk>,
    qs: Seq<Seq<(int, int)>>,
    stream: Seq<u8>,
    seq: int,
    first: int,
    after: int,
    c: FeatureChunk,
    cs: Seq<(int, int)>,
)
    requires
        queue_ok(q, qs, stream, seq, first, after),
        chunk_ok(
            c,
            cs,
            stream,
            queue_next(q, qs, seq, first, after).0,
            queue_next(q, qs, seq, first, after).1,
            queue_next(q, qs, seq, first, after).2,
        ),
    ensures
        queue_ok(q.push(c), qs.push(cs), stream, seq, first, after),
        queue_next(q.push(c), qs.push(cs), seq, first, after) == (
            queue_next(q, qs, seq, first, after).0 + 1,
            queue_next(q, qs, seq, first, after).1 + c.features,
            cs.last().1,
        ),
    decreases q.len(),
{
    if q.len() == 0 {
        assert(q.push(c).drop_first() =~= Seq::<FeatureChunk>::empty());
        assert(qs.push(cs).drop_first() =~= Seq::<Seq<(int, int)>>::empty());
        assert(q.push(c)[0] == c);
        assert(qs.push(cs)[0] == cs);
        assert(queue_next(q.push(c).drop_first(), qs.push(cs).drop_first(), seq + 1, first + c.features, cs.last().1) == (seq + 1, first + c.features, cs.last().1));
        assert(qs.len() == 0);
        assert(chunk_ok(c, cs, stream, seq, first, after));
        assert(queue_ok(q.push(c).drop_first(), qs.push(cs).drop_first(), stream, seq + 1, first + c.features, cs.last().1));
    } else {
        assert(q.push(c).drop_first() =~= q.drop_first().push(c));
        assert(qs.push(cs).drop_first() =~= qs.drop_first().push(cs));
        assert(q.push(c)[0] == q[0]);
        assert(qs.push(cs)[0] == qs[0]);
        lemma_queue_push(q.drop_first(), qs.drop_first(), stream, seq + 1, first + q[0].features, qs[0].last().1, c, cs);
    }
}

/// Bytes within a stream stay as they are when the stream grows.
pub proof fn lemma_concat_extend(stream: Seq<u8>, more: Seq<u8>, spans: Seq<(int, int)>, after: int)
    requires
        spans_ok(stream, spans, after),
    ensures
        spans_ok(stream + more, spans, after),
        concat_spans(stream + more, spans) == concat_spans(stream, spans),
    decreases spans.len(),
{
    if spans.len() > 0 {
        let last = spans.last();
        assert(spans_ok(stream, spans.drop_last(), after));
        lemma_concat_extend(stream, more, spans.drop_last(), after);
        assert((stream + more).subrange(last.0, last.1) =~= stream.subrange(last.0, last.1));
    }
}

/// A queue stays well formed when the stream grows.
pub proof fn lemma_queue_extend(
    q: Seq<FeatureChunk>,
    qs: Seq<Seq<(int, int)>>,
    stream: Seq<u8>,
    more: Seq<u8>,
    seq: int,
    first: int,
    after: int,
)
    requires
        queue_ok(q, qs, stream, seq, first, after),
    ensures
        queue_ok(q, qs, stream + more, seq, first, after),
    decreases q.len(),
{
    if q.len() > 0 {
        lemma_concat_extend(stream, more, qs[0], after);
        lemma_queue_extend(q.drop_first(), qs.drop_first(), stream, more, seq + 1, first + q[0].features, qs[0].last().1);
    }
}

/// Each span holds at least one byte, so there are no more spans than the
/// offset where they end.
pub proof fn lemma_spans_count(stream: Seq<u8>, spans: Seq<(int, int)>, after: int)
    requires
        spans_ok(stream, spans, after),
        0 <= after,
    ensures
        after + spans.len() <= spans_end(spans, after),
    decreases spans.len(),
{
    if spans.len() > 0 {
        assert(spans_ok(stream, spans.drop_last(), after));
        lemma_spans_count(stream, spans.drop_last(), after);
    }
}

/// The first chunk of a well-formed queue is well formed, and the rest of
/// the queue follows it.
pub proof fn lemma_queue_order(q: Seq<FeatureChunk>, qs: Seq<Seq<(int, int)>>, stream: Seq<u8>, seq: int, first: int, after: int)
    requires
        queue_ok(q, qs, stream, seq, first, after),
        q.len() > 0,
        0 <= seq <= first <= after,
    ensures
        chunk_ok(q[0], qs[0], stream, seq, first, after),
        queue_ok(q.drop_first(), qs.drop_first(), stream, seq + 1, first + q[0].features, qs[0].last().1),
        queue_next(q.drop_first(), qs.drop_first(), seq + 1, first + q[0].features, qs[0].last().1) == queue_next(
            q,
            qs,
            seq,
            first,
            after,
        ),
        seq + 1 <= first + q[0].features <= qs[0].last().1,
{
    lemma_spans_count(stream, qs[0], after);
}

} // verus!
