//! The wire format, stated mathematically: what sequence of bytes a log
//! encodes to. Little-endian throughout; each section is a u32 count
//! followed by that many payloads.
use vstd::prelude::*;

use vstd::bytes::{
    spec_u32_from_le_bytes, spec_u32_to_le_bytes, spec_u64_from_le_bytes, spec_u64_to_le_bytes,
};
use vstd::utf8::encode_utf8;

use crate::models::{
    BxesEventLogView, BxesEventView, BxesTraceVariantView, BxesValueView, Lifecycle,
    lifecycle_view, opt_attrs, spec_braf_ordinal, spec_standard_ordinal,
};
use crate::type_ids::tag_of;
use crate::walk::{distinct, first_index, log_pairs, log_values};

verus! {

pub open spec fn u32le(x: u32) -> Seq<u8> {
    spec_u32_to_le_bytes(x)
}

pub open spec fn u64le(x: u64) -> Seq<u8> {
    spec_u64_to_le_bytes(x)
}

/// Signed 64-bit values travel as their two's-complement bit pattern.
pub open spec fn i64le(x: i64) -> Seq<u8> {
    spec_u64_to_le_bytes(x as u64)
}

pub open spec fn i32le(x: i32) -> Seq<u8> {
    spec_u32_to_le_bytes(x as u32)
}

pub open spec fn bool_byte(b: bool) -> u8 {
    if b {
        1
    } else {
        0
    }
}

/// The payload of a value, without its tag byte.
pub open spec fn encode_payload(v: BxesValueView) -> Seq<u8> {
    match v {
        BxesValueView::Int32(x) => i32le(x),
        BxesValueView::Int64(x) => i64le(x),
        BxesValueView::Uint32(x) => u32le(x),
        BxesValueView::Uint64(x) => u64le(x),
        BxesValueView::Float32(x) => u32le(x),
        BxesValueView::Float64(x) => u64le(x),
        BxesValueView::Str(s) => u64le(encode_utf8(s).len() as u64) + encode_utf8(s),
        BxesValueView::Bool(b) => seq![bool_byte(b)],
        BxesValueView::Timestamp(x) => i64le(x),
        BxesValueView::BrafLifecycle(l) => seq![spec_braf_ordinal(l)],
        BxesValueView::StandardLifecycle(l) => seq![spec_standard_ordinal(l)],
    }
}

/// A value on the wire: tag byte, then payload.
pub open spec fn encode_value(v: BxesValueView) -> Seq<u8> {
    seq![tag_of(v)] + encode_payload(v)
}

/// An event lifecycle on the wire: the full tagged value.
pub open spec fn encode_lifecycle(lc: Lifecycle) -> Seq<u8> {
    encode_value(lifecycle_view(lc))
}

pub open spec fn encode_values_list(vs: Seq<BxesValueView>) -> Seq<u8>
    decreases vs.len(),
{
    if vs.len() == 0 {
        Seq::empty()
    } else {
        encode_value(vs[0]) + encode_values_list(vs.drop_first())
    }
}

pub open spec fn encode_values_section(vs: Seq<BxesValueView>) -> Seq<u8> {
    u32le(vs.len() as u32) + encode_values_list(vs)
}

/// A pair on the wire: the value indices of its two halves.
pub open spec fn encode_pair(
    vals: Seq<BxesValueView>,
    p: (BxesValueView, BxesValueView),
) -> Seq<u8> {
    u32le(first_index(vals, p.0) as u32) + u32le(first_index(vals, p.1) as u32)
}

pub open spec fn encode_pairs_list(
    vals: Seq<BxesValueView>,
    ps: Seq<(BxesValueView, BxesValueView)>,
) -> Seq<u8>
    decreases ps.len(),
{
    if ps.len() == 0 {
        Seq::empty()
    } else {
        encode_pair(vals, ps[0]) + encode_pairs_list(vals, ps.drop_first())
    }
}

pub open spec fn encode_pairs_section(
    vals: Seq<BxesValueView>,
    ps: Seq<(BxesValueView, BxesValueView)>,
) -> Seq<u8> {
    u32le(ps.len() as u32) + encode_pairs_list(vals, ps)
}

/// An attribute reference: the pair index of the attribute.
pub open spec fn encode_attr_refs(
    pairs: Seq<(BxesValueView, BxesValueView)>,
    attrs: Seq<(BxesValueView, BxesValueView)>,
) -> Seq<u8>
    decreases attrs.len(),
{
    if attrs.len() == 0 {
        Seq::empty()
    } else {
        u32le(first_index(pairs, attrs[0]) as u32) + encode_attr_refs(pairs, attrs.drop_first())
    }
}

/// An attribute list: a u32 count, then one pair index per attribute.
pub open spec fn encode_attrs_block(
    pairs: Seq<(BxesValueView, BxesValueView)>,
    attrs: Seq<(BxesValueView, BxesValueView)>,
) -> Seq<u8> {
    u32le(attrs.len() as u32) + encode_attr_refs(pairs, attrs)
}

pub open spec fn encode_metadata_section(
    pairs: Seq<(BxesValueView, BxesValueView)>,
    l: BxesEventLogView,
) -> Seq<u8> {
    encode_attrs_block(pairs, opt_attrs(l.metadata))
}

/// An event: name index, timestamp, lifecycle value, attribute list.
pub open spec fn encode_event(
    vals: Seq<BxesValueView>,
    pairs: Seq<(BxesValueView, BxesValueView)>,
    e: BxesEventView,
) -> Seq<u8> {
    u32le(first_index(vals, e.name) as u32) + i64le(e.timestamp) + encode_lifecycle(e.lifecycle)
        + encode_attrs_block(pairs, opt_attrs(e.attributes))
}

pub open spec fn encode_events_list(
    vals: Seq<BxesValueView>,
    pairs: Seq<(BxesValueView, BxesValueView)>,
    events: Seq<BxesEventView>,
) -> Seq<u8>
    decreases events.len(),
{
    if events.len() == 0 {
        Seq::empty()
    } else {
        encode_event(vals, pairs, events[0]) + encode_events_list(
            vals,
            pairs,
            events.drop_first(),
        )
    }
}

/// A trace variant: multiplicity, event count, events.
pub open spec fn encode_variant(
    vals: Seq<BxesValueView>,
    pairs: Seq<(BxesValueView, BxesValueView)>,
    v: BxesTraceVariantView,
) -> Seq<u8> {
    u32le(v.traces_count) + u32le(v.events.len() as u32) + encode_events_list(
        vals,
        pairs,
        v.events,
    )
}

pub open spec fn encode_variants_list(
    vals: Seq<BxesValueView>,
    pairs: Seq<(BxesValueView, BxesValueView)>,
    vs: Seq<BxesTraceVariantView>,
) -> Seq<u8>
    decreases vs.len(),
{
    if vs.len() == 0 {
        Seq::empty()
    } else {
        encode_variant(vals, pairs, vs[0]) + encode_variants_list(vals, pairs, vs.drop_first())
    }
}

pub open spec fn encode_variants_section(
    vals: Seq<BxesValueView>,
    pairs: Seq<(BxesValueView, BxesValueView)>,
    vs: Seq<BxesTraceVariantView>,
) -> Seq<u8> {
    u32le(vs.len() as u32) + encode_variants_list(vals, pairs, vs)
}

/// The whole stream: version, values, pairs, metadata, variants.
pub open spec fn encode_log(l: BxesEventLogView) -> Seq<u8> {
    u32le(l.version) + encode_values_section(log_values(l)) + encode_pairs_section(
        log_values(l),
        log_pairs(l),
    ) + encode_metadata_section(log_pairs(l), l) + encode_variants_section(
        log_values(l),
        log_pairs(l),
        l.variants,
    )
}

/// Machine limit on a single value: a string payload must fit its u64
/// length prefix. True of every value held in memory.
pub open spec fn wf_value(v: BxesValueView) -> bool {
    v matches BxesValueView::Str(s) ==> encode_utf8(s).len() <= u64::MAX
}

/// Every key of the list is a string value, and both halves respect the
/// machine limits.
pub open spec fn wf_attr_entries(attrs: Seq<(BxesValueView, BxesValueView)>) -> bool {
    forall|k: int|
        0 <= k < attrs.len() ==> (#[trigger] attrs[k]).0 is Str && wf_value(attrs[k].0)
            && wf_value(attrs[k].1)
}

/// A well-formed optional attribute list: `Some` is reserved for non-empty
/// lists (the codec writes absence as count zero and reads count zero back
/// as absence), the count fits u32, keys are strings.
pub open spec fn wf_opt_attrs(a: Option<Seq<(BxesValueView, BxesValueView)>>) -> bool {
    &&& (a matches Option::Some(s) ==> s.len() > 0)
    &&& opt_attrs(a).len() <= u32::MAX
    &&& wf_attr_entries(opt_attrs(a))
}

pub open spec fn wf_event(e: BxesEventView) -> bool {
    &&& e.name is Str
    &&& wf_value(e.name)
    &&& wf_opt_attrs(e.attributes)
}

pub open spec fn wf_variant(v: BxesTraceVariantView) -> bool {
    &&& v.events.len() <= u32::MAX
    &&& forall|j: int| 0 <= j < v.events.len() ==> wf_event(#[trigger] v.events[j])
}

/// The section counts of the log fit their u32 prefixes. This is the only
/// demand the encoder itself makes; it holds of anything that fits in
/// memory.
pub open spec fn encodable(l: BxesEventLogView) -> bool {
    &&& log_values(l).len() <= u32::MAX
    &&& log_pairs(l).len() <= u32::MAX
    &&& l.variants.len() <= u32::MAX
    &&& opt_attrs(l.metadata).len() <= u32::MAX
    &&& forall|i: int|
        0 <= i < l.variants.len() ==> (#[trigger] l.variants[i]).events.len() <= u32::MAX
    &&& forall|i: int, j: int|
        0 <= i < l.variants.len() && 0 <= j < l.variants[i].events.len() ==> opt_attrs(
            (#[trigger] l.variants[i].events[j]).attributes,
        ).len() <= u32::MAX
}

/// A log the round-trip law speaks of: encodable, event names are strings,
/// attribute keys are strings, and no attribute list is `Some` of empty.
pub open spec fn wf_log(l: BxesEventLogView) -> bool {
    &&& encodable(l)
    &&& wf_opt_attrs(l.metadata)
    &&& forall|i: int| 0 <= i < l.variants.len() ==> wf_variant(#[trigger] l.variants[i])
}

/// `content` sits in `b` starting at position `p`.
pub open spec fn bytes_at(b: Seq<u8>, p: int, content: Seq<u8>) -> bool {
    &&& 0 <= p
    &&& p + content.len() <= b.len()
    &&& b.subrange(p, p + content.len()) == content
}

/// Splitting a match on a concatenation into matches on its halves.
pub proof fn lemma_bytes_at_split(b: Seq<u8>, p: int, x: Seq<u8>, y: Seq<u8>)
    requires
        bytes_at(b, p, x + y),
    ensures
        bytes_at(b, p, x),
        bytes_at(b, p + x.len(), y),
{
    assert(b.subrange(p, p + x.len()) =~= x) by {
        assert forall|i: int| 0 <= i < x.len() implies b.subrange(p, p + x.len())[i] == x[i] by {
            assert(b.subrange(p, p + (x + y).len())[i] == (x + y)[i]);
        }
    }
    assert(b.subrange(p + x.len(), p + x.len() + y.len()) =~= y) by {
        assert forall|i: int|
            0 <= i < y.len() implies b.subrange(p + x.len(), p + x.len() + y.len())[i] == y[i] by {
            assert(b.subrange(p, p + (x + y).len())[x.len() + i] == (x + y)[x.len() + i]);
        }
    }
}

/// List encoders turn concatenation into concatenation.
pub proof fn lemma_values_list_app(a: Seq<BxesValueView>, b: Seq<BxesValueView>)
    ensures
        encode_values_list(a + b) == encode_values_list(a) + encode_values_list(b),
    decreases a.len(),
{
    if a.len() == 0 {
        assert(a + b =~= b);
        assert(encode_values_list(a) + encode_values_list(b) =~= encode_values_list(b));
    } else {
        assert((a + b)[0] == a[0]);
        assert((a + b).drop_first() =~= a.drop_first() + b);
        lemma_values_list_app(a.drop_first(), b);
        assert(encode_value(a[0]) + (encode_values_list(a.drop_first()) + encode_values_list(b))
            =~= (encode_value(a[0]) + encode_values_list(a.drop_first())) + encode_values_list(b));
    }
}

pub proof fn lemma_pairs_list_app(
    vals: Seq<BxesValueView>,
    a: Seq<(BxesValueView, BxesValueView)>,
    b: Seq<(BxesValueView, BxesValueView)>,
)
    ensures
        encode_pairs_list(vals, a + b) == encode_pairs_list(vals, a) + encode_pairs_list(vals, b),
    decreases a.len(),
{
    if a.len() == 0 {
        assert(a + b =~= b);
        assert(encode_pairs_list(vals, a) + encode_pairs_list(vals, b) =~= encode_pairs_list(
            vals,
            b,
        ));
    } else {
        assert((a + b)[0] == a[0]);
        assert((a + b).drop_first() =~= a.drop_first() + b);
        lemma_pairs_list_app(vals, a.drop_first(), b);
        assert(encode_pair(vals, a[0]) + (encode_pairs_list(vals, a.drop_first())
            + encode_pairs_list(vals, b)) =~= (encode_pair(vals, a[0]) + encode_pairs_list(
            vals,
            a.drop_first(),
        )) + encode_pairs_list(vals, b));
    }
}

pub proof fn lemma_attr_refs_app(
    pairs: Seq<(BxesValueView, BxesValueView)>,
    a: Seq<(BxesValueView, BxesValueView)>,
    b: Seq<(BxesValueView, BxesValueView)>,
)
    ensures
        encode_attr_refs(pairs, a + b) == encode_attr_refs(pairs, a) + encode_attr_refs(pairs, b),
    decreases a.len(),
{
    if a.len() == 0 {
        assert(a + b =~= b);
        assert(encode_attr_refs(pairs, a) + encode_attr_refs(pairs, b) =~= encode_attr_refs(
            pairs,
            b,
        ));
    } else {
        assert((a + b)[0] == a[0]);
        assert((a + b).drop_first() =~= a.drop_first() + b);
        lemma_attr_refs_app(pairs, a.drop_first(), b);
        assert(u32le(first_index(pairs, a[0]) as u32) + (encode_attr_refs(pairs, a.drop_first())
            + encode_attr_refs(pairs, b)) =~= (u32le(first_index(pairs, a[0]) as u32)
            + encode_attr_refs(pairs, a.drop_first())) + encode_attr_refs(pairs, b));
    }
}

pub proof fn lemma_events_list_app(
    vals: Seq<BxesValueView>,
    pairs: Seq<(BxesValueView, BxesValueView)>,
    a: Seq<BxesEventView>,
    b: Seq<BxesEventView>,
)
    ensures
        encode_events_list(vals, pairs, a + b) == encode_events_list(vals, pairs, a)
            + encode_events_list(vals, pairs, b),
    decreases a.len(),
{
    if a.len() == 0 {
        assert(a + b =~= b);
        assert(encode_events_list(vals, pairs, a) + encode_events_list(vals, pairs, b)
            =~= encode_events_list(vals, pairs, b));
    } else {
        assert((a + b)[0] == a[0]);
        assert((a + b).drop_first() =~= a.drop_first() + b);
        lemma_events_list_app(vals, pairs, a.drop_first(), b);
        assert(encode_event(vals, pairs, a[0]) + (encode_events_list(vals, pairs, a.drop_first())
            + encode_events_list(vals, pairs, b)) =~= (encode_event(vals, pairs, a[0])
            + encode_events_list(vals, pairs, a.drop_first())) + encode_events_list(
            vals,
            pairs,
            b,
        ));
    }
}

pub proof fn lemma_variants_list_app(
    vals: Seq<BxesValueView>,
    pairs: Seq<(BxesValueView, BxesValueView)>,
    a: Seq<BxesTraceVariantView>,
    b: Seq<BxesTraceVariantView>,
)
    ensures
        encode_variants_list(vals, pairs, a + b) == encode_variants_list(vals, pairs, a)
            + encode_variants_list(vals, pairs, b),
    decreases a.len(),
{
    if a.len() == 0 {
        assert(a + b =~= b);
        assert(encode_variants_list(vals, pairs, a) + encode_variants_list(vals, pairs, b)
            =~= encode_variants_list(vals, pairs, b));
    } else {
        assert((a + b)[0] == a[0]);
        assert((a + b).drop_first() =~= a.drop_first() + b);
        lemma_variants_list_app(vals, pairs, a.drop_first(), b);
        assert(encode_variant(vals, pairs, a[0]) + (encode_variants_list(
            vals,
            pairs,
            a.drop_first(),
        ) + encode_variants_list(vals, pairs, b)) =~= (encode_variant(vals, pairs, a[0])
            + encode_variants_list(vals, pairs, a.drop_first())) + encode_variants_list(
            vals,
            pairs,
            b,
        ));
    }
}

/// The raw index pairs of the pairs section: each interned pair as the
/// wire indices of its two halves.
pub open spec fn pair_indices(
    vals: Seq<BxesValueView>,
    ps: Seq<(BxesValueView, BxesValueView)>,
) -> Seq<(u32, u32)> {
    Seq::new(
        ps.len(),
        |i: int|
            (first_index(vals, ps[i].0) as u32, first_index(vals, ps[i].1) as u32),
    )
}

/// Every value item of the walk respects the machine limits.
pub open spec fn walk_vals_wf(items: Seq<crate::walk::WalkItem>) -> bool {
    forall|k: int|
        0 <= k < items.len() && items[k] is Val ==> wf_value(#[trigger] items[k]->Val_0)
}

pub proof fn lemma_vals_wf_concat(a: Seq<crate::walk::WalkItem>, b: Seq<crate::walk::WalkItem>)
    requires
        walk_vals_wf(a),
        walk_vals_wf(b),
    ensures
        walk_vals_wf(a + b),
{
    assert forall|k: int|
        0 <= k < (a + b).len() && (a + b)[k] is Val implies wf_value(
        #[trigger] (a + b)[k]->Val_0,
    ) by {
        if k < a.len() {
            assert((a + b)[k] == a[k]);
        } else {
            assert((a + b)[k] == b[k - a.len()]);
        }
    }
}

pub proof fn lemma_walk_attrs_vals_wf(attrs: Seq<(BxesValueView, BxesValueView)>)
    requires
        wf_attr_entries(attrs),
    ensures
        walk_vals_wf(crate::walk::walk_attrs(attrs)),
    decreases attrs.len(),
{
    if attrs.len() != 0 {
        let head = seq![
            crate::walk::WalkItem::Val(attrs[0].0),
            crate::walk::WalkItem::Val(attrs[0].1),
            crate::walk::WalkItem::Pair(attrs[0]),
        ];
        assert(walk_vals_wf(head)) by {
            assert(head[0]->Val_0 == attrs[0].0);
            assert(head[1]->Val_0 == attrs[0].1);
        }
        assert(wf_attr_entries(attrs.drop_first())) by {
            assert forall|k: int|
                0 <= k < attrs.drop_first().len() implies (#[trigger] attrs.drop_first()[k]).0
                is Str && wf_value(attrs.drop_first()[k].0) && wf_value(
                attrs.drop_first()[k].1,
            ) by {
                assert(attrs.drop_first()[k] == attrs[k + 1]);
            }
        }
        lemma_walk_attrs_vals_wf(attrs.drop_first());
        lemma_vals_wf_concat(head, crate::walk::walk_attrs(attrs.drop_first()));
    }
}

pub proof fn lemma_walk_event_vals_wf(e: BxesEventView)
    requires
        wf_event(e),
    ensures
        walk_vals_wf(crate::walk::walk_event(e)),
{
    let head = seq![
        crate::walk::WalkItem::Val(e.name),
        crate::walk::WalkItem::Val(lifecycle_view(e.lifecycle)),
    ];
    assert(walk_vals_wf(head)) by {
        assert(head[0]->Val_0 == e.name);
        assert(head[1]->Val_0 == lifecycle_view(e.lifecycle));
        match e.lifecycle {
            Lifecycle::Braf(_) => {},
            Lifecycle::Standard(_) => {},
        }
    }
    lemma_walk_attrs_vals_wf(opt_attrs(e.attributes));
    lemma_vals_wf_concat(head, crate::walk::walk_attrs(opt_attrs(e.attributes)));
}

pub proof fn lemma_walk_events_vals_wf(events: Seq<BxesEventView>)
    requires
        forall|j: int| 0 <= j < events.len() ==> wf_event(#[trigger] events[j]),
    ensures
        walk_vals_wf(crate::walk::walk_events(events)),
    decreases events.len(),
{
    if events.len() != 0 {
        lemma_walk_event_vals_wf(events[0]);
        assert forall|j: int|
            0 <= j < events.drop_first().len() implies wf_event(
            #[trigger] events.drop_first()[j],
        ) by {
            assert(events.drop_first()[j] == events[j + 1]);
        }
        lemma_walk_events_vals_wf(events.drop_first());
        lemma_vals_wf_concat(
            crate::walk::walk_event(events[0]),
            crate::walk::walk_events(events.drop_first()),
        );
    }
}

pub proof fn lemma_walk_variants_vals_wf(vs: Seq<BxesTraceVariantView>)
    requires
        forall|i: int| 0 <= i < vs.len() ==> wf_variant(#[trigger] vs[i]),
    ensures
        walk_vals_wf(crate::walk::walk_variants(vs)),
    decreases vs.len(),
{
    if vs.len() != 0 {
        lemma_walk_events_vals_wf(vs[0].events);
        assert forall|i: int|
            0 <= i < vs.drop_first().len() implies wf_variant(#[trigger] vs.drop_first()[i]) by {
            assert(vs.drop_first()[i] == vs[i + 1]);
        }
        lemma_walk_variants_vals_wf(vs.drop_first());
        lemma_vals_wf_concat(
            crate::walk::walk_variant(vs[0]),
            crate::walk::walk_variants(vs.drop_first()),
        );
    }
}

/// Every interned value of a well-formed log respects the machine limits;
/// in particular every interned string fits its length prefix.
pub proof fn lemma_log_values_wf(l: BxesEventLogView)
    requires
        wf_log(l),
    ensures
        forall|k: int| 0 <= k < log_values(l).len() ==> wf_value(#[trigger] log_values(l)[k]),
{
    let items = crate::walk::walk_log(l);
    lemma_walk_attrs_vals_wf(opt_attrs(l.metadata));
    lemma_walk_variants_vals_wf(l.variants);
    lemma_vals_wf_concat(
        crate::walk::walk_attrs(opt_attrs(l.metadata)),
        crate::walk::walk_variants(l.variants),
    );
    crate::walk::lemma_walk_values_provenance(Seq::empty(), items);
    assert forall|k: int| 0 <= k < log_values(l).len() implies wf_value(
        #[trigger] log_values(l)[k],
    ) by {
        let x = log_values(l)[k];
        assert(log_values(l).contains(x));
        assert(items.contains(crate::walk::WalkItem::Val(x)));
        let j = choose|j: int|
            0 <= j < items.len() && items[j] == crate::walk::WalkItem::Val(x);
        assert(items[j] is Val && items[j]->Val_0 == x);
    }
}

/// A lifecycle value takes two bytes on the wire: tag and ordinal.
pub proof fn lemma_encode_lifecycle_len(lc: Lifecycle)
    ensures
        encode_lifecycle(lc).len() == 2,
{
    match lc {
        Lifecycle::Braf(b) => {
            assert(encode_payload(lifecycle_view(lc)) == seq![spec_braf_ordinal(b)]);
        },
        Lifecycle::Standard(s) => {
            assert(encode_payload(lifecycle_view(lc)) == seq![spec_standard_ordinal(s)]);
        },
    }
}

/// Casting a signed 64-bit value to its bit pattern and back is lossless.
pub proof fn lemma_i64_bits_roundtrip(x: i64)
    ensures
        ((x as u64) as i64) == x,
{
    assert(((x as u64) as i64) == x) by (bit_vector);
}

/// Casting a signed 32-bit value to its bit pattern and back is lossless.
pub proof fn lemma_i32_bits_roundtrip(x: i32)
    ensures
        ((x as u32) as i32) == x,
{
    assert(((x as u32) as i32) == x) by (bit_vector);
}

} // verus!
