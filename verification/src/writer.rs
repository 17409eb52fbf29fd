//! The streaming encoder: emits version, values, pairs, metadata and
//! variants, in that order, into a byte vector. Counts are written from the
//! interning tables, which are computed before emission; the stream that
//! comes out is exactly [`encode_log`] of the log.
use vstd::prelude::*;

use vstd::bytes::{u32_to_le_bytes, u64_to_le_bytes};

use crate::models::{
    BrafLifecycle, BxesEvent, BxesEventLog, BxesValue, BxesValueView, Lifecycle,
    StandardLifecycle, braf_ordinal, standard_ordinal,
};
use crate::spec_format::{
    encodable, encode_attr_refs, encode_attrs_block, encode_event, encode_events_list,
    encode_lifecycle, encode_log, encode_metadata_section, encode_pair, encode_pairs_list,
    encode_pairs_section, encode_value, encode_values_list, encode_values_section,
    encode_variant, encode_variants_list, encode_variants_section, i64le, lemma_attr_refs_app,
    lemma_events_list_app, lemma_pairs_list_app, lemma_values_list_app, lemma_variants_list_app,
    u32le, u64le,
};
use crate::type_ids::{TypeIds, get_type_id_byte};
use crate::walk::{
    first_index, lemma_log_event_interned, lemma_log_metadata_interned, lemma_log_tables,
    log_pairs, log_values,
};
use crate::write_context::{BxesWriteContext, find_pair_index, find_value_index};

verus! {

broadcast use vstd::slice::group_slice_axioms;

/// Append a u32, little-endian, with no tag byte.
pub fn try_write_u32_no_type_id(out: &mut Vec<u8>, value: u32)
    ensures
        final(out)@ == old(out)@ + u32le(value),
{
    let mut b = u32_to_le_bytes(value);
    out.append(&mut b);
}

/// Append a u64, little-endian, with no tag byte.
pub fn try_write_u64_no_type_id(out: &mut Vec<u8>, value: u64)
    ensures
        final(out)@ == old(out)@ + u64le(value),
{
    let mut b = u64_to_le_bytes(value);
    out.append(&mut b);
}

/// Append an i64 as its little-endian two's-complement bit pattern.
pub fn try_write_i64_no_type_id(out: &mut Vec<u8>, value: i64)
    ensures
        final(out)@ == old(out)@ + i64le(value),
{
    let bits: u64 = #[verifier::truncate] (value as u64);
    let mut b = u64_to_le_bytes(bits);
    out.append(&mut b);
}

/// Append one byte.
pub fn try_write_u8_no_type_id(out: &mut Vec<u8>, value: u8)
    ensures
        final(out)@ == old(out)@ + seq![value],
{
    let ghost before = out@;
    out.push(value);
    proof {
        assert(out@ =~= before + seq![value]);
    }
}

/// The version header: a bare u32.
pub fn try_write_version(out: &mut Vec<u8>, version: u32)
    ensures
        final(out)@ == old(out)@ + u32le(version),
{
    try_write_u32_no_type_id(out, version);
}

pub fn try_write_i32(out: &mut Vec<u8>, value: i32)
    ensures
        final(out)@ == old(out)@ + encode_value(BxesValueView::Int32(value)),
{
    let ghost before = out@;
    try_write_u8_no_type_id(out, get_type_id_byte(TypeIds::I32));
    try_write_u32_no_type_id(out, #[verifier::truncate] (value as u32));
    proof {
        assert(out@ =~= before + encode_value(BxesValueView::Int32(value)));
    }
}

pub fn try_write_i64(out: &mut Vec<u8>, value: i64)
    ensures
        final(out)@ == old(out)@ + encode_value(BxesValueView::Int64(value)),
{
    let ghost before = out@;
    try_write_u8_no_type_id(out, get_type_id_byte(TypeIds::I64));
    try_write_i64_no_type_id(out, value);
    proof {
        assert(out@ =~= before + encode_value(BxesValueView::Int64(value)));
    }
}

pub fn try_write_u32(out: &mut Vec<u8>, value: u32)
    ensures
        final(out)@ == old(out)@ + encode_value(BxesValueView::Uint32(value)),
{
    let ghost before = out@;
    try_write_u8_no_type_id(out, get_type_id_byte(TypeIds::U32));
    try_write_u32_no_type_id(out, value);
    proof {
        assert(out@ =~= before + encode_value(BxesValueView::Uint32(value)));
    }
}

pub fn try_write_u64(out: &mut Vec<u8>, value: u64)
    ensures
        final(out)@ == old(out)@ + encode_value(BxesValueView::Uint64(value)),
{
    let ghost before = out@;
    try_write_u8_no_type_id(out, get_type_id_byte(TypeIds::U64));
    try_write_u64_no_type_id(out, value);
    proof {
        assert(out@ =~= before + encode_value(BxesValueView::Uint64(value)));
    }
}

/// A 32-bit float value, given as its IEEE-754 bit pattern.
pub fn try_write_f32(out: &mut Vec<u8>, bits: u32)
    ensures
        final(out)@ == old(out)@ + encode_value(BxesValueView::Float32(bits)),
{
    let ghost before = out@;
    try_write_u8_no_type_id(out, get_type_id_byte(TypeIds::F32));
    try_write_u32_no_type_id(out, bits);
    proof {
        assert(out@ =~= before + encode_value(BxesValueView::Float32(bits)));
    }
}

/// A 64-bit float value, given as its IEEE-754 bit pattern.
pub fn try_write_f64(out: &mut Vec<u8>, bits: u64)
    ensures
        final(out)@ == old(out)@ + encode_value(BxesValueView::Float64(bits)),
{
    let ghost before = out@;
    try_write_u8_no_type_id(out, get_type_id_byte(TypeIds::F64));
    try_write_u64_no_type_id(out, bits);
    proof {
        assert(out@ =~= before + encode_value(BxesValueView::Float64(bits)));
    }
}

pub fn try_write_bool(out: &mut Vec<u8>, value: bool)
    ensures
        final(out)@ == old(out)@ + encode_value(BxesValueView::Bool(value)),
{
    let ghost before = out@;
    try_write_u8_no_type_id(out, get_type_id_byte(TypeIds::Bool));
    try_write_u8_no_type_id(out, if value { 1 } else { 0 });
    proof {
        assert(out@ =~= before + encode_value(BxesValueView::Bool(value)));
    }
}

/// A string value: tag, u64 byte length, UTF-8 bytes.
pub fn try_write_string(out: &mut Vec<u8>, value: &String)
    ensures
        final(out)@ == old(out)@ + encode_value(BxesValueView::Str(value@)),
{
    let ghost before = out@;
    try_write_u8_no_type_id(out, get_type_id_byte(TypeIds::String));
    let bytes: &[u8] = value.as_str().as_bytes();
    try_write_u64_no_type_id(out, bytes.len() as u64);
    let mut payload = vstd::slice::slice_to_vec(bytes);
    out.append(&mut payload);
    proof {
        assert(out@ =~= before + encode_value(BxesValueView::Str(value@)));
    }
}

pub fn try_write_timestamp(out: &mut Vec<u8>, value: i64)
    ensures
        final(out)@ == old(out)@ + encode_value(BxesValueView::Timestamp(value)),
{
    let ghost before = out@;
    try_write_u8_no_type_id(out, get_type_id_byte(TypeIds::Timestamp));
    try_write_i64_no_type_id(out, value);
    proof {
        assert(out@ =~= before + encode_value(BxesValueView::Timestamp(value)));
    }
}

pub fn try_write_braf_lifecycle(out: &mut Vec<u8>, value: &BrafLifecycle)
    ensures
        final(out)@ == old(out)@ + encode_value(BxesValueView::BrafLifecycle(*value)),
{
    let ghost before = out@;
    try_write_u8_no_type_id(out, get_type_id_byte(TypeIds::BrafLifecycle));
    try_write_u8_no_type_id(out, braf_ordinal(value));
    proof {
        assert(out@ =~= before + encode_value(BxesValueView::BrafLifecycle(*value)));
    }
}

pub fn try_write_standard_lifecycle(out: &mut Vec<u8>, value: &StandardLifecycle)
    ensures
        final(out)@ == old(out)@ + encode_value(BxesValueView::StandardLifecycle(*value)),
{
    let ghost before = out@;
    try_write_u8_no_type_id(out, get_type_id_byte(TypeIds::StandardLifecycle));
    try_write_u8_no_type_id(out, standard_ordinal(value));
    proof {
        assert(out@ =~= before + encode_value(BxesValueView::StandardLifecycle(*value)));
    }
}

/// An event lifecycle: written as the full tagged value.
pub fn try_write_lifecycle(out: &mut Vec<u8>, lifecycle: &Lifecycle)
    ensures
        final(out)@ == old(out)@ + encode_lifecycle(*lifecycle),
{
    match lifecycle {
        Lifecycle::Braf(b) => try_write_braf_lifecycle(out, b),
        Lifecycle::Standard(s) => try_write_standard_lifecycle(out, s),
    }
}

/// Emit one value: its tag byte, then its payload.
pub fn try_write_value(value: &BxesValue, out: &mut Vec<u8>)
    ensures
        final(out)@ == old(out)@ + encode_value(value@),
{
    match value {
        BxesValue::Int32(x) => try_write_i32(out, *x),
        BxesValue::Int64(x) => try_write_i64(out, *x),
        BxesValue::Uint32(x) => try_write_u32(out, *x),
        BxesValue::Uint64(x) => try_write_u64(out, *x),
        BxesValue::Float32(x) => try_write_f32(out, *x),
        BxesValue::Float64(x) => try_write_f64(out, *x),
        BxesValue::String(s) => try_write_string(out, s),
        BxesValue::Bool(b) => try_write_bool(out, *b),
        BxesValue::Timestamp(x) => try_write_timestamp(out, *x),
        BxesValue::BrafLifecycle(l) => try_write_braf_lifecycle(out, l),
        BxesValue::StandardLifecycle(l) => try_write_standard_lifecycle(out, l),
    }
}

/// Emit the values section: count, then every interned value in order.
pub fn try_write_values(ctx: &BxesWriteContext, out: &mut Vec<u8>)
    requires
        ctx.values_view().len() <= u32::MAX,
    ensures
        final(out)@ == old(out)@ + encode_values_section(ctx.values_view()),
{
    let ghost base = out@;
    let ghost vs = ctx.values_view();
    let n: usize = ctx.values_indices.len();
    try_write_u32_no_type_id(out, n as u32);
    let mut i: usize = 0;
    while i < n
        invariant
            n == ctx.values_indices.len(),
            vs == ctx.values_view(),
            i <= n,
            out@ == base + u32le(vs.len() as u32) + encode_values_list(vs.take(i as int)),
        decreases n - i,
    {
        proof {
            assert(vs.take(i as int) + seq![vs[i as int]] =~= vs.take(i as int + 1));
            lemma_values_list_app(vs.take(i as int), seq![vs[i as int]]);
            reveal_with_fuel(encode_values_list, 2);
            assert(seq![vs[i as int]].drop_first() =~= Seq::<BxesValueView>::empty());
            assert(encode_values_list(seq![vs[i as int]]) =~= encode_value(vs[i as int]));
        }
        try_write_value(&ctx.values_indices[i], out);
        proof {
            assert(out@ =~= base + u32le(vs.len() as u32) + encode_values_list(
                vs.take(i as int + 1),
            ));
        }
        i = i + 1;
    }
    proof {
        assert(vs.take(n as int) =~= vs);
        assert(out@ =~= base + encode_values_section(vs));
    }
}

/// Emit the pairs section: count, then each pair as two value indices.
pub fn try_write_key_values(ctx: &BxesWriteContext, out: &mut Vec<u8>)
    requires
        ctx.values_view().len() <= u32::MAX,
        ctx.pairs_view().len() <= u32::MAX,
        forall|k: int|
            0 <= k < ctx.pairs_view().len() ==> ctx.values_view().contains(
                (#[trigger] ctx.pairs_view()[k]).0,
            ) && ctx.values_view().contains(ctx.pairs_view()[k].1),
    ensures
        final(out)@ == old(out)@ + encode_pairs_section(ctx.values_view(), ctx.pairs_view()),
{
    let ghost base = out@;
    let ghost vs = ctx.values_view();
    let ghost ps = ctx.pairs_view();
    let n: usize = ctx.kv_indices.len();
    try_write_u32_no_type_id(out, n as u32);
    let mut i: usize = 0;
    while i < n
        invariant
            n == ctx.kv_indices.len(),
            vs == ctx.values_view(),
            ps == ctx.pairs_view(),
            vs.len() <= u32::MAX,
            forall|k: int|
                0 <= k < ps.len() ==> vs.contains((#[trigger] ps[k]).0) && vs.contains(ps[k].1),
            i <= n,
            out@ == base + u32le(ps.len() as u32) + encode_pairs_list(vs, ps.take(i as int)),
        decreases n - i,
    {
        let ghost before_pair = out@;
        let p = &ctx.kv_indices[i];
        proof {
            assert(ps[i as int] == (p.0@, p.1@));
        }
        let ki = find_value_index(&ctx.values_indices, &p.0);
        let vi = find_value_index(&ctx.values_indices, &p.1);
        try_write_u32_no_type_id(out, ki as u32);
        try_write_u32_no_type_id(out, vi as u32);
        proof {
            assert(ps.take(i as int) + seq![ps[i as int]] =~= ps.take(i as int + 1));
            lemma_pairs_list_app(vs, ps.take(i as int), seq![ps[i as int]]);
            reveal_with_fuel(encode_pairs_list, 2);
            assert(seq![ps[i as int]].drop_first() =~= Seq::<
                (BxesValueView, BxesValueView),
            >::empty());
            assert(encode_pairs_list(vs, seq![ps[i as int]]) =~= encode_pair(vs, ps[i as int]));
            assert(out@ =~= before_pair + encode_pair(vs, ps[i as int]));
            assert(out@ =~= base + u32le(ps.len() as u32) + encode_pairs_list(
                vs,
                ps.take(i as int + 1),
            ));
        }
        i = i + 1;
    }
    proof {
        assert(ps.take(n as int) =~= ps);
        assert(out@ =~= base + encode_pairs_section(vs, ps));
    }
}

/// Emit one attribute list: count, then the pair index of each attribute.
pub fn try_write_attributes(
    ctx: &BxesWriteContext,
    attributes: &Option<Vec<(BxesValue, BxesValue)>>,
    out: &mut Vec<u8>,
)
    requires
        ctx.pairs_view().len() <= u32::MAX,
        crate::models::opt_attrs(attributes.deep_view()).len() <= u32::MAX,
        forall|k: int|
            0 <= k < crate::models::opt_attrs(attributes.deep_view()).len()
                ==> ctx.pairs_view().contains(
                #[trigger] crate::models::opt_attrs(attributes.deep_view())[k],
            ),
    ensures
        final(out)@ == old(out)@ + encode_attrs_block(
            ctx.pairs_view(),
            crate::models::opt_attrs(attributes.deep_view()),
        ),
{
    let ghost base = out@;
    let ghost ps = ctx.pairs_view();
    let ghost attrs_v = crate::models::opt_attrs(attributes.deep_view());
    match attributes {
        Option::None => {
            try_write_u32_no_type_id(out, 0);
            proof {
                assert(attrs_v =~= Seq::<(BxesValueView, BxesValueView)>::empty());
                assert(encode_attr_refs(ps, attrs_v) =~= Seq::<u8>::empty());
                assert(out@ =~= base + encode_attrs_block(ps, attrs_v));
            }
        },
        Option::Some(list) => {
            let n: usize = list.len();
            try_write_u32_no_type_id(out, n as u32);
            let mut i: usize = 0;
            while i < n
                invariant
                    n == list.len(),
                    ps == ctx.pairs_view(),
                    attrs_v == list.deep_view(),
                    attrs_v.len() <= u32::MAX,
                    ps.len() <= u32::MAX,
                    forall|k: int| 0 <= k < attrs_v.len() ==> ps.contains(#[trigger] attrs_v[k]),
                    i <= n,
                    out@ == base + u32le(attrs_v.len() as u32) + encode_attr_refs(
                        ps,
                        attrs_v.take(i as int),
                    ),
                decreases n - i,
            {
                let ghost before_ref = out@;
                let a = &list[i];
                proof {
                    assert(attrs_v[i as int] == (a.0@, a.1@));
                }
                let pi = find_pair_index(&ctx.kv_indices, &a.0, &a.1);
                try_write_u32_no_type_id(out, pi as u32);
                proof {
                    assert(attrs_v.take(i as int) + seq![attrs_v[i as int]] =~= attrs_v.take(
                        i as int + 1,
                    ));
                    lemma_attr_refs_app(ps, attrs_v.take(i as int), seq![attrs_v[i as int]]);
                    reveal_with_fuel(encode_attr_refs, 2);
                    assert(seq![attrs_v[i as int]].drop_first() =~= Seq::<
                        (BxesValueView, BxesValueView),
                    >::empty());
                    assert(encode_attr_refs(ps, seq![attrs_v[i as int]]) =~= u32le(
                        first_index(ps, attrs_v[i as int]) as u32,
                    ));
                    assert(out@ =~= base + u32le(attrs_v.len() as u32) + encode_attr_refs(
                        ps,
                        attrs_v.take(i as int + 1),
                    ));
                }
                i = i + 1;
            }
            proof {
                assert(attrs_v.take(n as int) =~= attrs_v);
                assert(out@ =~= base + encode_attrs_block(ps, attrs_v));
            }
        },
    }
}

/// Emit the metadata section: the log's attribute list.
pub fn try_write_log_metadata(ctx: &BxesWriteContext, log: &BxesEventLog, out: &mut Vec<u8>)
    requires
        ctx.values_view() == log_values(log@),
        ctx.pairs_view() == log_pairs(log@),
        encodable(log@),
    ensures
        final(out)@ == old(out)@ + encode_metadata_section(log_pairs(log@), log@),
{
    proof {
        lemma_log_metadata_interned(log@);
    }
    try_write_attributes(ctx, &log.metadata, out);
}

/// Emit one event: name index, timestamp, lifecycle, attribute list.
pub fn try_write_event(ctx: &BxesWriteContext, event: &BxesEvent, out: &mut Vec<u8>)
    requires
        ctx.values_view().len() <= u32::MAX,
        ctx.pairs_view().len() <= u32::MAX,
        ctx.values_view().contains(event@.name),
        crate::models::opt_attrs(event@.attributes).len() <= u32::MAX,
        forall|k: int|
            0 <= k < crate::models::opt_attrs(event@.attributes).len()
                ==> ctx.pairs_view().contains(
                #[trigger] crate::models::opt_attrs(event@.attributes)[k],
            ),
    ensures
        final(out)@ == old(out)@ + encode_event(ctx.values_view(), ctx.pairs_view(), event@),
{
    let ghost base = out@;
    let ni = find_value_index(&ctx.values_indices, &event.name);
    try_write_u32_no_type_id(out, ni as u32);
    try_write_i64_no_type_id(out, event.timestamp);
    try_write_lifecycle(out, &event.lifecycle);
    try_write_attributes(ctx, &event.attributes, out);
    proof {
        assert(out@ =~= base + encode_event(ctx.values_view(), ctx.pairs_view(), event@));
    }
}

/// Emit the variants section: count, then each variant with its events.
pub fn try_write_variants(ctx: &BxesWriteContext, log: &BxesEventLog, out: &mut Vec<u8>)
    requires
        ctx.values_view() == log_values(log@),
        ctx.pairs_view() == log_pairs(log@),
        encodable(log@),
    ensures
        final(out)@ == old(out)@ + encode_variants_section(
            log_values(log@),
            log_pairs(log@),
            log@.variants,
        ),
{
    let ghost base = out@;
    let ghost vs = log_values(log@);
    let ghost ps = log_pairs(log@);
    let ghost variants_v = log@.variants;
    let n: usize = log.variants.len();
    try_write_u32_no_type_id(out, n as u32);
    let mut i: usize = 0;
    while i < n
        invariant
            n == log.variants.len(),
            ctx.values_view() == log_values(log@),
            ctx.pairs_view() == log_pairs(log@),
            vs == log_values(log@),
            ps == log_pairs(log@),
            variants_v == log@.variants,
            encodable(log@),
            i <= n,
            out@ == base + u32le(variants_v.len() as u32) + encode_variants_list(
                vs,
                ps,
                variants_v.take(i as int),
            ),
        decreases n - i,
    {
        let ghost before_variant = out@;
        let variant = &log.variants[i];
        proof {
            assert(variants_v[i as int] == variant@);
        }
        try_write_u32_no_type_id(out, variant.traces_count);
        let m: usize = variant.events.len();
        try_write_u32_no_type_id(out, m as u32);
        let ghost events_v = variant@.events;
        let mut j: usize = 0;
        while j < m
            invariant
                m == variant.events.len(),
                variant == &log.variants[i as int],
                i < n,
                n == log.variants.len(),
                ctx.values_view() == log_values(log@),
                ctx.pairs_view() == log_pairs(log@),
                vs == log_values(log@),
                ps == log_pairs(log@),
                variants_v == log@.variants,
                events_v == variant@.events,
                encodable(log@),
                j <= m,
                out@ == before_variant + u32le(variant@.traces_count) + u32le(
                    events_v.len() as u32,
                ) + encode_events_list(vs, ps, events_v.take(j as int)),
            decreases m - j,
        {
            let ghost before_event = out@;
            proof {
                assert(events_v[j as int] == variant.events[j as int]@);
                lemma_log_event_interned(log@, i as int, j as int);
            }
            try_write_event(ctx, &variant.events[j], out);
            proof {
                assert(events_v.take(j as int) + seq![events_v[j as int]] =~= events_v.take(
                    j as int + 1,
                ));
                lemma_events_list_app(vs, ps, events_v.take(j as int), seq![events_v[j as int]]);
                reveal_with_fuel(encode_events_list, 2);
                assert(seq![events_v[j as int]].drop_first() =~= Seq::<
                    crate::models::BxesEventView,
                >::empty());
                assert(encode_events_list(vs, ps, seq![events_v[j as int]]) =~= encode_event(
                    vs,
                    ps,
                    events_v[j as int],
                ));
                assert(out@ =~= before_variant + u32le(variant@.traces_count) + u32le(
                    events_v.len() as u32,
                ) + encode_events_list(vs, ps, events_v.take(j as int + 1)));
            }
            j = j + 1;
        }
        proof {
            assert(events_v.take(m as int) =~= events_v);
            assert(out@ =~= before_variant + encode_variant(vs, ps, variants_v[i as int]));
            assert(variants_v.take(i as int) + seq![variants_v[i as int]] =~= variants_v.take(
                i as int + 1,
            ));
            lemma_variants_list_app(vs, ps, variants_v.take(i as int), seq![variants_v[i as int]]);
            reveal_with_fuel(encode_variants_list, 2);
            assert(seq![variants_v[i as int]].drop_first() =~= Seq::<
                crate::models::BxesTraceVariantView,
            >::empty());
            assert(encode_variants_list(vs, ps, seq![variants_v[i as int]]) =~= encode_variant(
                vs,
                ps,
                variants_v[i as int],
            ));
            assert(out@ =~= base + u32le(variants_v.len() as u32) + encode_variants_list(
                vs,
                ps,
                variants_v.take(i as int + 1),
            ));
        }
        i = i + 1;
    }
    proof {
        assert(variants_v.take(n as int) =~= variants_v);
        assert(out@ =~= base + encode_variants_section(vs, ps, variants_v));
    }
}

/// Encode a whole log to a single byte stream.
///
/// The result is a pure function of the log, so encoding is deterministic:
/// two calls on equal logs give byte-identical output.
pub fn encode_bxes(log: &BxesEventLog) -> (r: Vec<u8>)
    requires
        encodable(log@),
    ensures
        r@ == encode_log(log@),
{
    let ctx = BxesWriteContext::new(log);
    proof {
        lemma_log_tables(log@);
        assert forall|k: int| 0 <= k < log_pairs(log@).len() implies log_values(log@).contains(
            (#[trigger] log_pairs(log@)[k]).0,
        ) && log_values(log@).contains(log_pairs(log@)[k].1) by {
            assert(log_pairs(log@).contains(log_pairs(log@)[k]));
        }
    }
    let mut out: Vec<u8> = Vec::new();
    try_write_version(&mut out, log.version);
    try_write_values(&ctx, &mut out);
    try_write_key_values(&ctx, &mut out);
    try_write_log_metadata(&ctx, log, &mut out);
    try_write_variants(&ctx, log, &mut out);
    proof {
        assert(out@ =~= encode_log(log@));
    }
    out
}

/// Encode a log as the four split-layout streams: values, key/value pairs,
/// metadata and variants, each prefixed with the same version header.
/// The four files use one consistent numbering because they are emitted
/// from the same interning tables.
pub fn encode_bxes_split(log: &BxesEventLog) -> (r: (Vec<u8>, Vec<u8>, Vec<u8>, Vec<u8>))
    requires
        encodable(log@),
    ensures
        r.0@ == u32le(log@.version) + encode_values_section(log_values(log@)),
        r.1@ == u32le(log@.version) + encode_pairs_section(log_values(log@), log_pairs(log@)),
        r.2@ == u32le(log@.version) + encode_metadata_section(log_pairs(log@), log@),
        r.3@ == u32le(log@.version) + encode_variants_section(
            log_values(log@),
            log_pairs(log@),
            log@.variants,
        ),
{
    let ctx = BxesWriteContext::new(log);
    proof {
        lemma_log_tables(log@);
        assert forall|k: int| 0 <= k < log_pairs(log@).len() implies log_values(log@).contains(
            (#[trigger] log_pairs(log@)[k]).0,
        ) && log_values(log@).contains(log_pairs(log@)[k].1) by {
            assert(log_pairs(log@).contains(log_pairs(log@)[k]));
        }
    }
    let mut values_file: Vec<u8> = Vec::new();
    try_write_version(&mut values_file, log.version);
    try_write_values(&ctx, &mut values_file);
    let mut pairs_file: Vec<u8> = Vec::new();
    try_write_version(&mut pairs_file, log.version);
    try_write_key_values(&ctx, &mut pairs_file);
    let mut metadata_file: Vec<u8> = Vec::new();
    try_write_version(&mut metadata_file, log.version);
    try_write_log_metadata(&ctx, log, &mut metadata_file);
    let mut variants_file: Vec<u8> = Vec::new();
    try_write_version(&mut variants_file, log.version);
    try_write_variants(&ctx, log, &mut variants_file);
    (values_file, pairs_file, metadata_file, variants_file)
}

} // verus!
