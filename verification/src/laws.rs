//! The structural guarantees of an encoded stream, stated and proved over
//! the wire-format model: section counts match their payloads, emitted
//! indices are in range, the interning tables have no duplicates, and
//! every key resolves to a string.
use vstd::prelude::*;

use vstd::bytes::{
    lemma_auto_spec_u32_to_from_le_bytes, lemma_auto_spec_u64_to_from_le_bytes,
    spec_u32_from_le_bytes,
};

use crate::models::{BxesEventLogView, BxesValueView, opt_attrs};
use crate::spec_format::{
    bytes_at, encodable, encode_attr_refs, encode_log, encode_metadata_section,
    encode_pairs_list, encode_pairs_section, encode_values_list, encode_values_section,
    encode_variants_section, lemma_bytes_at_split, u32le, wf_attr_entries, wf_log,
};
use crate::walk::{
    WalkItem, distinct, first_index, lemma_contains_concat, lemma_first_index_works,
    lemma_log_event_interned, lemma_log_metadata_interned, lemma_log_tables,
    lemma_walk_pairs_provenance, log_pairs, log_values, walk_attrs, walk_event, walk_events,
    walk_log, walk_variant, walk_variants,
};

verus! {

/// After encoding, the count u32 at the start of each section equals the
/// number of payload entries that follow in that section: the values count
/// is the length of the values table, the pairs count the length of the
/// pairs table, the metadata count the number of metadata attributes, and
/// the variants count the number of variants.
pub proof fn lemma_section_counts(l: BxesEventLogView)
    requires
        encodable(l),
    ensures
        ({
            let vals = log_values(l);
            let ps = log_pairs(l);
            let stream = encode_log(l);
            let pairs_off = 8 + encode_values_list(vals).len() as int;
            let metadata_off = pairs_off + 4 + encode_pairs_list(vals, ps).len() as int;
            let variants_off = metadata_off + 4 + encode_attr_refs(ps, opt_attrs(l.metadata)).len()
                as int;
            &&& spec_u32_from_le_bytes(stream.subrange(0, 4)) == l.version
            &&& spec_u32_from_le_bytes(stream.subrange(4, 8)) == vals.len()
            &&& stream.subrange(8, pairs_off) == encode_values_list(vals)
            &&& spec_u32_from_le_bytes(stream.subrange(pairs_off, pairs_off + 4)) == ps.len()
            &&& stream.subrange(pairs_off + 4, metadata_off) == encode_pairs_list(vals, ps)
            &&& spec_u32_from_le_bytes(stream.subrange(metadata_off, metadata_off + 4))
                == opt_attrs(l.metadata).len()
            &&& stream.subrange(metadata_off + 4, variants_off) == encode_attr_refs(
                ps,
                opt_attrs(l.metadata),
            )
            &&& spec_u32_from_le_bytes(stream.subrange(variants_off, variants_off + 4))
                == l.variants.len()
        }),
{
    lemma_auto_spec_u32_to_from_le_bytes();
    let vals = log_values(l);
    let ps = log_pairs(l);
    let stream = encode_log(l);
    assert(bytes_at(stream, 0, stream)) by {
        assert(stream.subrange(0, stream.len() as int) =~= stream);
    }
    lemma_bytes_at_split(
        stream,
        0,
        u32le(l.version) + encode_values_section(vals) + encode_pairs_section(vals, ps)
            + encode_metadata_section(ps, l),
        encode_variants_section(vals, ps, l.variants),
    );
    lemma_bytes_at_split(
        stream,
        0,
        u32le(l.version) + encode_values_section(vals) + encode_pairs_section(vals, ps),
        encode_metadata_section(ps, l),
    );
    lemma_bytes_at_split(
        stream,
        0,
        u32le(l.version) + encode_values_section(vals),
        encode_pairs_section(vals, ps),
    );
    lemma_bytes_at_split(stream, 0, u32le(l.version), encode_values_section(vals));
    let pairs_off = 8 + encode_values_list(vals).len() as int;
    let metadata_off = pairs_off + 4 + encode_pairs_list(vals, ps).len() as int;
    let variants_off = metadata_off + 4 + encode_attr_refs(ps, opt_attrs(l.metadata)).len()
        as int;
    lemma_bytes_at_split(stream, 4, u32le(vals.len() as u32), encode_values_list(vals));
    lemma_bytes_at_split(stream, pairs_off, u32le(ps.len() as u32), encode_pairs_list(vals, ps));
    lemma_bytes_at_split(
        stream,
        metadata_off,
        u32le(opt_attrs(l.metadata).len() as u32),
        encode_attr_refs(ps, opt_attrs(l.metadata)),
    );
    lemma_bytes_at_split(
        stream,
        variants_off,
        u32le(l.variants.len() as u32),
        crate::spec_format::encode_variants_list(vals, ps, l.variants),
    );
}

/// Every pair index emitted in the metadata or variants sections refers to
/// an entry of the pairs table: it is below the pairs count.
pub proof fn lemma_pair_indices_in_range(l: BxesEventLogView)
    ensures
        forall|k: int|
            0 <= k < opt_attrs(l.metadata).len() ==> 0 <= first_index(
                log_pairs(l),
                #[trigger] opt_attrs(l.metadata)[k],
            ) < log_pairs(l).len(),
        forall|i: int, j: int, k: int|
            0 <= i < l.variants.len() && 0 <= j < l.variants[i].events.len() && 0 <= k
                < opt_attrs(l.variants[i].events[j].attributes).len() ==> 0 <= first_index(
                log_pairs(l),
                #[trigger] opt_attrs(l.variants[i].events[j].attributes)[k],
            ) < log_pairs(l).len(),
{
    lemma_log_metadata_interned(l);
    assert forall|k: int| 0 <= k < opt_attrs(l.metadata).len() implies 0 <= first_index(
        log_pairs(l),
        #[trigger] opt_attrs(l.metadata)[k],
    ) < log_pairs(l).len() by {
        lemma_first_index_works(log_pairs(l), opt_attrs(l.metadata)[k]);
    }
    assert forall|i: int, j: int, k: int|
        0 <= i < l.variants.len() && 0 <= j < l.variants[i].events.len() && 0 <= k < opt_attrs(
            l.variants[i].events[j].attributes,
        ).len() implies 0 <= first_index(
        log_pairs(l),
        #[trigger] opt_attrs(l.variants[i].events[j].attributes)[k],
    ) < log_pairs(l).len() by {
        lemma_log_event_interned(l, i, j);
        lemma_first_index_works(log_pairs(l), opt_attrs(l.variants[i].events[j].attributes)[k]);
    }
}

/// Every value index emitted inside a pair refers to an entry of the
/// values table: it is below the values count.
pub proof fn lemma_pair_value_indices_in_range(l: BxesEventLogView)
    ensures
        forall|k: int|
            0 <= k < log_pairs(l).len() ==> 0 <= first_index(
                log_values(l),
                (#[trigger] log_pairs(l)[k]).0,
            ) < log_values(l).len() && 0 <= first_index(log_values(l), log_pairs(l)[k].1)
                < log_values(l).len(),
{
    lemma_log_tables(l);
    assert forall|k: int| 0 <= k < log_pairs(l).len() implies 0 <= first_index(
        log_values(l),
        (#[trigger] log_pairs(l)[k]).0,
    ) < log_values(l).len() && 0 <= first_index(log_values(l), log_pairs(l)[k].1) < log_values(
        l,
    ).len() by {
        assert(log_pairs(l).contains(log_pairs(l)[k]));
        lemma_first_index_works(log_values(l), log_pairs(l)[k].0);
        lemma_first_index_works(log_values(l), log_pairs(l)[k].1);
    }
}

/// The values section has no duplicates: every emitted value has a unique
/// structural identity.
pub proof fn lemma_values_have_no_duplicates(l: BxesEventLogView)
    ensures
        distinct(log_values(l)),
{
    lemma_log_tables(l);
}

/// The pairs section has no duplicates: every emitted pair has a unique
/// (key, value) identity.
pub proof fn lemma_pairs_have_no_duplicates(l: BxesEventLogView)
    ensures
        distinct(log_pairs(l)),
{
    lemma_log_tables(l);
}

/// Every pair item of the walk carries a string key.
spec fn walk_pair_keys_str(items: Seq<WalkItem>) -> bool {
    forall|k: int|
        0 <= k < items.len() && items[k] is Pair ==> (#[trigger] items[k]->Pair_0).0 is Str
}

proof fn lemma_pair_keys_concat(a: Seq<WalkItem>, b: Seq<WalkItem>)
    requires
        walk_pair_keys_str(a),
        walk_pair_keys_str(b),
    ensures
        walk_pair_keys_str(a + b),
{
    assert forall|k: int|
        0 <= k < (a + b).len() && (a + b)[k] is Pair implies (#[trigger] (a + b)[k]->Pair_0).0
        is Str by {
        if k < a.len() {
            assert((a + b)[k] == a[k]);
        } else {
            assert((a + b)[k] == b[k - a.len()]);
        }
    }
}

proof fn lemma_walk_attrs_pair_keys(attrs: Seq<(BxesValueView, BxesValueView)>)
    requires
        wf_attr_entries(attrs),
    ensures
        walk_pair_keys_str(walk_attrs(attrs)),
    decreases attrs.len(),
{
    if attrs.len() != 0 {
        let head = seq![
            WalkItem::Val(attrs[0].0),
            WalkItem::Val(attrs[0].1),
            WalkItem::Pair(attrs[0]),
        ];
        assert(walk_pair_keys_str(head)) by {
            assert(head[2]->Pair_0 == attrs[0]);
        }
        assert(wf_attr_entries(attrs.drop_first())) by {
            assert forall|k: int|
                0 <= k < attrs.drop_first().len() implies (#[trigger] attrs.drop_first()[k]).0
                is Str && crate::spec_format::wf_value(attrs.drop_first()[k].0)
                && crate::spec_format::wf_value(attrs.drop_first()[k].1) by {
                assert(attrs.drop_first()[k] == attrs[k + 1]);
            }
        }
        lemma_walk_attrs_pair_keys(attrs.drop_first());
        lemma_pair_keys_concat(head, walk_attrs(attrs.drop_first()));
    }
}

proof fn lemma_walk_events_pair_keys(events: Seq<crate::models::BxesEventView>)
    requires
        forall|j: int|
            0 <= j < events.len() ==> crate::spec_format::wf_event(#[trigger] events[j]),
    ensures
        walk_pair_keys_str(walk_events(events)),
    decreases events.len(),
{
    if events.len() != 0 {
        let head = seq![
            WalkItem::Val(events[0].name),
            WalkItem::Val(crate::models::lifecycle_view(events[0].lifecycle)),
        ];
        assert(walk_pair_keys_str(head));
        lemma_walk_attrs_pair_keys(opt_attrs(events[0].attributes));
        lemma_pair_keys_concat(head, walk_attrs(opt_attrs(events[0].attributes)));
        assert forall|j: int|
            0 <= j < events.drop_first().len() implies crate::spec_format::wf_event(
            #[trigger] events.drop_first()[j],
        ) by {
            assert(events.drop_first()[j] == events[j + 1]);
        }
        lemma_walk_events_pair_keys(events.drop_first());
        lemma_pair_keys_concat(walk_event(events[0]), walk_events(events.drop_first()));
    }
}

proof fn lemma_walk_variants_pair_keys(vs: Seq<crate::models::BxesTraceVariantView>)
    requires
        forall|i: int|
            0 <= i < vs.len() ==> crate::spec_format::wf_variant(#[trigger] vs[i]),
    ensures
        walk_pair_keys_str(walk_variants(vs)),
    decreases vs.len(),
{
    if vs.len() != 0 {
        lemma_walk_events_pair_keys(vs[0].events);
        assert forall|i: int|
            0 <= i < vs.drop_first().len() implies crate::spec_format::wf_variant(
            #[trigger] vs.drop_first()[i],
        ) by {
            assert(vs.drop_first()[i] == vs[i + 1]);
        }
        lemma_walk_variants_pair_keys(vs.drop_first());
        lemma_pair_keys_concat(walk_variant(vs[0]), walk_variants(vs.drop_first()));
    }
}

/// In a well-formed log every entry of the pairs table carries a string
/// key, and the key index of every emitted pair resolves to a
/// string-tagged value of the values table.
pub proof fn lemma_keys_resolve_to_strings(l: BxesEventLogView)
    requires
        wf_log(l),
    ensures
        forall|k: int|
            0 <= k < log_pairs(l).len() ==> (#[trigger] log_pairs(l)[k]).0 is Str && log_values(
                l,
            )[first_index(log_values(l), log_pairs(l)[k].0)] is Str,
{
    lemma_log_tables(l);
    let items = walk_log(l);
    lemma_walk_attrs_pair_keys(opt_attrs(l.metadata));
    lemma_walk_variants_pair_keys(l.variants);
    lemma_pair_keys_concat(walk_attrs(opt_attrs(l.metadata)), walk_variants(l.variants));
    lemma_walk_pairs_provenance(Seq::empty(), items);
    assert forall|k: int| 0 <= k < log_pairs(l).len() implies (#[trigger] log_pairs(l)[k]).0
        is Str && log_values(l)[first_index(log_values(l), log_pairs(l)[k].0)] is Str by {
        let p = log_pairs(l)[k];
        assert(log_pairs(l).contains(p));
        assert(items.contains(WalkItem::Pair(p)));
        let j = choose|j: int| 0 <= j < items.len() && items[j] == WalkItem::Pair(p);
        assert(items[j] is Pair && items[j]->Pair_0 == p);
        lemma_first_index_works(log_values(l), p.0);
    }
}

} // verus!
