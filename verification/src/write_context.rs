//! The interning tables shared by the writer's passes: every distinct value
//! and every distinct key/value pair of a log, in first-seen document
//! order. The position of an entry is its wire index.
use vstd::prelude::*;

use crate::models::{BxesEvent, BxesEventLog, BxesTraceVariant, BxesValue, BxesValueView, Lifecycle};
use crate::walk::{
    first_index, intern_pair, intern_value, lemma_first_index_unique, lemma_walk_attr_step,
    lemma_walk_attrs_app, lemma_walk_events_app, lemma_walk_pairs_app, lemma_walk_values_app,
    lemma_walk_variants_app, log_pairs, log_values, walk_attrs, walk_event, walk_events,
    walk_log, walk_pairs, walk_values, walk_variant, walk_variants, WalkItem,
};

verus! {

/// The two interning tables. Entries are kept in first-seen order and are
/// never removed, so an entry's position is its index on the wire.
pub struct BxesWriteContext {
    pub values_indices: Vec<BxesValue>,
    pub kv_indices: Vec<(BxesValue, BxesValue)>,
}

impl BxesWriteContext {
    /// The values table as a sequence of value models.
    pub open spec fn values_view(&self) -> Seq<BxesValueView> {
        self.values_indices.deep_view()
    }

    /// The pairs table as a sequence of pairs of value models.
    pub open spec fn pairs_view(&self) -> Seq<(BxesValueView, BxesValueView)> {
        self.kv_indices.deep_view()
    }

    /// A context with no interned entries.
    pub fn empty() -> (r: Self)
        ensures
            r.values_view() == Seq::<BxesValueView>::empty(),
            r.pairs_view() == Seq::<(BxesValueView, BxesValueView)>::empty(),
    {
        let r = Self { values_indices: Vec::new(), kv_indices: Vec::new() };
        proof {
            assert(r.values_view() =~= Seq::<BxesValueView>::empty());
            assert(r.pairs_view() =~= Seq::<(BxesValueView, BxesValueView)>::empty());
        }
        r
    }

    /// The tables of a whole log: its distinct values and pairs in
    /// first-seen document order.
    pub fn new(log: &BxesEventLog) -> (r: Self)
        ensures
            r.values_view() == log_values(log@),
            r.pairs_view() == log_pairs(log@),
    {
        let mut ctx = Self::empty();
        intern_log(&mut ctx, log);
        ctx
    }
}

/// Whether the values table already holds `x`.
pub fn contains_value(vals: &Vec<BxesValue>, x: &BxesValue) -> (r: bool)
    ensures
        r == vals.deep_view().contains(x@),
{
    let mut i: usize = 0;
    while i < vals.len()
        invariant
            i <= vals.len(),
            forall|j: int| 0 <= j < i ==> vals.deep_view()[j] != x@,
        decreases vals.len() - i,
    {
        let vi = &vals[i];
        if *vi == *x {
            proof {
                assert(vals.deep_view()[i as int] == x@);
            }
            return true;
        }
        i = i + 1;
    }
    proof {
        if vals.deep_view().contains(x@) {
            let k = choose|k: int| 0 <= k < vals.deep_view().len() && vals.deep_view()[k] == x@;
            assert(false);
        }
    }
    false
}

/// The wire index of `x` in the values table: its first occurrence.
pub fn find_value_index(vals: &Vec<BxesValue>, x: &BxesValue) -> (r: usize)
    requires
        vals.deep_view().contains(x@),
    ensures
        r == first_index(vals.deep_view(), x@),
        r < vals.len(),
{
    let mut i: usize = 0;
    loop
        invariant
            i <= vals.len(),
            vals.deep_view().contains(x@),
            forall|j: int| 0 <= j < i ==> vals.deep_view()[j] != x@,
        decreases vals.len() - i,
    {
        if i >= vals.len() {
            proof {
                let k = choose|k: int|
                    0 <= k < vals.deep_view().len() && vals.deep_view()[k] == x@;
                assert(false);
            }
        } else {
            let vi = &vals[i];
            if *vi == *x {
                proof {
                    lemma_first_index_unique(vals.deep_view(), x@, i as int);
                }
                return i;
            }
            i = i + 1;
        }
    }
}

/// Whether the pairs table already holds `(k, v)`.
pub fn contains_pair(
    ps: &Vec<(BxesValue, BxesValue)>,
    k: &BxesValue,
    v: &BxesValue,
) -> (r: bool)
    ensures
        r == ps.deep_view().contains((k@, v@)),
{
    let mut i: usize = 0;
    while i < ps.len()
        invariant
            i <= ps.len(),
            forall|j: int| 0 <= j < i ==> ps.deep_view()[j] != (k@, v@),
        decreases ps.len() - i,
    {
        let pi = &ps[i];
        if pi.0 == *k && pi.1 == *v {
            proof {
                assert(ps.deep_view()[i as int] == (k@, v@));
            }
            return true;
        }
        i = i + 1;
    }
    proof {
        if ps.deep_view().contains((k@, v@)) {
            let j = choose|j: int| 0 <= j < ps.deep_view().len() && ps.deep_view()[j] == (k@, v@);
            assert(false);
        }
    }
    false
}

/// The wire index of `(k, v)` in the pairs table: its first occurrence.
pub fn find_pair_index(
    ps: &Vec<(BxesValue, BxesValue)>,
    k: &BxesValue,
    v: &BxesValue,
) -> (r: usize)
    requires
        ps.deep_view().contains((k@, v@)),
    ensures
        r == first_index(ps.deep_view(), (k@, v@)),
        r < ps.len(),
{
    let mut i: usize = 0;
    loop
        invariant
            i <= ps.len(),
            ps.deep_view().contains((k@, v@)),
            forall|j: int| 0 <= j < i ==> ps.deep_view()[j] != (k@, v@),
        decreases ps.len() - i,
    {
        if i >= ps.len() {
            proof {
                let j = choose|j: int|
                    0 <= j < ps.deep_view().len() && ps.deep_view()[j] == (k@, v@);
                assert(false);
            }
        } else {
            let pi = &ps[i];
            if pi.0 == *k && pi.1 == *v {
                proof {
                    lemma_first_index_unique(ps.deep_view(), (k@, v@), i as int);
                }
                return i;
            }
            i = i + 1;
        }
    }
}

/// Intern one value occurrence.
fn intern_one_value(ctx: &mut BxesWriteContext, v: &BxesValue)
    ensures
        final(ctx).values_view() == intern_value(old(ctx).values_view(), v@),
        final(ctx).pairs_view() == old(ctx).pairs_view(),
{
    if !contains_value(&ctx.values_indices, v) {
        let ghost before = ctx.values_indices.deep_view();
        ctx.values_indices.push(v.clone());
        proof {
            assert(ctx.values_indices.deep_view() =~= before.push(v@));
        }
    }
}

/// Intern one pair occurrence.
fn intern_one_pair(ctx: &mut BxesWriteContext, k: &BxesValue, v: &BxesValue)
    ensures
        final(ctx).pairs_view() == intern_pair(old(ctx).pairs_view(), (k@, v@)),
        final(ctx).values_view() == old(ctx).values_view(),
{
    if !contains_pair(&ctx.kv_indices, k, v) {
        let ghost before = ctx.kv_indices.deep_view();
        ctx.kv_indices.push((k.clone(), v.clone()));
        proof {
            assert(ctx.kv_indices.deep_view() =~= before.push((k@, v@)));
        }
    }
}

/// Intern every key, value and pair of one attribute list, in order.
fn intern_attrs(ctx: &mut BxesWriteContext, attrs: &Vec<(BxesValue, BxesValue)>)
    ensures
        final(ctx).values_view() == walk_values(
            old(ctx).values_view(),
            walk_attrs(attrs.deep_view()),
        ),
        final(ctx).pairs_view() == walk_pairs(
            old(ctx).pairs_view(),
            walk_attrs(attrs.deep_view()),
        ),
{
    let ghost base_vals = ctx.values_view();
    let ghost base_pairs = ctx.pairs_view();
    let ghost attrs_v = attrs.deep_view();
    let mut i: usize = 0;
    while i < attrs.len()
        invariant
            i <= attrs.len(),
            attrs_v == attrs.deep_view(),
            ctx.values_view() == walk_values(base_vals, walk_attrs(attrs_v.take(i as int))),
            ctx.pairs_view() == walk_pairs(base_pairs, walk_attrs(attrs_v.take(i as int))),
        decreases attrs.len() - i,
    {
        let a = &attrs[i];
        proof {
            assert(attrs_v[i as int] == (a.0@, a.1@));
            assert(attrs_v.take(i as int) + seq![attrs_v[i as int]] =~= attrs_v.take(
                i as int + 1,
            ));
            lemma_walk_attrs_app(attrs_v.take(i as int), seq![attrs_v[i as int]]);
            lemma_walk_values_app(
                base_vals,
                walk_attrs(attrs_v.take(i as int)),
                walk_attrs(seq![attrs_v[i as int]]),
            );
            lemma_walk_pairs_app(
                base_pairs,
                walk_attrs(attrs_v.take(i as int)),
                walk_attrs(seq![attrs_v[i as int]]),
            );
            lemma_walk_attr_step(ctx.values_view(), ctx.pairs_view(), attrs_v[i as int]);
        }
        intern_one_value(ctx, &a.0);
        intern_one_value(ctx, &a.1);
        intern_one_pair(ctx, &a.0, &a.1);
        i = i + 1;
    }
    proof {
        assert(attrs_v.take(attrs.len() as int) =~= attrs_v);
    }
}

/// Intern an optional attribute list; absence interns nothing.
fn intern_opt_attrs(ctx: &mut BxesWriteContext, attrs: &Option<Vec<(BxesValue, BxesValue)>>)
    ensures
        final(ctx).values_view() == walk_values(
            old(ctx).values_view(),
            walk_attrs(crate::models::opt_attrs(attrs.deep_view())),
        ),
        final(ctx).pairs_view() == walk_pairs(
            old(ctx).pairs_view(),
            walk_attrs(crate::models::opt_attrs(attrs.deep_view())),
        ),
{
    match attrs {
        Option::Some(list) => {
            intern_attrs(ctx, list);
        },
        Option::None => {
            proof {
                assert(walk_attrs(crate::models::opt_attrs(attrs.deep_view()))
                    =~= Seq::<WalkItem>::empty());
            }
        },
    }
}

/// Intern an event: its name, its lifecycle carried as a value, then its
/// attributes.
fn intern_event(ctx: &mut BxesWriteContext, e: &BxesEvent)
    ensures
        final(ctx).values_view() == walk_values(old(ctx).values_view(), walk_event(e@)),
        final(ctx).pairs_view() == walk_pairs(old(ctx).pairs_view(), walk_event(e@)),
{
    let ghost base_vals = ctx.values_view();
    let ghost base_pairs = ctx.pairs_view();
    let lifecycle_value = match &e.lifecycle {
        Lifecycle::Braf(b) => BxesValue::BrafLifecycle(*b),
        Lifecycle::Standard(s) => BxesValue::StandardLifecycle(*s),
    };
    proof {
        reveal_with_fuel(walk_values, 3);
        reveal_with_fuel(walk_pairs, 3);
        let head = seq![
            WalkItem::Val(e@.name),
            WalkItem::Val(crate::models::lifecycle_view(e@.lifecycle)),
        ];
        lemma_walk_values_app(
            base_vals,
            head,
            walk_attrs(crate::models::opt_attrs(e@.attributes)),
        );
        lemma_walk_pairs_app(
            base_pairs,
            head,
            walk_attrs(crate::models::opt_attrs(e@.attributes)),
        );
        assert(head.drop_first() =~= seq![
            WalkItem::Val(crate::models::lifecycle_view(e@.lifecycle)),
        ]);
        assert(head.drop_first().drop_first() =~= Seq::<WalkItem>::empty());
        assert(walk_values(base_vals, head) == intern_value(
            intern_value(base_vals, e@.name),
            crate::models::lifecycle_view(e@.lifecycle),
        ));
        assert(walk_pairs(base_pairs, head) == base_pairs);
        assert(lifecycle_value@ == crate::models::lifecycle_view(e@.lifecycle));
    }
    intern_one_value(ctx, &e.name);
    intern_one_value(ctx, &lifecycle_value);
    intern_opt_attrs(ctx, &e.attributes);
}

/// Intern the events of one variant, in order.
fn intern_events(ctx: &mut BxesWriteContext, events: &Vec<BxesEvent>)
    ensures
        final(ctx).values_view() == walk_values(
            old(ctx).values_view(),
            walk_events(events.deep_view()),
        ),
        final(ctx).pairs_view() == walk_pairs(
            old(ctx).pairs_view(),
            walk_events(events.deep_view()),
        ),
{
    let ghost base_vals = ctx.values_view();
    let ghost base_pairs = ctx.pairs_view();
    let ghost events_v = events.deep_view();
    let mut i: usize = 0;
    while i < events.len()
        invariant
            i <= events.len(),
            events_v == events.deep_view(),
            ctx.values_view() == walk_values(base_vals, walk_events(events_v.take(i as int))),
            ctx.pairs_view() == walk_pairs(base_pairs, walk_events(events_v.take(i as int))),
        decreases events.len() - i,
    {
        proof {
            assert(events_v[i as int] == events[i as int]@);
            assert(events_v.take(i as int) + seq![events_v[i as int]] =~= events_v.take(
                i as int + 1,
            ));
            lemma_walk_events_app(events_v.take(i as int), seq![events_v[i as int]]);
            lemma_walk_values_app(
                base_vals,
                walk_events(events_v.take(i as int)),
                walk_events(seq![events_v[i as int]]),
            );
            lemma_walk_pairs_app(
                base_pairs,
                walk_events(events_v.take(i as int)),
                walk_events(seq![events_v[i as int]]),
            );
            reveal_with_fuel(walk_events, 2);
            let single = seq![events_v[i as int]];
            assert(single.drop_first() =~= Seq::<crate::models::BxesEventView>::empty());
            assert(walk_events(single) =~= walk_event(events_v[i as int]) + Seq::<
                WalkItem,
            >::empty());
            assert(walk_events(single) =~= walk_event(events_v[i as int]));
        }
        intern_event(ctx, &events[i]);
        i = i + 1;
    }
    proof {
        assert(events_v.take(events.len() as int) =~= events_v);
    }
}

/// Intern everything a whole log mentions, in document order.
fn intern_log(ctx: &mut BxesWriteContext, log: &BxesEventLog)
    ensures
        final(ctx).values_view() == walk_values(old(ctx).values_view(), walk_log(log@)),
        final(ctx).pairs_view() == walk_pairs(old(ctx).pairs_view(), walk_log(log@)),
{
    let ghost base_vals = ctx.values_view();
    let ghost base_pairs = ctx.pairs_view();
    proof {
        lemma_walk_values_app(
            base_vals,
            walk_attrs(crate::models::opt_attrs(log@.metadata)),
            walk_variants(log@.variants),
        );
        lemma_walk_pairs_app(
            base_pairs,
            walk_attrs(crate::models::opt_attrs(log@.metadata)),
            walk_variants(log@.variants),
        );
    }
    intern_opt_attrs(ctx, &log.metadata);
    let ghost mid_vals = ctx.values_view();
    let ghost mid_pairs = ctx.pairs_view();
    let ghost variants_v = log.variants.deep_view();
    let mut i: usize = 0;
    while i < log.variants.len()
        invariant
            i <= log.variants.len(),
            variants_v == log.variants.deep_view(),
            ctx.values_view() == walk_values(mid_vals, walk_variants(variants_v.take(i as int))),
            ctx.pairs_view() == walk_pairs(mid_pairs, walk_variants(variants_v.take(i as int))),
        decreases log.variants.len() - i,
    {
        proof {
            assert(variants_v[i as int] == log.variants[i as int]@);
            assert(variants_v.take(i as int) + seq![variants_v[i as int]] =~= variants_v.take(
                i as int + 1,
            ));
            lemma_walk_variants_app(variants_v.take(i as int), seq![variants_v[i as int]]);
            lemma_walk_values_app(
                mid_vals,
                walk_variants(variants_v.take(i as int)),
                walk_variants(seq![variants_v[i as int]]),
            );
            lemma_walk_pairs_app(
                mid_pairs,
                walk_variants(variants_v.take(i as int)),
                walk_variants(seq![variants_v[i as int]]),
            );
            reveal_with_fuel(walk_variants, 2);
            let single = seq![variants_v[i as int]];
            assert(single.drop_first() =~= Seq::<crate::models::BxesTraceVariantView>::empty());
            assert(walk_variants(single) =~= walk_variant(variants_v[i as int]) + Seq::<
                WalkItem,
            >::empty());
            assert(walk_variants(single) =~= walk_variant(variants_v[i as int]));
        }
        intern_events(ctx, &log.variants[i].events);
        i = i + 1;
    }
    proof {
        assert(variants_v.take(log.variants.len() as int) =~= variants_v);
    }
}

} // verus!
