//! The document-order walk over a log and the interning folds built on it.
//!
//! Encoding runs one conceptual walk over the log: for each attribute list
//! (log metadata first, then each variant's events in order) it yields the
//! key value, the value value, then the pair; each event contributes its
//! name value before its attributes. The values table is the fold of that
//! walk keeping each first-seen value; the pairs table keeps each first-seen
//! pair. Both passes see the same walk, which is what makes the indices of
//! the two sections consistent. An event also contributes its lifecycle,
//! carried as a value, between its name and its attributes.
use vstd::prelude::*;

use crate::models::{
    BxesEventLogView, BxesEventView, BxesTraceVariantView, BxesValueView, lifecycle_view,
    opt_attrs,
};

verus! {

/// One step of the walk: a value occurrence or a key/value pair occurrence.
pub enum WalkItem {
    Val(BxesValueView),
    Pair((BxesValueView, BxesValueView)),
}

/// The walk over one attribute list: key, value, then the pair, in order.
pub open spec fn walk_attrs(attrs: Seq<(BxesValueView, BxesValueView)>) -> Seq<WalkItem>
    decreases attrs.len(),
{
    if attrs.len() == 0 {
        Seq::empty()
    } else {
        seq![
            WalkItem::Val(attrs[0].0),
            WalkItem::Val(attrs[0].1),
            WalkItem::Pair(attrs[0]),
        ] + walk_attrs(attrs.drop_first())
    }
}

/// The walk over one event: its name, then its lifecycle carried as a
/// value, then its attributes. The lifecycle is interned like any other
/// value even though events embed it inline.
pub open spec fn walk_event(e: BxesEventView) -> Seq<WalkItem> {
    seq![WalkItem::Val(e.name), WalkItem::Val(lifecycle_view(e.lifecycle))] + walk_attrs(
        opt_attrs(e.attributes),
    )
}

pub open spec fn walk_events(events: Seq<BxesEventView>) -> Seq<WalkItem>
    decreases events.len(),
{
    if events.len() == 0 {
        Seq::empty()
    } else {
        walk_event(events[0]) + walk_events(events.drop_first())
    }
}

pub open spec fn walk_variant(v: BxesTraceVariantView) -> Seq<WalkItem> {
    walk_events(v.events)
}

pub open spec fn walk_variants(vs: Seq<BxesTraceVariantView>) -> Seq<WalkItem>
    decreases vs.len(),
{
    if vs.len() == 0 {
        Seq::empty()
    } else {
        walk_variant(vs[0]) + walk_variants(vs.drop_first())
    }
}

/// The whole walk: log metadata first, then the variants in order.
pub open spec fn walk_log(l: BxesEventLogView) -> Seq<WalkItem> {
    walk_attrs(opt_attrs(l.metadata)) + walk_variants(l.variants)
}

/// Keep a value if it was not seen before.
pub open spec fn intern_value(acc: Seq<BxesValueView>, v: BxesValueView) -> Seq<BxesValueView> {
    if acc.contains(v) {
        acc
    } else {
        acc.push(v)
    }
}

/// Keep a pair if it was not seen before.
pub open spec fn intern_pair(
    acc: Seq<(BxesValueView, BxesValueView)>,
    p: (BxesValueView, BxesValueView),
) -> Seq<(BxesValueView, BxesValueView)> {
    if acc.contains(p) {
        acc
    } else {
        acc.push(p)
    }
}

/// Fold the walk, keeping first-seen values.
pub open spec fn walk_values(acc: Seq<BxesValueView>, items: Seq<WalkItem>) -> Seq<BxesValueView>
    decreases items.len(),
{
    if items.len() == 0 {
        acc
    } else {
        let acc2 = match items[0] {
            WalkItem::Val(v) => intern_value(acc, v),
            WalkItem::Pair(_) => acc,
        };
        walk_values(acc2, items.drop_first())
    }
}

/// Fold the walk, keeping first-seen pairs.
pub open spec fn walk_pairs(
    acc: Seq<(BxesValueView, BxesValueView)>,
    items: Seq<WalkItem>,
) -> Seq<(BxesValueView, BxesValueView)>
    decreases items.len(),
{
    if items.len() == 0 {
        acc
    } else {
        let acc2 = match items[0] {
            WalkItem::Val(_) => acc,
            WalkItem::Pair(p) => intern_pair(acc, p),
        };
        walk_pairs(acc2, items.drop_first())
    }
}

/// The values section of a log: every distinct value, in first-seen order.
pub open spec fn log_values(l: BxesEventLogView) -> Seq<BxesValueView> {
    walk_values(Seq::empty(), walk_log(l))
}

/// The pairs section of a log: every distinct pair, in first-seen order.
pub open spec fn log_pairs(l: BxesEventLogView) -> Seq<(BxesValueView, BxesValueView)> {
    walk_pairs(Seq::empty(), walk_log(l))
}

/// A sequence with no two equal entries.
pub open spec fn distinct<T>(s: Seq<T>) -> bool {
    forall|i: int, j: int| 0 <= i && i < j && j < s.len() ==> s[i] != s[j]
}

/// The index of the first occurrence of `x` in `s`.
pub open spec fn first_index<T>(s: Seq<T>, x: T) -> int
    decreases s.len(),
{
    if s.len() == 0 {
        0
    } else if s[0] == x {
        0
    } else {
        1 + first_index(s.drop_first(), x)
    }
}

pub proof fn lemma_first_index_works<T>(s: Seq<T>, x: T)
    requires
        s.contains(x),
    ensures
        0 <= first_index(s, x) < s.len(),
        s[first_index(s, x)] == x,
        forall|j: int| 0 <= j < first_index(s, x) ==> s[j] != x,
    decreases s.len(),
{
    if s[0] == x {
    } else {
        assert(s.drop_first().contains(x)) by {
            let k = choose|k: int| 0 <= k < s.len() && s[k] == x;
            assert(s.drop_first()[k - 1] == x);
        }
        lemma_first_index_works(s.drop_first(), x);
        assert forall|j: int| 0 <= j < first_index(s, x) implies s[j] != x by {
            if j > 0 {
                assert(s.drop_first()[j - 1] == s[j]);
            }
        }
    }
}

/// If `x` sits at `i` and nowhere earlier, then `i` is its first index.
pub proof fn lemma_first_index_unique<T>(s: Seq<T>, x: T, i: int)
    requires
        0 <= i < s.len(),
        s[i] == x,
        forall|j: int| 0 <= j < i ==> s[j] != x,
    ensures
        first_index(s, x) == i,
{
    assert(s.contains(x));
    lemma_first_index_works(s, x);
    let f = first_index(s, x);
    if f < i {
        assert(s[f] == x);
        assert(false);
    }
    if f > i {
        assert(s[i] != x);
        assert(false);
    }
}

/// The walk of a concatenated attribute list is the concatenation of the
/// walks.
pub proof fn lemma_walk_attrs_app(
    a: Seq<(BxesValueView, BxesValueView)>,
    b: Seq<(BxesValueView, BxesValueView)>,
)
    ensures
        walk_attrs(a + b) == walk_attrs(a) + walk_attrs(b),
    decreases a.len(),
{
    if a.len() == 0 {
        assert(a + b =~= b);
        assert(walk_attrs(a) + walk_attrs(b) =~= walk_attrs(b));
    } else {
        assert((a + b)[0] == a[0]);
        assert((a + b).drop_first() =~= a.drop_first() + b);
        lemma_walk_attrs_app(a.drop_first(), b);
        let head = seq![
            WalkItem::Val(a[0].0),
            WalkItem::Val(a[0].1),
            WalkItem::Pair(a[0]),
        ];
        assert(head + (walk_attrs(a.drop_first()) + walk_attrs(b)) =~= (head + walk_attrs(
            a.drop_first(),
        )) + walk_attrs(b));
    }
}

pub proof fn lemma_walk_events_app(a: Seq<BxesEventView>, b: Seq<BxesEventView>)
    ensures
        walk_events(a + b) == walk_events(a) + walk_events(b),
    decreases a.len(),
{
    if a.len() == 0 {
        assert(a + b =~= b);
        assert(walk_events(a) + walk_events(b) =~= walk_events(b));
    } else {
        assert((a + b)[0] == a[0]);
        assert((a + b).drop_first() =~= a.drop_first() + b);
        lemma_walk_events_app(a.drop_first(), b);
        assert(walk_event(a[0]) + (walk_events(a.drop_first()) + walk_events(b)) =~= (walk_event(
            a[0],
        ) + walk_events(a.drop_first())) + walk_events(b));
    }
}

pub proof fn lemma_walk_variants_app(a: Seq<BxesTraceVariantView>, b: Seq<BxesTraceVariantView>)
    ensures
        walk_variants(a + b) == walk_variants(a) + walk_variants(b),
    decreases a.len(),
{
    if a.len() == 0 {
        assert(a + b =~= b);
        assert(walk_variants(a) + walk_variants(b) =~= walk_variants(b));
    } else {
        assert((a + b)[0] == a[0]);
        assert((a + b).drop_first() =~= a.drop_first() + b);
        lemma_walk_variants_app(a.drop_first(), b);
        assert(walk_variant(a[0]) + (walk_variants(a.drop_first()) + walk_variants(b))
            =~= (walk_variant(a[0]) + walk_variants(a.drop_first())) + walk_variants(b));
    }
}

/// Folding the walk of a single attribute interns its key, its value, then
/// the pair.
pub proof fn lemma_walk_attr_step(
    vacc: Seq<BxesValueView>,
    pacc: Seq<(BxesValueView, BxesValueView)>,
    a: (BxesValueView, BxesValueView),
)
    ensures
        walk_values(vacc, walk_attrs(seq![a])) == intern_value(intern_value(vacc, a.0), a.1),
        walk_pairs(pacc, walk_attrs(seq![a])) == intern_pair(pacc, a),
{
    reveal_with_fuel(walk_attrs, 2);
    reveal_with_fuel(walk_values, 4);
    reveal_with_fuel(walk_pairs, 4);
    let t = seq![WalkItem::Val(a.0), WalkItem::Val(a.1), WalkItem::Pair(a)];
    assert(seq![a].drop_first() =~= Seq::<(BxesValueView, BxesValueView)>::empty());
    assert(walk_attrs(seq![a]) =~= t);
    let t1 = t.drop_first();
    let t2 = t1.drop_first();
    let t3 = t2.drop_first();
    assert(t1 =~= seq![WalkItem::Val(a.1), WalkItem::Pair(a)]);
    assert(t2 =~= seq![WalkItem::Pair(a)]);
    assert(t3 =~= Seq::<WalkItem>::empty());
    let v1 = intern_value(vacc, a.0);
    let v2 = intern_value(v1, a.1);
    assert(walk_values(vacc, t) == walk_values(v1, t1));
    assert(walk_values(v1, t1) == walk_values(v2, t2));
    assert(walk_values(v2, t2) == walk_values(v2, t3));
    assert(walk_values(v2, t3) == v2);
    let p1 = intern_pair(pacc, a);
    assert(walk_pairs(pacc, t) == walk_pairs(pacc, t1));
    assert(walk_pairs(pacc, t1) == walk_pairs(pacc, t2));
    assert(walk_pairs(pacc, t2) == walk_pairs(p1, t3));
    assert(walk_pairs(p1, t3) == p1);
}

/// Membership in a concatenation, from either side.
pub proof fn lemma_contains_concat<T>(a: Seq<T>, b: Seq<T>, x: T)
    ensures
        a.contains(x) ==> (a + b).contains(x),
        b.contains(x) ==> (a + b).contains(x),
{
    if a.contains(x) {
        let k = choose|k: int| 0 <= k < a.len() && a[k] == x;
        assert((a + b)[k] == x);
    }
    if b.contains(x) {
        let k = choose|k: int| 0 <= k < b.len() && b[k] == x;
        assert((a + b)[a.len() + k] == x);
    }
}

/// Folding a concatenation folds the two halves in turn.
pub proof fn lemma_walk_values_app(acc: Seq<BxesValueView>, a: Seq<WalkItem>, b: Seq<WalkItem>)
    ensures
        walk_values(acc, a + b) == walk_values(walk_values(acc, a), b),
    decreases a.len(),
{
    if a.len() == 0 {
        assert(a + b =~= b);
    } else {
        let acc2 = match (a + b)[0] {
            WalkItem::Val(v) => intern_value(acc, v),
            WalkItem::Pair(_) => acc,
        };
        assert((a + b)[0] == a[0]);
        assert((a + b).drop_first() =~= a.drop_first() + b);
        lemma_walk_values_app(acc2, a.drop_first(), b);
    }
}

pub proof fn lemma_walk_pairs_app(
    acc: Seq<(BxesValueView, BxesValueView)>,
    a: Seq<WalkItem>,
    b: Seq<WalkItem>,
)
    ensures
        walk_pairs(acc, a + b) == walk_pairs(walk_pairs(acc, a), b),
    decreases a.len(),
{
    if a.len() == 0 {
        assert(a + b =~= b);
    } else {
        let acc2 = match (a + b)[0] {
            WalkItem::Val(_) => acc,
            WalkItem::Pair(p) => intern_pair(acc, p),
        };
        assert((a + b)[0] == a[0]);
        assert((a + b).drop_first() =~= a.drop_first() + b);
        lemma_walk_pairs_app(acc2, a.drop_first(), b);
    }
}

/// The fold keeps distinctness and never loses a member.
pub proof fn lemma_walk_values_distinct(acc: Seq<BxesValueView>, items: Seq<WalkItem>)
    requires
        distinct(acc),
    ensures
        distinct(walk_values(acc, items)),
    decreases items.len(),
{
    if items.len() != 0 {
        let acc2 = match items[0] {
            WalkItem::Val(v) => intern_value(acc, v),
            WalkItem::Pair(_) => acc,
        };
        assert(distinct(acc2)) by {
            if let WalkItem::Val(v) = items[0] {
                if !acc.contains(v) {
                    assert forall|i: int, j: int|
                        0 <= i && i < j && j < acc.push(v).len() implies acc.push(v)[i]
                        != acc.push(v)[j] by {
                        if j == acc.len() {
                            assert(acc[i] == acc.push(v)[i]);
                            assert(!acc.contains(v));
                            assert(acc.contains(acc[i]));
                        }
                    }
                }
            }
        }
        lemma_walk_values_distinct(acc2, items.drop_first());
    }
}

pub proof fn lemma_walk_pairs_distinct(
    acc: Seq<(BxesValueView, BxesValueView)>,
    items: Seq<WalkItem>,
)
    requires
        distinct(acc),
    ensures
        distinct(walk_pairs(acc, items)),
    decreases items.len(),
{
    if items.len() != 0 {
        let acc2 = match items[0] {
            WalkItem::Val(_) => acc,
            WalkItem::Pair(p) => intern_pair(acc, p),
        };
        assert(distinct(acc2)) by {
            if let WalkItem::Pair(p) = items[0] {
                if !acc.contains(p) {
                    assert forall|i: int, j: int|
                        0 <= i && i < j && j < acc.push(p).len() implies acc.push(p)[i]
                        != acc.push(p)[j] by {
                        if j == acc.len() {
                            assert(acc[i] == acc.push(p)[i]);
                            assert(acc.contains(acc[i]));
                        }
                    }
                }
            }
        }
        lemma_walk_pairs_distinct(acc2, items.drop_first());
    }
}

/// Membership in the fold result is monotone in the accumulator, and every
/// walked value ends up in the result.
pub proof fn lemma_walk_values_complete(acc: Seq<BxesValueView>, items: Seq<WalkItem>)
    ensures
        forall|x: BxesValueView|
            acc.contains(x) ==> #[trigger] walk_values(acc, items).contains(x),
        forall|k: int|
            0 <= k < items.len() && items[k] is Val ==> walk_values(acc, items).contains(
                #[trigger] items[k]->Val_0,
            ),
    decreases items.len(),
{
    if items.len() != 0 {
        let acc2 = match items[0] {
            WalkItem::Val(v) => intern_value(acc, v),
            WalkItem::Pair(_) => acc,
        };
        assert(walk_values(acc, items) == walk_values(acc2, items.drop_first()));
        lemma_walk_values_complete(acc2, items.drop_first());
        assert forall|x: BxesValueView| acc.contains(x) implies #[trigger] walk_values(
            acc,
            items,
        ).contains(x) by {
            assert(acc2.contains(x)) by {
                if let WalkItem::Val(v) = items[0] {
                    if !acc.contains(v) {
                        let k = choose|k: int| 0 <= k < acc.len() && acc[k] == x;
                        assert(acc.push(v)[k] == x);
                    }
                }
            }
            assert(walk_values(acc2, items.drop_first()).contains(x));
        }
        assert forall|k: int|
            0 <= k < items.len() && items[k] is Val implies walk_values(acc, items).contains(
            #[trigger] items[k]->Val_0,
        ) by {
            if k == 0 {
                let v = items[0]->Val_0;
                assert(acc2.contains(v)) by {
                    if !acc.contains(v) {
                        assert(acc.push(v)[acc.len() as int] == v);
                    }
                }
                assert(walk_values(acc2, items.drop_first()).contains(v));
            } else {
                assert(items.drop_first()[k - 1] == items[k]);
                assert(walk_values(acc2, items.drop_first()).contains(items.drop_first()[k - 1]->Val_0));
            }
        }
    }
}

pub proof fn lemma_walk_pairs_complete(
    acc: Seq<(BxesValueView, BxesValueView)>,
    items: Seq<WalkItem>,
)
    ensures
        forall|x: (BxesValueView, BxesValueView)|
            acc.contains(x) ==> #[trigger] walk_pairs(acc, items).contains(x),
        forall|k: int|
            0 <= k < items.len() && items[k] is Pair ==> walk_pairs(acc, items).contains(
                #[trigger] items[k]->Pair_0,
            ),
    decreases items.len(),
{
    if items.len() != 0 {
        let acc2 = match items[0] {
            WalkItem::Val(_) => acc,
            WalkItem::Pair(p) => intern_pair(acc, p),
        };
        assert(walk_pairs(acc, items) == walk_pairs(acc2, items.drop_first()));
        lemma_walk_pairs_complete(acc2, items.drop_first());
        assert forall|x: (BxesValueView, BxesValueView)| acc.contains(x) implies #[trigger] walk_pairs(
            acc,
            items,
        ).contains(x) by {
            assert(acc2.contains(x)) by {
                if let WalkItem::Pair(p) = items[0] {
                    if !acc.contains(p) {
                        let k = choose|k: int| 0 <= k < acc.len() && acc[k] == x;
                        assert(acc.push(p)[k] == x);
                    }
                }
            }
            assert(walk_pairs(acc2, items.drop_first()).contains(x));
        }
        assert forall|k: int|
            0 <= k < items.len() && items[k] is Pair implies walk_pairs(acc, items).contains(
            #[trigger] items[k]->Pair_0,
        ) by {
            if k == 0 {
                let p = items[0]->Pair_0;
                assert(acc2.contains(p)) by {
                    if !acc.contains(p) {
                        assert(acc.push(p)[acc.len() as int] == p);
                    }
                }
                assert(walk_pairs(acc2, items.drop_first()).contains(p));
            } else {
                assert(items.drop_first()[k - 1] == items[k]);
                assert(walk_pairs(acc2, items.drop_first()).contains(items.drop_first()[k - 1]->Pair_0));
            }
        }
    }
}

/// Everything in the fold result was in the accumulator or was walked.
pub proof fn lemma_walk_values_provenance(acc: Seq<BxesValueView>, items: Seq<WalkItem>)
    ensures
        forall|x: BxesValueView|
            #[trigger] walk_values(acc, items).contains(x) ==> acc.contains(x)
                || items.contains(WalkItem::Val(x)),
    decreases items.len(),
{
    if items.len() != 0 {
        let acc2 = match items[0] {
            WalkItem::Val(v) => intern_value(acc, v),
            WalkItem::Pair(_) => acc,
        };
        assert(walk_values(acc, items) == walk_values(acc2, items.drop_first()));
        lemma_walk_values_provenance(acc2, items.drop_first());
        assert forall|x: BxesValueView| #[trigger] walk_values(acc, items).contains(
            x,
        ) implies acc.contains(x) || items.contains(WalkItem::Val(x)) by {
            assert(walk_values(acc2, items.drop_first()).contains(x));
            assert(acc2.contains(x) || items.drop_first().contains(WalkItem::Val(x)));
            if acc2.contains(x) {
                if !acc.contains(x) {
                    assert(items[0] == WalkItem::Val(x)) by {
                        if let WalkItem::Val(v) = items[0] {
                            if !acc.contains(v) {
                                let k = choose|k: int|
                                    0 <= k < acc.push(v).len() && acc.push(v)[k] == x;
                                assert(k == acc.len());
                            }
                        }
                    }
                    assert(items.contains(WalkItem::Val(x)));
                }
            } else {
                let k = choose|k: int|
                    0 <= k < items.drop_first().len() && items.drop_first()[k] == WalkItem::Val(x);
                assert(items[k + 1] == WalkItem::Val(x));
                assert(items.contains(WalkItem::Val(x)));
            }
        }
    }
}

pub proof fn lemma_walk_pairs_provenance(
    acc: Seq<(BxesValueView, BxesValueView)>,
    items: Seq<WalkItem>,
)
    ensures
        forall|x: (BxesValueView, BxesValueView)|
            #[trigger] walk_pairs(acc, items).contains(x) ==> acc.contains(x)
                || items.contains(WalkItem::Pair(x)),
    decreases items.len(),
{
    if items.len() != 0 {
        let acc2 = match items[0] {
            WalkItem::Val(_) => acc,
            WalkItem::Pair(p) => intern_pair(acc, p),
        };
        assert(walk_pairs(acc, items) == walk_pairs(acc2, items.drop_first()));
        lemma_walk_pairs_provenance(acc2, items.drop_first());
        assert forall|x: (BxesValueView, BxesValueView)| #[trigger] walk_pairs(acc, items).contains(
            x,
        ) implies acc.contains(x) || items.contains(WalkItem::Pair(x)) by {
            assert(walk_pairs(acc2, items.drop_first()).contains(x));
            assert(acc2.contains(x) || items.drop_first().contains(WalkItem::Pair(x)));
            if acc2.contains(x) {
                if !acc.contains(x) {
                    assert(items[0] == WalkItem::Pair(x)) by {
                        if let WalkItem::Pair(p) = items[0] {
                            if !acc.contains(p) {
                                let k = choose|k: int|
                                    0 <= k < acc.push(p).len() && acc.push(p)[k] == x;
                                assert(k == acc.len());
                            }
                        }
                    }
                    assert(items.contains(WalkItem::Pair(x)));
                }
            } else {
                let k = choose|k: int|
                    0 <= k < items.drop_first().len() && items.drop_first()[k] == WalkItem::Pair(x);
                assert(items[k + 1] == WalkItem::Pair(x));
                assert(items.contains(WalkItem::Pair(x)));
            }
        }
    }
}

/// Every attribute of a list shows up in its walk: key and value as value
/// items, and the attribute itself as a pair item.
pub proof fn lemma_walk_attrs_mem(attrs: Seq<(BxesValueView, BxesValueView)>, k: int)
    requires
        0 <= k < attrs.len(),
    ensures
        walk_attrs(attrs).contains(WalkItem::Val(attrs[k].0)),
        walk_attrs(attrs).contains(WalkItem::Val(attrs[k].1)),
        walk_attrs(attrs).contains(WalkItem::Pair(attrs[k])),
    decreases k,
{
    let head = seq![
        WalkItem::Val(attrs[0].0),
        WalkItem::Val(attrs[0].1),
        WalkItem::Pair(attrs[0]),
    ];
    if k == 0 {
        assert(head[0] == WalkItem::Val(attrs[0].0));
        assert(head[1] == WalkItem::Val(attrs[0].1));
        assert(head[2] == WalkItem::Pair(attrs[0]));
        lemma_contains_concat(head, walk_attrs(attrs.drop_first()), WalkItem::Val(attrs[0].0));
        lemma_contains_concat(head, walk_attrs(attrs.drop_first()), WalkItem::Val(attrs[0].1));
        lemma_contains_concat(head, walk_attrs(attrs.drop_first()), WalkItem::Pair(attrs[0]));
    } else {
        assert(attrs.drop_first()[k - 1] == attrs[k]);
        lemma_walk_attrs_mem(attrs.drop_first(), k - 1);
        lemma_contains_concat(head, walk_attrs(attrs.drop_first()), WalkItem::Val(attrs[k].0));
        lemma_contains_concat(head, walk_attrs(attrs.drop_first()), WalkItem::Val(attrs[k].1));
        lemma_contains_concat(head, walk_attrs(attrs.drop_first()), WalkItem::Pair(attrs[k]));
    }
}

/// Whatever the walk of one event yields, the walk of any event list
/// holding that event yields too.
pub proof fn lemma_walk_events_mem(events: Seq<BxesEventView>, j: int)
    requires
        0 <= j < events.len(),
    ensures
        forall|x: WalkItem|
            walk_event(events[j]).contains(x) ==> #[trigger] walk_events(events).contains(x),
    decreases j,
{
    if j == 0 {
        assert forall|x: WalkItem| walk_event(events[0]).contains(x) implies #[trigger] walk_events(
            events,
        ).contains(x) by {
            lemma_contains_concat(walk_event(events[0]), walk_events(events.drop_first()), x);
        }
    } else {
        assert(events.drop_first()[j - 1] == events[j]);
        lemma_walk_events_mem(events.drop_first(), j - 1);
        assert forall|x: WalkItem| walk_event(events[j]).contains(x) implies #[trigger] walk_events(
            events,
        ).contains(x) by {
            lemma_contains_concat(walk_event(events[0]), walk_events(events.drop_first()), x);
        }
    }
}

pub proof fn lemma_walk_variants_mem(vs: Seq<BxesTraceVariantView>, i: int)
    requires
        0 <= i < vs.len(),
    ensures
        forall|x: WalkItem|
            walk_variant(vs[i]).contains(x) ==> #[trigger] walk_variants(vs).contains(x),
    decreases i,
{
    if i == 0 {
        assert forall|x: WalkItem| walk_variant(vs[0]).contains(x) implies #[trigger] walk_variants(
            vs,
        ).contains(x) by {
            lemma_contains_concat(walk_variant(vs[0]), walk_variants(vs.drop_first()), x);
        }
    } else {
        assert(vs.drop_first()[i - 1] == vs[i]);
        lemma_walk_variants_mem(vs.drop_first(), i - 1);
        assert forall|x: WalkItem| walk_variant(vs[i]).contains(x) implies #[trigger] walk_variants(
            vs,
        ).contains(x) by {
            lemma_contains_concat(walk_variant(vs[0]), walk_variants(vs.drop_first()), x);
        }
    }
}

/// Everything the metadata of a log mentions is interned: each metadata
/// attribute is in the pairs table and its halves are in the values table.
pub proof fn lemma_log_metadata_interned(l: BxesEventLogView)
    ensures
        forall|k: int|
            0 <= k < opt_attrs(l.metadata).len() ==> log_pairs(l).contains(
                #[trigger] opt_attrs(l.metadata)[k],
            ),
{
    lemma_walk_values_complete(Seq::empty(), walk_log(l));
    lemma_walk_pairs_complete(Seq::empty(), walk_log(l));
    assert forall|k: int| 0 <= k < opt_attrs(l.metadata).len() implies log_pairs(l).contains(
        #[trigger] opt_attrs(l.metadata)[k],
    ) by {
        lemma_walk_attrs_mem(opt_attrs(l.metadata), k);
        lemma_contains_concat(
            walk_attrs(opt_attrs(l.metadata)),
            walk_variants(l.variants),
            WalkItem::Pair(opt_attrs(l.metadata)[k]),
        );
        let items = walk_log(l);
        let j = choose|j: int|
            0 <= j < items.len() && items[j] == WalkItem::Pair(opt_attrs(l.metadata)[k]);
        assert(items[j] is Pair && items[j]->Pair_0 == opt_attrs(l.metadata)[k]);
    }
}

/// Everything an event of a log mentions is interned: its name is in the
/// values table and each of its attributes is in the pairs table.
pub proof fn lemma_log_event_interned(l: BxesEventLogView, i: int, j: int)
    requires
        0 <= i < l.variants.len(),
        0 <= j < l.variants[i].events.len(),
    ensures
        log_values(l).contains(l.variants[i].events[j].name),
        forall|k: int|
            0 <= k < opt_attrs(l.variants[i].events[j].attributes).len() ==> log_pairs(
                l,
            ).contains(#[trigger] opt_attrs(l.variants[i].events[j].attributes)[k]),
{
    let e = l.variants[i].events[j];
    let items = walk_log(l);
    lemma_walk_values_complete(Seq::empty(), items);
    lemma_walk_pairs_complete(Seq::empty(), items);
    lemma_walk_events_mem(l.variants[i].events, j);
    lemma_walk_variants_mem(l.variants, i);
    assert(walk_event(e)[0] == WalkItem::Val(e.name)) by {
        assert(seq![WalkItem::Val(e.name), WalkItem::Val(lifecycle_view(e.lifecycle))][0]
            == WalkItem::Val(e.name));
    }
    assert(walk_event(e).contains(WalkItem::Val(e.name)));
    assert(walk_variant(l.variants[i]) == walk_events(l.variants[i].events));
    lemma_contains_concat(
        walk_attrs(opt_attrs(l.metadata)),
        walk_variants(l.variants),
        WalkItem::Val(e.name),
    );
    assert(items.contains(WalkItem::Val(e.name)));
    assert(log_values(l).contains(e.name)) by {
        let m = choose|m: int| 0 <= m < items.len() && items[m] == WalkItem::Val(e.name);
        assert(items[m] is Val && items[m]->Val_0 == e.name);
    }
    assert forall|k: int| 0 <= k < opt_attrs(e.attributes).len() implies log_pairs(l).contains(
        #[trigger] opt_attrs(e.attributes)[k],
    ) by {
        lemma_walk_attrs_mem(opt_attrs(e.attributes), k);
        let p = opt_attrs(e.attributes)[k];
        lemma_contains_concat(
            seq![WalkItem::Val(e.name), WalkItem::Val(lifecycle_view(e.lifecycle))],
            walk_attrs(opt_attrs(e.attributes)),
            WalkItem::Pair(p),
        );
        assert(walk_event(e).contains(WalkItem::Pair(p)));
        lemma_contains_concat(
            walk_attrs(opt_attrs(l.metadata)),
            walk_variants(l.variants),
            WalkItem::Pair(p),
        );
        assert(items.contains(WalkItem::Pair(p)));
        let m = choose|m: int| 0 <= m < items.len() && items[m] == WalkItem::Pair(p);
        assert(items[m] is Pair && items[m]->Pair_0 == p);
    }
}

/// Wherever the walk yields a pair, it yielded both halves as values too.
pub open spec fn pairs_accompanied(items: Seq<WalkItem>) -> bool {
    forall|k: int|
        0 <= k < items.len() && items[k] is Pair ==> items.contains(
            WalkItem::Val((#[trigger] items[k]->Pair_0).0),
        ) && items.contains(WalkItem::Val(items[k]->Pair_0.1))
}

pub proof fn lemma_accompanied_concat(a: Seq<WalkItem>, b: Seq<WalkItem>)
    requires
        pairs_accompanied(a),
        pairs_accompanied(b),
    ensures
        pairs_accompanied(a + b),
{
    assert forall|k: int| 0 <= k < (a + b).len() && (a + b)[k] is Pair implies (a + b).contains(
        WalkItem::Val((#[trigger] (a + b)[k]->Pair_0).0),
    ) && (a + b).contains(WalkItem::Val((a + b)[k]->Pair_0.1)) by {
        let p = (a + b)[k]->Pair_0;
        if k < a.len() {
            assert(a[k] == (a + b)[k]);
            lemma_contains_concat(a, b, WalkItem::Val(p.0));
            lemma_contains_concat(a, b, WalkItem::Val(p.1));
        } else {
            assert(b[k - a.len()] == (a + b)[k]);
            lemma_contains_concat(a, b, WalkItem::Val(p.0));
            lemma_contains_concat(a, b, WalkItem::Val(p.1));
        }
    }
}

pub proof fn lemma_walk_attrs_accompanied(attrs: Seq<(BxesValueView, BxesValueView)>)
    ensures
        pairs_accompanied(walk_attrs(attrs)),
    decreases attrs.len(),
{
    if attrs.len() != 0 {
        lemma_walk_attrs_accompanied(attrs.drop_first());
        let head = seq![
            WalkItem::Val(attrs[0].0),
            WalkItem::Val(attrs[0].1),
            WalkItem::Pair(attrs[0]),
        ];
        assert(pairs_accompanied(head)) by {
            assert(head[0] == WalkItem::Val(attrs[0].0));
            assert(head[1] == WalkItem::Val(attrs[0].1));
        }
        lemma_accompanied_concat(head, walk_attrs(attrs.drop_first()));
    }
}

pub proof fn lemma_walk_event_accompanied(e: BxesEventView)
    ensures
        pairs_accompanied(walk_event(e)),
{
    lemma_walk_attrs_accompanied(opt_attrs(e.attributes));
    let head = seq![WalkItem::Val(e.name), WalkItem::Val(lifecycle_view(e.lifecycle))];
    assert(pairs_accompanied(head));
    lemma_accompanied_concat(head, walk_attrs(opt_attrs(e.attributes)));
}

pub proof fn lemma_walk_events_accompanied(events: Seq<BxesEventView>)
    ensures
        pairs_accompanied(walk_events(events)),
    decreases events.len(),
{
    if events.len() == 0 {
        assert(pairs_accompanied(Seq::<WalkItem>::empty()));
    } else {
        lemma_walk_event_accompanied(events[0]);
        lemma_walk_events_accompanied(events.drop_first());
        lemma_accompanied_concat(walk_event(events[0]), walk_events(events.drop_first()));
    }
}

pub proof fn lemma_walk_variants_accompanied(vs: Seq<BxesTraceVariantView>)
    ensures
        pairs_accompanied(walk_variants(vs)),
    decreases vs.len(),
{
    if vs.len() == 0 {
        assert(pairs_accompanied(Seq::<WalkItem>::empty()));
    } else {
        lemma_walk_events_accompanied(vs[0].events);
        lemma_walk_variants_accompanied(vs.drop_first());
        lemma_accompanied_concat(walk_variant(vs[0]), walk_variants(vs.drop_first()));
    }
}

pub proof fn lemma_walk_log_accompanied(l: BxesEventLogView)
    ensures
        pairs_accompanied(walk_log(l)),
{
    lemma_walk_attrs_accompanied(opt_attrs(l.metadata));
    lemma_walk_variants_accompanied(l.variants);
    lemma_accompanied_concat(walk_attrs(opt_attrs(l.metadata)), walk_variants(l.variants));
}

/// The values table of a log is distinct, the pairs table is distinct, and
/// both halves of every interned pair are interned values.
pub proof fn lemma_log_tables(l: BxesEventLogView)
    ensures
        distinct(log_values(l)),
        distinct(log_pairs(l)),
        forall|p: (BxesValueView, BxesValueView)| #[trigger]
            log_pairs(l).contains(p) ==> log_values(l).contains(p.0) && log_values(l).contains(
                p.1,
            ),
{
    let items = walk_log(l);
    lemma_walk_values_distinct(Seq::empty(), items);
    lemma_walk_pairs_distinct(Seq::empty(), items);
    lemma_walk_log_accompanied(l);
    lemma_walk_pairs_provenance(Seq::empty(), items);
    lemma_walk_values_complete(Seq::empty(), items);
    assert forall|p: (BxesValueView, BxesValueView)| #[trigger] log_pairs(l).contains(
        p,
    ) implies log_values(l).contains(p.0) && log_values(l).contains(p.1) by {
        assert(items.contains(WalkItem::Pair(p)));
        let k = choose|k: int| 0 <= k < items.len() && items[k] == WalkItem::Pair(p);
        assert(items[k] is Pair && items[k]->Pair_0 == p);
        assert(items.contains(WalkItem::Val(p.0)) && items.contains(WalkItem::Val(p.1)));
        let k0 = choose|k0: int| 0 <= k0 < items.len() && items[k0] == WalkItem::Val(p.0);
        let k1 = choose|k1: int| 0 <= k1 < items.len() && items[k1] == WalkItem::Val(p.1);
        assert(items[k0] is Val && items[k0]->Val_0 == p.0);
        assert(items[k1] is Val && items[k1]->Val_0 == p.1);
    }
}

} // verus!
