//! What holds of the flattened and priority-sorted property list of a table.

use vstd::prelude::*;
use crate::sendtable::{
    col_nonzero, col_zero, excl_defined, excl_from, excl_prefix, excl_props, flat_props,
    flattened, has_flag, insert_sorted, prio_matches, priorities_of, priority_order, priority_pass,
    priority_passes, props_from, props_prefix, sort_by_priority, swap_at, with_col_zero, PropView, TableView, CHANGES_OFTEN_PRIORITY,
    FLAG_CHANGES_OFTEN, FLAG_EXCLUDE, PROP_TYPE_DATATABLE,
};

verus! {

broadcast use vstd::seq_lib::group_seq_properties;

/// The index of the first priority of `order` whose pass `v` belongs to,
/// or `order.len()` when there is none.
pub open spec fn first_pass(v: PropView, order: Seq<i32>) -> int
    decreases order.len(),
{
    if order.len() == 0 {
        0
    } else if prio_matches(v, order[0]) {
        0
    } else {
        1 + first_pass(v, order.drop_first())
    }
}

proof fn lemma_first_pass(v: PropView, order: Seq<i32>)
    ensures
        0 <= first_pass(v, order) <= order.len(),
        forall|j: int| 0 <= j < first_pass(v, order) ==> !prio_matches(v, #[trigger] order[j]),
        first_pass(v, order) < order.len() ==> prio_matches(v, order[first_pass(v, order)]),
    decreases order.len(),
{
    if order.len() > 0 && !prio_matches(v, order[0]) {
        let rest = order.drop_first();
        lemma_first_pass(v, rest);
        assert forall|j: int| 0 <= j < first_pass(v, order) implies !prio_matches(
            v,
            #[trigger] order[j],
        ) by {
            if j > 0 {
                assert(order[j] == rest[j - 1]);
            }
        }
    }
}

/// `v` belongs to no pass before the `k`-th, and to the `k`-th.
proof fn lemma_first_pass_at(v: PropView, order: Seq<i32>, k: int)
    requires
        0 <= k < order.len(),
        first_pass(v, order) >= k,
    ensures
        prio_matches(v, order[k]) <==> first_pass(v, order) == k,
{
    lemma_first_pass(v, order);
}

proof fn lemma_swap_multiset(s: Seq<PropView>, a: int, b: int)
    requires
        0 <= a < s.len(),
        0 <= b < s.len(),
    ensures
        swap_at(s, a, b).to_multiset() == s.to_multiset(),
        swap_at(s, a, b).len() == s.len(),
{
    broadcast use vstd::multiset::group_multiset_properties;
    broadcast use vstd::seq_lib::to_multiset_update;

    let s1 = s.update(a, s[b]);
    assert(s1.to_multiset() == s.to_multiset().insert(s[b]).remove(s[a]));
    assert(s1[b] == s[b]);
    assert(s1.update(b, s[a]).to_multiset() == s1.to_multiset().insert(s[a]).remove(s[b]));
    assert(s1.update(b, s[a]).to_multiset() =~= s.to_multiset());
}

proof fn lemma_pass_multiset(s: Seq<PropView>, start: int, cur: int, prio: i32)
    ensures
        priority_pass(s, start, cur, prio).0.to_multiset() == s.to_multiset(),
        priority_pass(s, start, cur, prio).0.len() == s.len(),
    decreases s.len() - cur,
{
    if cur < 0 || cur >= s.len() || start < 0 || start > cur {
    } else if prio_matches(s[cur], prio) {
        lemma_swap_multiset(s, start, cur);
        lemma_pass_multiset(swap_at(s, start, cur), start + 1, cur + 1, prio);
    } else {
        lemma_pass_multiset(s, start, cur + 1, prio);
    }
}

proof fn lemma_passes_multiset(s: Seq<PropView>, prios: Seq<i32>, start: int)
    ensures
        priority_passes(s, prios, start).to_multiset() == s.to_multiset(),
        priority_passes(s, prios, start).len() == s.len(),
    decreases prios.len(),
{
    if prios.len() > 0 {
        let (s2, start2) = priority_pass(s, start, start, prios[0]);
        lemma_pass_multiset(s, start, start, prios[0]);
        lemma_passes_multiset(s2, prios.drop_first(), start2);
    }
}

/// The pass for `order[k]` from `start0` puts the properties whose first
/// pass is `k` at `start0..`, and leaves after them those whose first pass
/// is later; it does not touch what comes before `start0`.
proof fn lemma_pass_groups(
    s: Seq<PropView>,
    order: Seq<i32>,
    k: int,
    start0: int,
    start: int,
    cur: int,
)
    requires
        0 <= k < order.len(),
        0 <= start0 <= start <= cur <= s.len(),
        forall|i: int| start0 <= i < start ==> first_pass(#[trigger] s[i], order) == k,
        forall|i: int| start <= i < cur ==> first_pass(#[trigger] s[i], order) > k,
        forall|i: int| cur <= i < s.len() ==> first_pass(#[trigger] s[i], order) >= k,
    ensures
        ({
            let (r, st) = priority_pass(s, start, cur, order[k]);
            &&& r.len() == s.len()
            &&& start0 <= st <= s.len()
            &&& forall|i: int| 0 <= i < start0 ==> r[i] == s[i]
            &&& forall|i: int| start0 <= i < st ==> first_pass(#[trigger] r[i], order) == k
            &&& forall|i: int| st <= i < r.len() ==> first_pass(#[trigger] r[i], order) > k
        }),
    decreases s.len() - cur,
{
    if cur >= s.len() {
    } else {
        lemma_first_pass_at(s[cur], order, k);
        if prio_matches(s[cur], order[k]) {
            let s2 = swap_at(s, start, cur);
            assert forall|i: int| start0 <= i < start + 1 implies first_pass(#[trigger] s2[i], order)
                == k by {
                if i == start {
                    assert(s2[i] == s[cur]);
                }
            }
            assert forall|i: int| start + 1 <= i < cur + 1 implies first_pass(
                #[trigger] s2[i],
                order,
            ) > k by {
                if i == cur {
                    assert(s2[i] == s[start]);
                }
            }
            lemma_pass_groups(s2, order, k, start0, start + 1, cur + 1);
        } else {
            lemma_pass_groups(s, order, k, start0, start, cur + 1);
        }
    }
}

/// The passes for `order[k..]` from `start`, where everything before
/// `start` is grouped by first pass below `k` and everything after it has
/// no pass below `k`, leave the whole sequence grouped by first pass.
proof fn lemma_passes_group(s: Seq<PropView>, order: Seq<i32>, k: int, start: int)
    requires
        0 <= k <= order.len(),
        0 <= start <= s.len(),
        forall|i: int| 0 <= i < start ==> first_pass(#[trigger] s[i], order) < k,
        forall|i: int, j: int|
            0 <= i < j < start ==> first_pass(#[trigger] s[i], order) <= first_pass(
                #[trigger] s[j],
                order,
            ),
        forall|i: int| start <= i < s.len() ==> first_pass(#[trigger] s[i], order) >= k,
    ensures
        ({
            let r = priority_passes(s, order.skip(k), start);
            forall|i: int, j: int|
                0 <= i < j < r.len() ==> first_pass(#[trigger] r[i], order) <= first_pass(
                    #[trigger] r[j],
                    order,
                )
        }),
    decreases order.len() - k,
{
    let rest = order.skip(k);
    if k == order.len() {
        assert(rest.len() == 0);
        assert(priority_passes(s, rest, start) == s);
        assert forall|i: int, j: int| 0 <= i < j < s.len() implies first_pass(
            #[trigger] s[i],
            order,
        ) <= first_pass(#[trigger] s[j], order) by {
            lemma_first_pass(s[i], order);
            lemma_first_pass(s[j], order);
        }
    } else {
        assert(rest[0] == order[k]);
        assert(rest.drop_first() =~= order.skip(k + 1));
        lemma_pass_groups(s, order, k, start, start, start);
        let (s2, st) = priority_pass(s, start, start, order[k]);
        assert forall|i: int| 0 <= i < st implies first_pass(#[trigger] s2[i], order) < k + 1 by {
            if i < start {
                assert(s2[i] == s[i]);
            }
        }
        assert forall|i: int, j: int| 0 <= i < j < st implies first_pass(
            #[trigger] s2[i],
            order,
        ) <= first_pass(#[trigger] s2[j], order) by {
            if i < start {
                assert(s2[i] == s[i]);
            }
            if j < start {
                assert(s2[j] == s[j]);
            }
        }
        lemma_passes_group(s2, order, k + 1, st);
        assert(priority_passes(s, rest, start) == priority_passes(s2, order.skip(k + 1), st));
    }
}

proof fn lemma_insert_sorted_contains(l: Seq<i32>, x: i32)
    ensures
        forall|y: i32| #[trigger] insert_sorted(l, x).contains(y) <==> (l.contains(y) || y == x),
    decreases l.len(),
{
    if l.len() > 0 && x > l[0] {
        let t = l.drop_first();
        let rt = insert_sorted(t, x);
        let r = insert_sorted(l, x);
        lemma_insert_sorted_contains(t, x);
        assert(r =~= seq![l[0]] + rt);
        assert forall|y: i32| #[trigger] r.contains(y) <==> (l.contains(y) || y == x) by {
            if r.contains(y) {
                let i = choose|i: int| 0 <= i < r.len() && r[i] == y;
                if i == 0 {
                    assert(l[0] == y);
                } else {
                    assert(rt[i - 1] == y);
                    assert(rt.contains(y));
                    if t.contains(y) {
                        let m = choose|m: int| 0 <= m < t.len() && t[m] == y;
                        assert(l[m + 1] == y);
                    }
                }
            }
            if l.contains(y) {
                let i = choose|i: int| 0 <= i < l.len() && l[i] == y;
                if i == 0 {
                    assert(r[0] == y);
                } else {
                    assert(t[i - 1] == y);
                    assert(rt.contains(y));
                    let m = choose|m: int| 0 <= m < rt.len() && rt[m] == y;
                    assert(r[m + 1] == y);
                }
            }
            if y == x {
                assert(rt.contains(y));
                let m = choose|m: int| 0 <= m < rt.len() && rt[m] == y;
                assert(r[m + 1] == y);
            }
        }
    } else if l.len() > 0 && x == l[0] {
        assert(l.contains(l[0]));
    } else {
        assert forall|y: i32| #[trigger] insert_sorted(l, x).contains(y) <==> (l.contains(y)
            || y == x) by {
            if y == x {
                assert(insert_sorted(l, x)[0] == x);
            }
            if l.contains(y) {
                let i = choose|i: int| 0 <= i < l.len() && l[i] == y;
                assert(insert_sorted(l, x)[i + 1] == y);
            }
        }
    }
}

/// Strictly increasing.
pub open spec fn strictly_increasing(l: Seq<i32>) -> bool {
    forall|i: int, j: int| 0 <= i < j < l.len() ==> l[i] < l[j]
}

proof fn lemma_insert_sorted_increasing(l: Seq<i32>, x: i32)
    requires
        strictly_increasing(l),
    ensures
        strictly_increasing(insert_sorted(l, x)),
    decreases l.len(),
{
    lemma_insert_sorted_contains(l, x);
    if l.len() > 0 && x > l[0] {
        let t = l.drop_first();
        lemma_insert_sorted_increasing(t, x);
        lemma_insert_sorted_contains(t, x);
        let r = insert_sorted(l, x);
        let rt = insert_sorted(t, x);
        assert forall|i: int, j: int| 0 <= i < j < r.len() implies r[i] < r[j] by {
            if i == 0 {
                assert(rt.contains(r[j]));
                if r[j] != x {
                    let m = choose|m: int| 0 <= m < t.len() && t[m] == r[j];
                    assert(t[m] == l[m + 1]);
                }
            }
        }
    }
}

proof fn lemma_priorities_of(s: Seq<PropView>)
    ensures
        strictly_increasing(priorities_of(s)),
        forall|p: i32|
            #[trigger] priorities_of(s).contains(p) <==> exists|i: int|
                0 <= i < s.len() && s[i].prop.priority == p,
    decreases s.len(),
{
    if s.len() > 0 {
        let t = s.drop_last();
        lemma_priorities_of(t);
        lemma_insert_sorted_increasing(priorities_of(t), s.last().prop.priority);
        lemma_insert_sorted_contains(priorities_of(t), s.last().prop.priority);
        assert forall|p: i32| #[trigger] priorities_of(s).contains(p) <==> exists|i: int|
            0 <= i < s.len() && s[i].prop.priority == p by {
            if priorities_of(t).contains(p) {
                let i = choose|i: int| 0 <= i < t.len() && t[i].prop.priority == p;
                assert(s[i] == t[i]);
            }
            if exists|i: int| 0 <= i < s.len() && s[i].prop.priority == p {
                let i = choose|i: int| 0 <= i < s.len() && s[i].prop.priority == p;
                if i < s.len() - 1 {
                    assert(s[i] == t[i]);
                }
            }
        }
    }
}

/// The priorities that sort a list are visited in increasing order, each
/// once, and they are exactly the priorities of its properties and 64.
pub proof fn lemma_priority_order(s: Seq<PropView>)
    ensures
        strictly_increasing(priority_order(s)),
        forall|p: i32|
            #[trigger] priority_order(s).contains(p) <==> (p == CHANGES_OFTEN_PRIORITY || exists|
                i: int,
            |
                0 <= i < s.len() && s[i].prop.priority == p),
{
    lemma_priorities_of(s);
    lemma_insert_sorted_increasing(priorities_of(s), CHANGES_OFTEN_PRIORITY);
    lemma_insert_sorted_contains(priorities_of(s), CHANGES_OFTEN_PRIORITY);
}

/// Sorting by priority keeps every property and adds none: the result is
/// a permutation of the input.
pub proof fn lemma_sort_by_priority_permutes(s: Seq<PropView>)
    ensures
        sort_by_priority(s).to_multiset() == s.to_multiset(),
        sort_by_priority(s).len() == s.len(),
{
    lemma_passes_multiset(s, priority_order(s), 0);
}

/// Sorting by priority groups the properties by the first pass they
/// belong to, in the order of the passes, and every property belongs to
/// some pass.
pub proof fn lemma_sort_by_priority_groups(s: Seq<PropView>)
    ensures
        ({
            let r = sort_by_priority(s);
            let order = priority_order(s);
            &&& forall|i: int|
                0 <= i < r.len() ==> 0 <= #[trigger] first_pass(r[i], order) < order.len()
            &&& forall|i: int, j: int|
                0 <= i < j < r.len() ==> first_pass(#[trigger] r[i], order) <= first_pass(
                    #[trigger] r[j],
                    order,
                )
        }),
{
    broadcast use vstd::seq_lib::to_multiset_contains;

    let order = priority_order(s);
    let r = sort_by_priority(s);
    assert(order.skip(0) =~= order);
    assert forall|i: int| 0 <= i < s.len() implies first_pass(#[trigger] s[i], order) >= 0 by {
        lemma_first_pass(s[i], order);
    }
    lemma_passes_group(s, order, 0, 0);
    lemma_sort_by_priority_permutes(s);
    lemma_priority_order(s);
    assert forall|i: int| 0 <= i < r.len() implies 0 <= #[trigger] first_pass(r[i], order)
        < order.len() by {
        let v = r[i];
        assert(r.contains(v));
        assert(s.to_multiset().count(v) > 0);
        assert(s.contains(v));
        let m = choose|m: int| 0 <= m < s.len() && s[m] == v;
        assert(order.contains(v.prop.priority));
        let n = choose|n: int| 0 <= n < order.len() && order[n] == v.prop.priority;
        lemma_first_pass(v, order);
        assert(prio_matches(v, order[n]));
    }
}

/// The flattened list of a table sorted by priority is a permutation of
/// the flattened list, grouped by the first priority pass of each property.
pub proof fn lemma_flatten_dt(dt: Map<Seq<char>, TableView>, t: TableView)
    ensures
        ({
            let s = flat_props(dt, t, excl_props(dt, t));
            let r = flattened(dt, t);
            let order = priority_order(s);
            &&& r.to_multiset() == s.to_multiset()
            &&& forall|i: int, j: int|
                0 <= i < j < r.len() ==> first_pass(#[trigger] r[i], order) <= first_pass(
                    #[trigger] r[j],
                    order,
                )
        }),
{
    let s = flat_props(dt, t, excl_props(dt, t));
    lemma_sort_by_priority_permutes(s);
    lemma_sort_by_priority_groups(s);
}

proof fn lemma_pass_leaves_no_match(s: Seq<PropView>, start: int, cur: int, prio: i32)
    requires
        0 <= start <= cur <= s.len(),
        forall|i: int| start <= i < cur ==> !prio_matches(#[trigger] s[i], prio),
    ensures
        ({
            let (r, st) = priority_pass(s, start, cur, prio);
            &&& r.len() == s.len()
            &&& 0 <= st <= r.len()
            &&& forall|i: int| st <= i < r.len() ==> !prio_matches(#[trigger] r[i], prio)
        }),
    decreases s.len() - cur,
{
    if cur < s.len() {
        if prio_matches(s[cur], prio) {
            let s2 = swap_at(s, start, cur);
            assert forall|i: int| start + 1 <= i < cur + 1 implies !prio_matches(
                #[trigger] s2[i],
                prio,
            ) by {
                if i == cur {
                    assert(s2[i] == s[start]);
                } else {
                    assert(s2[i] == s[i]);
                }
            }
            lemma_pass_leaves_no_match(s2, start + 1, cur + 1, prio);
        } else {
            lemma_pass_leaves_no_match(s, start, cur + 1, prio);
        }
    }
}

proof fn lemma_pass_without_match(s: Seq<PropView>, start: int, cur: int, prio: i32)
    requires
        0 <= start <= cur,
        forall|i: int| cur <= i < s.len() ==> !prio_matches(#[trigger] s[i], prio),
    ensures
        priority_pass(s, start, cur, prio) == (s, start),
    decreases s.len() - cur,
{
    if cur < s.len() {
        assert(!prio_matches(s[cur], prio));
        lemma_pass_without_match(s, start, cur + 1, prio);
    }
}

/// A second pass for the same priority, from where the first one stopped,
/// changes nothing: after a pass, no property from its stopping point on
/// belongs to it. So a priority that is visited twice in a row is sorted
/// as if it were visited once.
pub proof fn lemma_priority_pass_repeat(s: Seq<PropView>, start: int, prio: i32)
    requires
        0 <= start <= s.len(),
    ensures
        ({
            let (s2, st) = priority_pass(s, start, start, prio);
            priority_pass(s2, st, st, prio) == (s2, st)
        }),
{
    lemma_pass_leaves_no_match(s, start, start, prio);
    let (s2, st) = priority_pass(s, start, start, prio);
    lemma_pass_without_match(s2, st, st, prio);
}

/// Every column of `s` is 0 or 1.
pub open spec fn cols_binary(s: Seq<PropView>) -> bool {
    forall|i: int| 0 <= i < s.len() ==> (#[trigger] s[i]).col == 0 || s[i].col == 1
}

proof fn lemma_col_filters(s: Seq<PropView>)
    ensures
        forall|i: int| 0 <= i < col_zero(s).len() ==> (#[trigger] col_zero(s)[i]).col == 0,
        forall|i: int| 0 <= i < col_nonzero(s).len() ==> (#[trigger] col_nonzero(s)[i]).col != 0,
        cols_binary(s) ==> cols_binary(col_nonzero(s)),
    decreases s.len(),
{
    if s.len() > 0 {
        let t = s.drop_last();
        lemma_col_filters(t);
        if cols_binary(s) {
            assert forall|i: int| 0 <= i < t.len() implies (#[trigger] t[i]).col == 0 || t[i].col
                == 1 by {
                assert(t[i] == s[i]);
            }
            assert(s.last() == s[s.len() - 1]);
        }
    }
}

proof fn lemma_prefix_cols(
    dt: Map<Seq<char>, TableView>,
    t: TableView,
    excl: Seq<crate::sendtable::SendProp>,
    d: nat,
    k: nat,
)
    ensures
        cols_binary(props_prefix(dt, t, excl, d, k)),
    decreases d, k,
{
    if k > 0 && k <= t.props.len() {
        lemma_prefix_cols(dt, t, excl, d, (k - 1) as nat);
        let acc = props_prefix(dt, t, excl, d, (k - 1) as nat);
        let p = t.props[k - 1];
        if p.type_ == PROP_TYPE_DATATABLE && d > 0 && dt.contains_key(p.dt_name@) {
            let child = props_from(dt, dt[p.dt_name@], excl, (d - 1) as nat);
            lemma_from_cols(dt, dt[p.dt_name@], excl, (d - 1) as nat);
            let z = with_col_zero(child);
            assert(cols_binary(acc + child));
            assert forall|i: int| 0 <= i < z.len() implies (#[trigger] z[i]).col == 0 by {}
            assert(cols_binary(acc + z));
        }
    }
}

proof fn lemma_from_cols(
    dt: Map<Seq<char>, TableView>,
    t: TableView,
    excl: Seq<crate::sendtable::SendProp>,
    d: nat,
)
    ensures
        cols_binary(props_from(dt, t, excl, d)),
    decreases d, t.props.len() + 1,
{
    let s = props_prefix(dt, t, excl, d, t.props.len());
    lemma_prefix_cols(dt, t, excl, d, t.props.len());
    lemma_col_filters(s);
    assert(cols_binary(col_zero(s) + col_nonzero(s)));
}

/// The flattened list of a table has every property in column 0 or 1, the
/// ones in column 0 first: its sort by column is a stable sort.
pub proof fn lemma_flat_props_by_col(
    dt: Map<Seq<char>, TableView>,
    t: TableView,
    excl: Seq<crate::sendtable::SendProp>,
)
    ensures
        cols_binary(flat_props(dt, t, excl)),
        forall|i: int, j: int|
            0 <= i < j < flat_props(dt, t, excl).len() ==> (#[trigger] flat_props(dt, t, excl)[i]).col
                <= (#[trigger] flat_props(dt, t, excl)[j]).col,
{
    let d = choose|d: nat| crate::sendtable::props_defined(dt, t, excl, d);
    let s = props_prefix(dt, t, excl, d, t.props.len());
    lemma_from_cols(dt, t, excl, d);
    lemma_col_filters(s);
    let r = flat_props(dt, t, excl);
    let z = col_zero(s);
    let nz = col_nonzero(s);
    assert(r == z + nz);
    assert forall|i: int, j: int| 0 <= i < j < r.len() implies (#[trigger] r[i]).col <= (
    #[trigger] r[j]).col by {
        if i < z.len() {
            assert(r[i] == z[i]);
        } else {
            assert(r[i] == nz[i - z.len()]);
            assert(r[j] == nz[j - z.len()]);
        }
    }
}

proof fn lemma_excl_prefix_flagged(dt: Map<Seq<char>, TableView>, t: TableView, d: nat, k: nat)
    ensures
        forall|i: int|
            0 <= i < excl_prefix(dt, t, d, k).len() ==> has_flag(
                #[trigger] excl_prefix(dt, t, d, k)[i].flags,
                FLAG_EXCLUDE,
            ),
    decreases d, k,
{
    if k > 0 && k <= t.props.len() {
        lemma_excl_prefix_flagged(dt, t, d, (k - 1) as nat);
        let acc = excl_prefix(dt, t, d, (k - 1) as nat);
        let p = t.props[k - 1];
        let acc2 = if has_flag(p.flags, FLAG_EXCLUDE) {
            acc.push(p)
        } else {
            acc
        };
        assert forall|i: int| 0 <= i < acc2.len() implies has_flag(
            #[trigger] acc2[i].flags,
            FLAG_EXCLUDE,
        ) by {
            if i < acc.len() {
                assert(acc2[i] == acc[i]);
            }
        }
        if p.type_ == PROP_TYPE_DATATABLE && d > 0 && dt.contains_key(p.dt_name@) {
            let c = dt[p.dt_name@];
            let child = excl_from(dt, c, (d - 1) as nat);
            lemma_excl_prefix_flagged(dt, c, (d - 1) as nat, c.props.len());
            assert(child == excl_prefix(dt, c, (d - 1) as nat, c.props.len()));
            assert(excl_prefix(dt, t, d, k) == acc2 + child);
            assert forall|i: int| 0 <= i < (acc2 + child).len() implies has_flag(
                #[trigger] (acc2 + child)[i].flags,
                FLAG_EXCLUDE,
            ) by {
                if i < acc2.len() {
                    assert((acc2 + child)[i] == acc2[i]);
                } else {
                    assert((acc2 + child)[i] == child[i - acc2.len()]);
                }
            }
        } else {
            assert(excl_prefix(dt, t, d, k) == acc2);
        }
    }
}

/// Every property gathered as excluded, from the table or from a table
/// nested in it, has the exclude flag.
pub proof fn lemma_excl_props_flagged(dt: Map<Seq<char>, TableView>, t: TableView)
    ensures
        forall|i: int|
            0 <= i < excl_props(dt, t).len() ==> has_flag(
                #[trigger] excl_props(dt, t)[i].flags,
                FLAG_EXCLUDE,
            ),
{
    let d = choose|d: nat| excl_defined(dt, t, d);
    lemma_excl_prefix_flagged(dt, t, d, t.props.len());
    assert(excl_props(dt, t) == excl_prefix(dt, t, d, t.props.len()));
}

proof fn lemma_pass_on_grouped(s: Seq<PropView>, order: Seq<i32>, k: int, cur: int)
    requires
        0 <= k < order.len(),
        0 <= cur <= s.len(),
        forall|i: int| cur <= i < s.len() ==> first_pass(#[trigger] s[i], order) >= k,
        forall|i: int, j: int|
            cur <= i < j < s.len() ==> first_pass(#[trigger] s[i], order) <= first_pass(
                #[trigger] s[j],
                order,
            ),
    ensures
        ({
            let (r, st) = priority_pass(s, cur, cur, order[k]);
            &&& r == s
            &&& cur <= st <= s.len()
            &&& forall|i: int| st <= i < s.len() ==> first_pass(#[trigger] s[i], order) > k
        }),
    decreases s.len() - cur,
{
    if cur < s.len() {
        lemma_first_pass_at(s[cur], order, k);
        if prio_matches(s[cur], order[k]) {
            assert(swap_at(s, cur, cur) =~= s);
            lemma_pass_on_grouped(s, order, k, cur + 1);
        } else {
            assert forall|i: int| cur <= i < s.len() implies !prio_matches(
                #[trigger] s[i],
                order[k],
            ) by {
                lemma_first_pass_at(s[i], order, k);
            }
            lemma_pass_without_match(s, cur, cur, order[k]);
        }
    }
}

proof fn lemma_passes_on_grouped(s: Seq<PropView>, order: Seq<i32>, k: int, start: int)
    requires
        0 <= k <= order.len(),
        0 <= start <= s.len(),
        forall|i: int| start <= i < s.len() ==> first_pass(#[trigger] s[i], order) >= k,
        forall|i: int, j: int|
            start <= i < j < s.len() ==> first_pass(#[trigger] s[i], order) <= first_pass(
                #[trigger] s[j],
                order,
            ),
    ensures
        priority_passes(s, order.skip(k), start) == s,
    decreases order.len() - k,
{
    let rest = order.skip(k);
    if k < order.len() {
        assert(rest[0] == order[k]);
        assert(rest.drop_first() =~= order.skip(k + 1));
        lemma_pass_on_grouped(s, order, k, start);
        let (r, st) = priority_pass(s, start, start, order[k]);
        lemma_passes_on_grouped(s, order, k + 1, st);
    } else {
        assert(rest.len() == 0);
    }
}

/// Sorting by priority leaves a list that is already grouped by the first
/// pass of each property (its priority, or 64 for a property that changes
/// often and has a higher one) as it is.
pub proof fn lemma_sort_by_priority_keeps_grouped(s: Seq<PropView>)
    requires
        forall|i: int, j: int|
            0 <= i < j < s.len() ==> first_pass(#[trigger] s[i], priority_order(s)) <= first_pass(
                #[trigger] s[j],
                priority_order(s),
            ),
    ensures
        sort_by_priority(s) == s,
{
    let order = priority_order(s);
    assert forall|i: int| 0 <= i < s.len() implies first_pass(#[trigger] s[i], order) >= 0 by {
        lemma_first_pass(s[i], order);
    }
    assert(order.skip(0) =~= order);
    lemma_passes_on_grouped(s, order, 0, 0);
}

/// `flatten_dt` leaves the flattened list of a table as it is when that
/// list is already grouped by first priority pass.
pub proof fn lemma_flatten_dt_keeps_grouped(dt: Map<Seq<char>, TableView>, t: TableView)
    requires
        ({
            let s = flat_props(dt, t, excl_props(dt, t));
            forall|i: int, j: int|
                0 <= i < j < s.len() ==> first_pass(#[trigger] s[i], priority_order(s))
                    <= first_pass(#[trigger] s[j], priority_order(s))
        }),
    ensures
        flattened(dt, t) == flat_props(dt, t, excl_props(dt, t)),
{
    lemma_sort_by_priority_keeps_grouped(flat_props(dt, t, excl_props(dt, t)));
}

/// The priority of the pass that places `v`: 64 for a property that changes
/// often and has a higher priority, its own priority otherwise.
pub open spec fn pass_priority(v: PropView) -> int {
    if has_flag(v.prop.flags, FLAG_CHANGES_OFTEN) && v.prop.priority > CHANGES_OFTEN_PRIORITY {
        CHANGES_OFTEN_PRIORITY as int
    } else {
        v.prop.priority as int
    }
}

proof fn lemma_first_pass_priority(v: PropView, order: Seq<i32>)
    requires
        strictly_increasing(order),
        order.contains(v.prop.priority),
        order.contains(CHANGES_OFTEN_PRIORITY),
    ensures
        0 <= first_pass(v, order) < order.len(),
        order[first_pass(v, order)] == pass_priority(v),
{
    lemma_first_pass(v, order);
    let f = first_pass(v, order);
    let a = choose|a: int| 0 <= a < order.len() && order[a] == v.prop.priority;
    let b = choose|b: int| 0 <= b < order.len() && order[b] == CHANGES_OFTEN_PRIORITY;
    assert(prio_matches(v, order[a]));
    if f >= order.len() {
        assert(!prio_matches(v, order[a]));
    }
    assert(f <= a) by {
        if f > a {
            assert(!prio_matches(v, order[a]));
        }
    }
    if has_flag(v.prop.flags, FLAG_CHANGES_OFTEN) {
        assert(prio_matches(v, order[b]));
        assert(f <= b) by {
            if f > b {
                assert(!prio_matches(v, order[b]));
            }
        }
    }
    if order[f] == v.prop.priority {
        if has_flag(v.prop.flags, FLAG_CHANGES_OFTEN) && v.prop.priority > CHANGES_OFTEN_PRIORITY {
            assert(b < a) by {
                if b >= a {
                    if b > a {
                        assert(order[a] < order[b]);
                    }
                }
            }
            if f < a {
                assert(order[f] < order[a]);
            }
        }
    } else {
        assert(order[f] == CHANGES_OFTEN_PRIORITY);
        if f < b {
            assert(order[f] < order[b]);
        } else if f > b {
            assert(order[b] < order[f]);
        }
        assert(f == b);
        if a < b {
            assert(order[a] < order[b]);
        } else {
            assert(a != b);
            assert(order[b] < order[a]);
        }
    }
}

/// Sorting by priority orders the properties by the priority of the pass
/// that places each (see `pass_priority`): a property of priority `q` that
/// does not change often, or whose `q` is at most 64, comes in the place of
/// priority `q`; one that changes often and has a higher priority comes
/// with those of priority 64.
pub proof fn lemma_sort_by_priority_orders(s: Seq<PropView>)
    ensures
        forall|i: int, j: int|
            0 <= i < j < sort_by_priority(s).len() ==> pass_priority(
                #[trigger] sort_by_priority(s)[i],
            ) <= pass_priority(#[trigger] sort_by_priority(s)[j]),
{
    broadcast use vstd::seq_lib::to_multiset_contains;

    let r = sort_by_priority(s);
    let order = priority_order(s);
    lemma_sort_by_priority_groups(s);
    lemma_sort_by_priority_permutes(s);
    lemma_priority_order(s);
    assert(order.contains(CHANGES_OFTEN_PRIORITY));
    assert forall|i: int| 0 <= i < r.len() implies order[first_pass(#[trigger] r[i], order)]
        == pass_priority(r[i]) by {
        let v = r[i];
        assert(r.contains(v));
        assert(s.to_multiset().count(v) > 0);
        assert(s.contains(v));
        let m = choose|m: int| 0 <= m < s.len() && s[m] == v;
        assert(order.contains(v.prop.priority));
        lemma_first_pass_priority(v, order);
    }
    assert forall|i: int, j: int| 0 <= i < j < r.len() implies pass_priority(#[trigger] r[i])
        <= pass_priority(#[trigger] r[j]) by {
        let fi = first_pass(r[i], order);
        let fj = first_pass(r[j], order);
        assert(order[fi] == pass_priority(r[i]));
        assert(order[fj] == pass_priority(r[j]));
        assert(fi <= fj);
        if fi < fj {
            assert(order[fi] < order[fj]);
        }
    }
}

/// `flatten_dt` orders the flattened list by the priority of the pass that
/// places each property (see `lemma_sort_by_priority_orders`).
pub proof fn lemma_flatten_dt_orders(dt: Map<Seq<char>, TableView>, t: TableView)
    ensures
        forall|i: int, j: int|
            0 <= i < j < flattened(dt, t).len() ==> pass_priority(#[trigger] flattened(dt, t)[i])
                <= pass_priority(#[trigger] flattened(dt, t)[j]),
{
    lemma_sort_by_priority_orders(flat_props(dt, t, excl_props(dt, t)));
}

} // verus!
