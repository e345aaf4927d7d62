//! How the excluded properties and the flattened list of a table are made
//! of those of the tables nested in it.

use vstd::prelude::*;
use crate::sendtable::{
    col_nonzero, col_zero, excl_defined, excl_from, excluded_by, excl_prefix, excl_props, excl_resolvable,
    flat_props, has_flag, kept_count, leaf_prop, props_defined, props_from, props_prefix, props_resolvable,
    skipped, sort_by_col, with_col_zero, PropView, SendProp, TableView, FLAG_COLLAPSIBLE,
    FLAG_EXCLUDE, PROP_TYPE_ARRAY, PROP_TYPE_DATATABLE,
};

verus! {

proof fn lemma_excl_deeper(dt: Map<Seq<char>, TableView>, t: TableView, d: nat, d2: nat)
    requires
        excl_defined(dt, t, d),
        d <= d2,
    ensures
        excl_defined(dt, t, d2),
        excl_from(dt, t, d2) == excl_from(dt, t, d),
    decreases d, t.props.len() + 1,
{
    assert forall|k: int|
        0 <= k < t.props.len() && (#[trigger] t.props[k]).type_ == PROP_TYPE_DATATABLE implies d2
        > 0 && dt.contains_key(t.props[k].dt_name@) && excl_defined(
        dt,
        dt[t.props[k].dt_name@],
        (d2 - 1) as nat,
    ) by {
        lemma_excl_deeper(dt, dt[t.props[k].dt_name@], (d - 1) as nat, (d2 - 1) as nat);
    }
    lemma_excl_prefix_deeper(dt, t, d, d2, t.props.len());
}

proof fn lemma_excl_prefix_deeper(
    dt: Map<Seq<char>, TableView>,
    t: TableView,
    d: nat,
    d2: nat,
    k: nat,
)
    requires
        excl_defined(dt, t, d),
        d <= d2,
        k <= t.props.len(),
    ensures
        excl_prefix(dt, t, d2, k) == excl_prefix(dt, t, d, k),
    decreases d, k,
{
    if k > 0 {
        lemma_excl_prefix_deeper(dt, t, d, d2, (k - 1) as nat);
        let p = t.props[k - 1];
        if p.type_ == PROP_TYPE_DATATABLE {
            lemma_excl_deeper(dt, dt[p.dt_name@], (d - 1) as nat, (d2 - 1) as nat);
        }
    }
}

proof fn lemma_excl_depths(dt: Map<Seq<char>, TableView>, t: TableView, d1: nat, d2: nat)
    requires
        excl_defined(dt, t, d1),
        excl_defined(dt, t, d2),
    ensures
        excl_from(dt, t, d1) == excl_from(dt, t, d2),
{
    if d1 <= d2 {
        lemma_excl_deeper(dt, t, d1, d2);
    } else {
        lemma_excl_deeper(dt, t, d2, d1);
    }
}

/// The excluded properties of the first `k` properties of `t`: each one
/// with the exclude flag, followed, for a nested table, by the excluded
/// properties of that table.
pub open spec fn excl_unfolded(dt: Map<Seq<char>, TableView>, t: TableView, k: nat) -> Seq<
    SendProp,
>
    decreases k,
{
    if k == 0 || k > t.props.len() {
        seq![]
    } else {
        let acc = excl_unfolded(dt, t, (k - 1) as nat);
        let p = t.props[k - 1];
        let acc2 = if has_flag(p.flags, FLAG_EXCLUDE) {
            acc.push(p)
        } else {
            acc
        };
        if p.type_ == PROP_TYPE_DATATABLE {
            acc2 + excl_props(dt, dt[p.dt_name@])
        } else {
            acc2
        }
    }
}

proof fn lemma_excl_prefix_unfolded(dt: Map<Seq<char>, TableView>, t: TableView, d: nat, k: nat)
    requires
        excl_defined(dt, t, d),
        k <= t.props.len(),
    ensures
        excl_prefix(dt, t, d, k) == excl_unfolded(dt, t, k),
    decreases k,
{
    if k > 0 {
        lemma_excl_prefix_unfolded(dt, t, d, (k - 1) as nat);
        let p = t.props[k - 1];
        if p.type_ == PROP_TYPE_DATATABLE {
            let c = dt[p.dt_name@];
            assert(excl_defined(dt, c, (d - 1) as nat));
            let d2 = choose|d2: nat| excl_defined(dt, c, d2);
            lemma_excl_depths(dt, c, (d - 1) as nat, d2);
        }
    }
}

/// The excluded properties of a table are, in table order, each of its
/// properties with the exclude flag, and for each nested table the excluded
/// properties of that table, which can be gathered too.
pub proof fn lemma_excl_props_nested(dt: Map<Seq<char>, TableView>, t: TableView)
    requires
        excl_resolvable(dt, t),
    ensures
        excl_props(dt, t) == excl_unfolded(dt, t, t.props.len()),
        forall|k: int|
            0 <= k < t.props.len() && (#[trigger] t.props[k]).type_ == PROP_TYPE_DATATABLE ==> {
                &&& dt.contains_key(t.props[k].dt_name@)
                &&& excl_resolvable(dt, dt[t.props[k].dt_name@])
            },
{
    let d = choose|d: nat| excl_defined(dt, t, d);
    lemma_excl_prefix_unfolded(dt, t, d, t.props.len());
    assert forall|k: int|
        0 <= k < t.props.len() && (#[trigger] t.props[k]).type_ == PROP_TYPE_DATATABLE implies {
        &&& dt.contains_key(t.props[k].dt_name@)
        &&& excl_resolvable(dt, dt[t.props[k].dt_name@])
    } by {
        assert(excl_defined(dt, dt[t.props[k].dt_name@], (d - 1) as nat));
    }
}

proof fn lemma_props_deeper(
    dt: Map<Seq<char>, TableView>,
    t: TableView,
    excl: Seq<SendProp>,
    d: nat,
    d2: nat,
)
    requires
        props_defined(dt, t, excl, d),
        d <= d2,
    ensures
        props_defined(dt, t, excl, d2),
        props_from(dt, t, excl, d2) == props_from(dt, t, excl, d),
    decreases d, t.props.len() + 1,
{
    assert forall|k: int|
        0 <= k < t.props.len() && !skipped(#[trigger] t.props[k], t, excl)
            && t.props[k].type_ == PROP_TYPE_DATATABLE implies d2 > 0 && dt.contains_key(
        t.props[k].dt_name@,
    ) && props_defined(dt, dt[t.props[k].dt_name@], excl, (d2 - 1) as nat) by {
        lemma_props_deeper(dt, dt[t.props[k].dt_name@], excl, (d - 1) as nat, (d2 - 1) as nat);
    }
    lemma_props_prefix_deeper(dt, t, excl, d, d2, t.props.len());
}

proof fn lemma_props_prefix_deeper(
    dt: Map<Seq<char>, TableView>,
    t: TableView,
    excl: Seq<SendProp>,
    d: nat,
    d2: nat,
    k: nat,
)
    requires
        props_defined(dt, t, excl, d),
        d <= d2,
        k <= t.props.len(),
    ensures
        props_prefix(dt, t, excl, d2, k) == props_prefix(dt, t, excl, d, k),
    decreases d, k,
{
    if k > 0 {
        lemma_props_prefix_deeper(dt, t, excl, d, d2, (k - 1) as nat);
        let p = t.props[k - 1];
        if !skipped(p, t, excl) && p.type_ == PROP_TYPE_DATATABLE {
            lemma_props_deeper(dt, dt[p.dt_name@], excl, (d - 1) as nat, (d2 - 1) as nat);
        }
    }
}

proof fn lemma_props_depths(
    dt: Map<Seq<char>, TableView>,
    t: TableView,
    excl: Seq<SendProp>,
    d1: nat,
    d2: nat,
)
    requires
        props_defined(dt, t, excl, d1),
        props_defined(dt, t, excl, d2),
    ensures
        props_from(dt, t, excl, d1) == props_from(dt, t, excl, d2),
{
    if d1 <= d2 {
        lemma_props_deeper(dt, t, excl, d1, d2);
    } else {
        lemma_props_deeper(dt, t, excl, d2, d1);
    }
}

/// The flattened list of the first `k` properties of `t`, before sorting:
/// each kept property that is not a nested table, and for a nested table
/// the flattened list of that table (in column 0 unless collapsible).
pub open spec fn props_unfolded(
    dt: Map<Seq<char>, TableView>,
    t: TableView,
    excl: Seq<SendProp>,
    k: nat,
) -> Seq<PropView>
    decreases k,
{
    if k == 0 || k > t.props.len() {
        seq![]
    } else {
        let acc = props_unfolded(dt, t, excl, (k - 1) as nat);
        let p = t.props[k - 1];
        if skipped(p, t, excl) {
            acc
        } else if p.type_ == PROP_TYPE_DATATABLE {
            let child = flat_props(dt, dt[p.dt_name@], excl);
            if has_flag(p.flags, FLAG_COLLAPSIBLE) {
                acc + child
            } else {
                acc + with_col_zero(child)
            }
        } else {
            acc.push(leaf_prop(t, excl, (k - 1) as nat))
        }
    }
}

/// The number of entries that the first `k` properties of `t` give: none
/// for a skipped one, the length of the flattened list of a nested table,
/// one for any other.
pub open spec fn props_count(
    dt: Map<Seq<char>, TableView>,
    t: TableView,
    excl: Seq<SendProp>,
    k: nat,
) -> nat
    decreases k,
{
    if k == 0 || k > t.props.len() {
        0
    } else {
        let p = t.props[k - 1];
        props_count(dt, t, excl, (k - 1) as nat) + if skipped(p, t, excl) {
            0
        } else if p.type_ == PROP_TYPE_DATATABLE {
            flat_props(dt, dt[p.dt_name@], excl).len()
        } else {
            1
        }
    }
}

proof fn lemma_props_prefix_unfolded(
    dt: Map<Seq<char>, TableView>,
    t: TableView,
    excl: Seq<SendProp>,
    d: nat,
    k: nat,
)
    requires
        props_defined(dt, t, excl, d),
        k <= t.props.len(),
    ensures
        props_prefix(dt, t, excl, d, k) == props_unfolded(dt, t, excl, k),
        props_unfolded(dt, t, excl, k).len() == props_count(dt, t, excl, k),
    decreases k,
{
    if k > 0 {
        lemma_props_prefix_unfolded(dt, t, excl, d, (k - 1) as nat);
        let p = t.props[k - 1];
        if !skipped(p, t, excl) && p.type_ == PROP_TYPE_DATATABLE {
            let c = dt[p.dt_name@];
            assert(props_defined(dt, c, excl, (d - 1) as nat));
            let d2 = choose|d2: nat| props_defined(dt, c, excl, d2);
            lemma_props_depths(dt, c, excl, (d - 1) as nat, d2);
        }
    }
}

proof fn lemma_sort_by_col_len(s: Seq<PropView>)
    ensures
        sort_by_col(s).len() == s.len(),
    decreases s.len(),
{
    if s.len() > 0 {
        lemma_sort_by_col_len(s.drop_last());
    }
}

/// The flattened list of a table is its kept properties in order, with the
/// flattened list of each nested table in its place (that table can be
/// flattened too), stably sorted by column; so its length is the number
/// of kept properties that are not nested tables plus the lengths of the
/// lists of the nested tables.
pub proof fn lemma_flat_props_nested(dt: Map<Seq<char>, TableView>, t: TableView, excl: Seq<SendProp>)
    requires
        props_resolvable(dt, t, excl),
    ensures
        flat_props(dt, t, excl) == sort_by_col(props_unfolded(dt, t, excl, t.props.len())),
        flat_props(dt, t, excl).len() == props_count(dt, t, excl, t.props.len()),
        forall|k: int|
            0 <= k < t.props.len() && !skipped(#[trigger] t.props[k], t, excl)
                && t.props[k].type_ == PROP_TYPE_DATATABLE ==> {
                &&& dt.contains_key(t.props[k].dt_name@)
                &&& props_resolvable(dt, dt[t.props[k].dt_name@], excl)
            },
{
    let d = choose|d: nat| props_defined(dt, t, excl, d);
    lemma_props_prefix_unfolded(dt, t, excl, d, t.props.len());
    lemma_sort_by_col_len(props_unfolded(dt, t, excl, t.props.len()));
    assert forall|k: int|
        0 <= k < t.props.len() && !skipped(#[trigger] t.props[k], t, excl)
            && t.props[k].type_ == PROP_TYPE_DATATABLE implies {
        &&& dt.contains_key(t.props[k].dt_name@)
        &&& props_resolvable(dt, dt[t.props[k].dt_name@], excl)
    } by {
        assert(props_defined(dt, dt[t.props[k].dt_name@], excl, (d - 1) as nat));
    }
}

/// Whether `excl` excludes a property of a table depends on the table's
/// name and the property's variable name alone: no other field of the
/// table or the property matters.
pub proof fn lemma_excluded_by_names(
    excl: Seq<SendProp>,
    t: TableView,
    t2: TableView,
    p: SendProp,
    p2: SendProp,
)
    requires
        t.name == t2.name,
        p.var_name@ == p2.var_name@,
    ensures
        excluded_by(excl, t, p) == excluded_by(excl, t2, p2),
{
}

/// Nothing is excluded by no entries. An entry whose data-table name is the
/// table's name and whose variable name is the property's excludes the
/// property, whatever its other fields; an entry that differs in either
/// name adds no exclusion.
pub proof fn lemma_excluded_by_entry(excl: Seq<SendProp>, e: SendProp, t: TableView, p: SendProp)
    ensures
        !excluded_by(seq![], t, p),
        e.dt_name@ == t.name && e.var_name@ == p.var_name@ ==> excluded_by(excl.push(e), t, p),
        !(e.dt_name@ == t.name && e.var_name@ == p.var_name@) ==> excluded_by(excl.push(e), t, p)
            == excluded_by(excl, t, p),
{
    let s = excl.push(e);
    if e.dt_name@ == t.name && e.var_name@ == p.var_name@ {
        assert(s[excl.len() as int] == e);
    } else {
        if excluded_by(s, t, p) {
            let i = choose|i: int|
                0 <= i < s.len() && #[trigger] s[i].dt_name@ == t.name && s[i].var_name@
                    == p.var_name@;
            assert(i < excl.len());
            assert(excl[i] == s[i]);
        }
        if excluded_by(excl, t, p) {
            let i = choose|i: int|
                0 <= i < excl.len() && #[trigger] excl[i].dt_name@ == t.name && excl[i].var_name@
                    == p.var_name@;
            assert(s[i] == excl[i]);
        }
    }
}

/// How many of the first `k` properties of `t` are kept (not skipped).
pub open spec fn kept_before(t: TableView, excl: Seq<SendProp>, k: int) -> nat {
    t.props.take(k).filter(|p: SendProp| !skipped(p, t, excl)).len()
}

proof fn lemma_kept_count_before(t: TableView, excl: Seq<SendProp>, k: nat)
    requires
        k <= t.props.len(),
    ensures
        kept_count(t, excl, k) == kept_before(t, excl, k as int),
    decreases k,
{
    let pred = |p: SendProp| !skipped(p, t, excl);
    if k == 0 {
        assert(t.props.take(0) =~= Seq::<SendProp>::empty());
        assert(Seq::<SendProp>::empty().filter(pred) =~= Seq::<SendProp>::empty());
    } else {
        lemma_kept_count_before(t, excl, (k - 1) as nat);
        assert(t.props.take(k as int) =~= t.props.take(k - 1).push(t.props[k - 1]));
        t.props.take(k - 1).lemma_filter_len_push(pred, t.props[k - 1]);
    }
}

proof fn lemma_unfolded_keeps(
    dt: Map<Seq<char>, TableView>,
    t: TableView,
    excl: Seq<SendProp>,
    k: nat,
    k2: nat,
    x: PropView,
)
    requires
        k <= k2 <= t.props.len(),
        props_unfolded(dt, t, excl, k).contains(x),
    ensures
        props_unfolded(dt, t, excl, k2).contains(x),
    decreases k2,
{
    if k < k2 {
        lemma_unfolded_keeps(dt, t, excl, k, (k2 - 1) as nat, x);
        let acc = props_unfolded(dt, t, excl, (k2 - 1) as nat);
        let i = choose|i: int| 0 <= i < acc.len() && acc[i] == x;
        let r = props_unfolded(dt, t, excl, k2);
        assert(r.len() >= acc.len() && r[i] == acc[i]);
    }
}

proof fn lemma_col_parts_contain(s: Seq<PropView>, x: PropView)
    requires
        s.contains(x),
    ensures
        sort_by_col(s).contains(x),
    decreases s.len(),
{
    let t = s.drop_last();
    if s.last() == x {
        if x.col == 0 {
            assert(col_zero(s) == col_zero(t).push(x));
            assert(sort_by_col(s)[col_zero(t).len() as int] == x);
        } else {
            assert(col_nonzero(s) == col_nonzero(t).push(x));
            assert(sort_by_col(s)[(col_zero(s).len() + col_nonzero(t).len()) as int] == x);
        }
    } else {
        let i = choose|i: int| 0 <= i < s.len() && s[i] == x;
        assert(t[i] == x);
        lemma_col_parts_contain(t, x);
        let j = choose|j: int| 0 <= j < sort_by_col(t).len() && sort_by_col(t)[j] == x;
        if j < col_zero(t).len() {
            assert(sort_by_col(s)[j] == x);
        } else {
            let jj = j - col_zero(t).len();
            assert(col_nonzero(t)[jj] == x);
            assert(sort_by_col(s)[col_zero(s).len() + jj] == x);
        }
    }
}

/// Every kept array property of a table is in its flattened list, taken
/// from that table, in column 1, and carrying as its element property the
/// table's property at the index of the number of kept properties before
/// it, less one (there is at least one).
pub proof fn lemma_array_element(
    dt: Map<Seq<char>, TableView>,
    t: TableView,
    excl: Seq<SendProp>,
    k: int,
)
    requires
        props_resolvable(dt, t, excl),
        0 <= k < t.props.len(),
        !skipped(t.props[k], t, excl),
        t.props[k].type_ == PROP_TYPE_ARRAY,
    ensures
        kept_before(t, excl, k) > 0,
        flat_props(dt, t, excl).contains(
            PropView {
                prop: t.props[k],
                arr: Some(t.props[kept_before(t, excl, k) - 1]),
                table: t,
                col: 1,
                data: None,
            },
        ),
{
    let d = choose|d: nat| props_defined(dt, t, excl, d);
    assert(!skipped(t.props[k], t, excl));
    lemma_kept_count_before(t, excl, k as nat);
    lemma_flat_props_nested(dt, t, excl);
    let x = leaf_prop(t, excl, k as nat);
    let u = props_unfolded(dt, t, excl, (k + 1) as nat);
    assert(u == props_unfolded(dt, t, excl, k as nat).push(x));
    assert(u[u.len() - 1] == x);
    lemma_unfolded_keeps(dt, t, excl, (k + 1) as nat, t.props.len(), x);
    lemma_col_parts_contain(props_unfolded(dt, t, excl, t.props.len()), x);
}

} // verus!
