//! Send tables, their properties, and the flattening of a table tree into
//! the ordered property list of a server class.

use vstd::prelude::*;
use crate::demo::Demo;
use crate::entities::PropData;

verus! {

/// Property type of an integer.
pub const PROP_TYPE_INT: i32 = 0;

/// Property type of a float.
pub const PROP_TYPE_FLOAT: i32 = 1;

/// Property type of a three-component vector.
pub const PROP_TYPE_VECTOR: i32 = 2;

/// Property type of a two-component vector.
pub const PROP_TYPE_VECTORXY: i32 = 3;

/// Property type of a string.
pub const PROP_TYPE_STRING: i32 = 4;

/// Property type of a 64-bit integer.
pub const PROP_TYPE_INT64: i32 = 7;

/// The integer is unsigned (bit 0).
pub const FLAG_UNSIGNED: i32 = 1;

/// The float is a world coordinate (bit 1).
pub const FLAG_COORD: i32 = 2;

/// The float is sent as its 32 raw bits (bit 2).
pub const FLAG_NOSCALE: i32 = 4;

/// The float is a normal; a vector sends only the sign of its third part (bit 5).
pub const FLAG_NORMAL: i32 = 32;

/// The float is a multiplayer coordinate (bit 12).
pub const FLAG_COORD_MP: i32 = 4096;

/// The float is a low-precision multiplayer coordinate (bit 13).
pub const FLAG_COORD_MP_LOWPRECISION: i32 = 8192;

/// The float is an integral multiplayer coordinate (bit 14).
pub const FLAG_COORD_MP_INTEGRAL: i32 = 16384;

/// The float is a cell coordinate (bit 15).
pub const FLAG_CELL_COORD: i32 = 32768;

/// The float is a low-precision cell coordinate (bit 16).
pub const FLAG_CELL_COORD_LOWPRECISION: i32 = 65536;

/// The float is an integral cell coordinate (bit 17).
pub const FLAG_CELL_COORD_INTEGRAL: i32 = 131072;

/// The integer is sent as a variable-length number of bytes (bit 19).
pub const FLAG_VARINT: i32 = 524288;

/// Property type of a nested data table.
pub const PROP_TYPE_DATATABLE: i32 = 6;

/// Property type of an array.
pub const PROP_TYPE_ARRAY: i32 = 5;

/// The property is excluded from its class (bit 6).
pub const FLAG_EXCLUDE: i32 = 64;

/// The property is the element of an array (bit 8).
pub const FLAG_INSIDE_ARRAY: i32 = 256;

/// The properties of the nested table keep their own column (bit 11).
pub const FLAG_COLLAPSIBLE: i32 = 2048;

/// The property changes often and is sorted with priority 64 (bit 18).
pub const FLAG_CHANGES_OFTEN: i32 = 262144;

/// The priority given to properties that change often.
pub const CHANGES_OFTEN_PRIORITY: i32 = 64;

/// One property of a send table, as the demo's send-table message holds it.
pub struct SendProp {
    pub type_: i32,
    pub var_name: String,
    pub flags: i32,
    pub priority: i32,
    pub dt_name: String,
    pub num_elements: i32,
    pub num_bits: i32,
}

impl Clone for SendProp {
    fn clone(&self) -> (r: Self)
        ensures
            r == *self,
    {
        SendProp {
            type_: self.type_,
            var_name: self.var_name.clone(),
            flags: self.flags,
            priority: self.priority,
            dt_name: self.dt_name.clone(),
            num_elements: self.num_elements,
            num_bits: self.num_bits,
        }
    }
}

/// A send table: its name and its properties in order.
pub struct SendTable {
    pub net_table_name: String,
    pub props: Vec<SendProp>,
}

/// What a send table holds: its name and its properties in order.
pub struct TableView {
    pub name: Seq<char>,
    pub props: Seq<SendProp>,
}

impl View for SendTable {
    type V = TableView;

    open spec fn view(&self) -> TableView {
        TableView { name: self.net_table_name@, props: self.props@ }
    }
}

impl Clone for SendTable {
    fn clone(&self) -> (r: Self)
        ensures
            r@ == self@,
    {
        let props = self.props.clone();
        assert forall|i: int| 0 <= i < props@.len() implies props@[i] == self.props@[i] by {
            assert(cloned::<SendProp>(self.props[i], props[i]));
        }
        assert(props@ =~= self.props@);
        SendTable { net_table_name: self.net_table_name.clone(), props }
    }
}

/// The tables of a demo, found by name.
pub struct TableMap {
    entries: Vec<(String, SendTable)>,
}

/// The map that a sequence of (name, table) entries stands for.
pub open spec fn entries_view(s: Seq<(String, SendTable)>) -> Map<Seq<char>, TableView>
    decreases s.len(),
{
    if s.len() == 0 {
        Map::empty()
    } else {
        entries_view(s.drop_last()).insert(s.last().0@, s.last().1@)
    }
}

/// No two entries share a name.
pub open spec fn unique_names(s: Seq<(String, SendTable)>) -> bool {
    forall|i: int, j: int| 0 <= i < j < s.len() ==> s[i].0@ != s[j].0@
}

proof fn lemma_entries_view(s: Seq<(String, SendTable)>)
    requires
        unique_names(s),
    ensures
        forall|k: Seq<char>|
            entries_view(s).contains_key(k) <==> exists|i: int| 0 <= i < s.len() && s[i].0@ == k,
        forall|i: int| 0 <= i < s.len() ==> #[trigger] entries_view(s)[s[i].0@] == s[i].1@,
    decreases s.len(),
{
    if s.len() > 0 {
        let t = s.drop_last();
        lemma_entries_view(t);
        assert forall|k: Seq<char>|
            entries_view(s).contains_key(k) <==> exists|i: int| 0 <= i < s.len() && s[i].0@ == k by {
            if entries_view(t).contains_key(k) {
                let i = choose|i: int| 0 <= i < t.len() && t[i].0@ == k;
                assert(s[i] == t[i]);
            }
            if exists|i: int| 0 <= i < s.len() && s[i].0@ == k {
                let i = choose|i: int| 0 <= i < s.len() && s[i].0@ == k;
                if i < s.len() - 1 {
                    assert(t[i] == s[i]);
                }
            }
        }
        assert forall|i: int| 0 <= i < s.len() implies #[trigger] entries_view(s)[s[i].0@]
            == s[i].1@ by {
            if i < s.len() - 1 {
                assert(t[i] == s[i]);
                assert(s[i].0@ != s[s.len() - 1].0@);
                assert(entries_view(t)[t[i].0@] == t[i].1@);
            }
        }
    }
}

impl View for TableMap {
    type V = Map<Seq<char>, TableView>;

    closed spec fn view(&self) -> Map<Seq<char>, TableView> {
        entries_view(self.entries@)
    }
}

impl TableMap {
    #[verifier::type_invariant]
    closed spec fn inv(self) -> bool {
        unique_names(self.entries@)
    }

    /// An empty map of tables.
    pub fn new() -> (m: Self)
        ensures
            m@ == Map::<Seq<char>, TableView>::empty(),
    {
        TableMap { entries: Vec::new() }
    }

    /// The position of the entry named `name`, if any.
    fn find(&self, name: &String) -> (r: Option<usize>)
        ensures
            match r {
                Some(i) => i < self.entries@.len() && self.entries@[i as int].0@ == name@,
                None => forall|j: int| 0 <= j < self.entries@.len() ==> self.entries@[j].0@ != name@,
            },
    {
        let mut i: usize = 0;
        while i < self.entries.len()
            invariant
                0 <= i <= self.entries@.len(),
                forall|j: int| 0 <= j < i ==> self.entries@[j].0@ != name@,
            decreases self.entries@.len() - i,
        {
            if self.entries[i].0 == *name {
                return Some(i);
            }
            i = i + 1;
        }
        None
    }

    /// The table stored under `name`, if any.
    pub fn get(&self, name: &String) -> (r: Option<&SendTable>)
        ensures
            match r {
                Some(t) => self@.contains_key(name@) && self@[name@] == t@,
                None => !self@.contains_key(name@),
            },
    {
        proof {
            use_type_invariant(self);
            lemma_entries_view(self.entries@);
        }
        match self.find(name) {
            Some(i) => {
                assert(entries_view(self.entries@)[self.entries@[i as int].0@] == self.entries@[i as int].1@);
                Some(&self.entries[i].1)
            },
            None => None,
        }
    }

    /// Stores `table` under `name`, replacing the table stored there before.
    pub fn insert(&mut self, name: String, table: SendTable)
        ensures
            final(self)@ == old(self)@.insert(name@, table@),
    {
        proof {
            use_type_invariant(&*self);
            lemma_entries_view(self.entries@);
        }
        let ghost old_entries = self.entries@;
        let ghost key = name@;
        let found = self.find(&name);
        let mut entries = Vec::new();
        std::mem::swap(&mut entries, &mut self.entries);
        match found {
            Some(i) => {
                let ghost new_entries = old_entries.update(i as int, (name, table));
                proof {
                    assert(unique_names(new_entries));
                    lemma_entries_view(new_entries);
                    assert(new_entries[i as int].0@ == key);
                    assert forall|k: Seq<char>| #[trigger] entries_view(new_entries).contains_key(k)
                        implies entries_view(old_entries).insert(key, table@).contains_key(k) by {
                        let j = choose|j: int| 0 <= j < new_entries.len() && new_entries[j].0@ == k;
                        if j != i {
                            assert(new_entries[j] == old_entries[j]);
                            assert(old_entries[j].0@ == k);
                        }
                    }
                    assert forall|k: Seq<char>| #[trigger] entries_view(old_entries).insert(key, table@).contains_key(k)
                        implies entries_view(new_entries).contains_key(k) by {
                        if k != key {
                            assert(entries_view(old_entries).contains_key(k));
                            let j = choose|j: int| 0 <= j < old_entries.len() && old_entries[j].0@ == k;
                            assert(j != i);
                            assert(new_entries[j] == old_entries[j]);
                            assert(new_entries[j].0@ == k);
                        }
                    }
                    assert forall|k: Seq<char>| #[trigger] entries_view(new_entries).contains_key(k)
                        implies entries_view(new_entries)[k] == entries_view(old_entries).insert(key, table@)[k] by {
                        let j = choose|j: int| 0 <= j < new_entries.len() && new_entries[j].0@ == k;
                        assert(entries_view(new_entries)[new_entries[j].0@] == new_entries[j].1@);
                        if j != i {
                            assert(new_entries[j] == old_entries[j]);
                            assert(entries_view(old_entries)[old_entries[j].0@] == old_entries[j].1@);
                        }
                    }
                    assert(entries_view(new_entries) =~= entries_view(old_entries).insert(key, table@));
                }
                entries.set(i, (name, table));
            },
            None => {
                let ghost new_entries = old_entries.push((name, table));
                proof {
                    assert(new_entries.drop_last() =~= old_entries);
                    assert(unique_names(new_entries));
                }
                entries.push((name, table));
            },
        }
        self.entries = entries;
    }
}

/// A property of a flattened server class: the send property, the element
/// property when it is an array, the table it came from, its column
/// (0 when it was lifted out of a non-collapsible nested table) and its value.
pub struct Prop {
    pub prop: SendProp,
    pub arr: Option<SendProp>,
    pub table: SendTable,
    pub col: i32,
    pub data: Option<PropData>,
}

/// What a flattened property holds.
pub struct PropView {
    pub prop: SendProp,
    pub arr: Option<SendProp>,
    pub table: TableView,
    pub col: i32,
    pub data: Option<PropData>,
}

impl View for Prop {
    type V = PropView;

    open spec fn view(&self) -> PropView {
        PropView {
            prop: self.prop,
            arr: self.arr,
            table: self.table@,
            col: self.col,
            data: self.data,
        }
    }
}

impl Clone for Prop {
    fn clone(&self) -> (r: Self)
        ensures
            r@ == self@,
    {
        let arr = match &self.arr {
            Some(a) => Some(a.clone()),
            None => None,
        };
        let data = match &self.data {
            Some(d) => Some(d.clone()),
            None => None,
        };
        Prop { prop: self.prop.clone(), arr, table: self.table.clone(), col: self.col, data }
    }
}

/// The views of a sequence of flattened properties.
pub open spec fn prop_views(s: Seq<Prop>) -> Seq<PropView> {
    s.map_values(|p: Prop| p@)
}

/// `flags` has `flag` set.
pub open spec fn has_flag(flags: i32, flag: i32) -> bool {
    flags & flag != 0
}

/// An entry of `excl` names `prop` in table `t`.
pub open spec fn excluded_by(excl: Seq<SendProp>, t: TableView, prop: SendProp) -> bool {
    exists|i: int|
        0 <= i < excl.len() && #[trigger] excl[i].dt_name@ == t.name && excl[i].var_name@
            == prop.var_name@
}

/// Every nested table that the exclusion walk of `t` reaches is in `dt`,
/// at most `d` levels deep.
pub open spec fn excl_defined(dt: Map<Seq<char>, TableView>, t: TableView, d: nat) -> bool
    decreases d,
{
    forall|k: int|
        0 <= k < t.props.len() && (#[trigger] t.props[k]).type_ == PROP_TYPE_DATATABLE ==> {
            &&& d > 0
            &&& dt.contains_key(t.props[k].dt_name@)
            &&& excl_defined(dt, dt[t.props[k].dt_name@], (d - 1) as nat)
        }
}

/// The excluded properties of `t` and of the tables nested in it, at most `d` deep.
pub open spec fn excl_from(dt: Map<Seq<char>, TableView>, t: TableView, d: nat) -> Seq<SendProp>
    decreases d, t.props.len() + 1,
{
    excl_prefix(dt, t, d, t.props.len())
}

/// The excluded properties found among the first `k` properties of `t`.
pub open spec fn excl_prefix(
    dt: Map<Seq<char>, TableView>,
    t: TableView,
    d: nat,
    k: nat,
) -> Seq<SendProp>
    decreases d, k,
{
    if k == 0 || k > t.props.len() {
        seq![]
    } else {
        let acc = excl_prefix(dt, t, d, (k - 1) as nat);
        let p = t.props[k - 1];
        let acc2 = if has_flag(p.flags, FLAG_EXCLUDE) {
            acc.push(p)
        } else {
            acc
        };
        if p.type_ == PROP_TYPE_DATATABLE && d > 0 && dt.contains_key(p.dt_name@) {
            acc2 + excl_from(dt, dt[p.dt_name@], (d - 1) as nat)
        } else {
            acc2
        }
    }
}

/// The exclusion walk of `t` reaches only tables of `dt` and ends.
pub open spec fn excl_resolvable(dt: Map<Seq<char>, TableView>, t: TableView) -> bool {
    exists|d: nat| excl_defined(dt, t, d)
}

/// The excluded properties of `t` and of every table nested in it, depth first.
pub open spec fn excl_props(dt: Map<Seq<char>, TableView>, t: TableView) -> Seq<SendProp> {
    excl_from(dt, t, choose|d: nat| excl_defined(dt, t, d))
}

/// `p` of table `t` takes no place in the flattened list.
pub open spec fn skipped(p: SendProp, t: TableView, excl: Seq<SendProp>) -> bool {
    has_flag(p.flags, FLAG_INSIDE_ARRAY) || has_flag(p.flags, FLAG_EXCLUDE) || excluded_by(excl, t, p)
}

/// How many of the first `k` properties of `t` are not skipped.
pub open spec fn kept_count(t: TableView, excl: Seq<SendProp>, k: nat) -> nat
    decreases k,
{
    if k == 0 || k > t.props.len() {
        0
    } else {
        kept_count(t, excl, (k - 1) as nat) + if skipped(t.props[k - 1], t, excl) {
            0nat
        } else {
            1nat
        }
    }
}

/// Flattening `t` reaches only tables of `dt`, at most `d` deep, and no
/// array property comes before every kept property of its table.
pub open spec fn props_defined(
    dt: Map<Seq<char>, TableView>,
    t: TableView,
    excl: Seq<SendProp>,
    d: nat,
) -> bool
    decreases d,
{
    forall|k: int|
        0 <= k < t.props.len() && !skipped(#[trigger] t.props[k], t, excl) ==> {
            &&& t.props[k].type_ == PROP_TYPE_DATATABLE ==> {
                &&& d > 0
                &&& dt.contains_key(t.props[k].dt_name@)
                &&& props_defined(dt, dt[t.props[k].dt_name@], excl, (d - 1) as nat)
            }
            &&& t.props[k].type_ == PROP_TYPE_ARRAY ==> kept_count(t, excl, k as nat) > 0
        }
}

/// `s` with every column set to 0.
pub open spec fn with_col_zero(s: Seq<PropView>) -> Seq<PropView> {
    s.map_values(
        |v: PropView| PropView { prop: v.prop, arr: v.arr, table: v.table, col: 0, data: v.data },
    )
}

/// The elements of `s` in column 0, in order.
pub open spec fn col_zero(s: Seq<PropView>) -> Seq<PropView>
    decreases s.len(),
{
    if s.len() == 0 {
        s
    } else if s.last().col == 0 {
        col_zero(s.drop_last()).push(s.last())
    } else {
        col_zero(s.drop_last())
    }
}

/// The elements of `s` not in column 0, in order.
pub open spec fn col_nonzero(s: Seq<PropView>) -> Seq<PropView>
    decreases s.len(),
{
    if s.len() == 0 {
        s
    } else if s.last().col != 0 {
        col_nonzero(s.drop_last()).push(s.last())
    } else {
        col_nonzero(s.drop_last())
    }
}

/// `s` stably sorted by column, where every column is 0 or 1.
pub open spec fn sort_by_col(s: Seq<PropView>) -> Seq<PropView> {
    col_zero(s) + col_nonzero(s)
}

/// The flattened property of the `k`-th property `p` of `t`, when it is
/// neither skipped nor a nested table.
pub open spec fn leaf_prop(t: TableView, excl: Seq<SendProp>, k: nat) -> PropView {
    let p = t.props[k as int];
    PropView {
        prop: p,
        arr: if p.type_ == PROP_TYPE_ARRAY {
            Some(t.props[kept_count(t, excl, k) - 1])
        } else {
            None
        },
        table: t,
        col: 1,
        data: None,
    }
}

/// The flattened list of `t`, at most `d` tables deep.
pub open spec fn props_from(
    dt: Map<Seq<char>, TableView>,
    t: TableView,
    excl: Seq<SendProp>,
    d: nat,
) -> Seq<PropView>
    decreases d, t.props.len() + 1,
{
    sort_by_col(props_prefix(dt, t, excl, d, t.props.len()))
}

/// The flattened list of the first `k` properties of `t`, before sorting.
pub open spec fn props_prefix(
    dt: Map<Seq<char>, TableView>,
    t: TableView,
    excl: Seq<SendProp>,
    d: nat,
    k: nat,
) -> Seq<PropView>
    decreases d, k,
{
    if k == 0 || k > t.props.len() {
        seq![]
    } else {
        let acc = props_prefix(dt, t, excl, d, (k - 1) as nat);
        let p = t.props[k - 1];
        if skipped(p, t, excl) {
            acc
        } else if p.type_ == PROP_TYPE_DATATABLE {
            if d > 0 && dt.contains_key(p.dt_name@) {
                let child = props_from(dt, dt[p.dt_name@], excl, (d - 1) as nat);
                if has_flag(p.flags, FLAG_COLLAPSIBLE) {
                    acc + child
                } else {
                    acc + with_col_zero(child)
                }
            } else {
                acc
            }
        } else {
            acc.push(leaf_prop(t, excl, (k - 1) as nat))
        }
    }
}

/// Flattening `t` against `excl` reaches only tables of `dt`, ends, and
/// reads no array element before the start of a table.
pub open spec fn props_resolvable(
    dt: Map<Seq<char>, TableView>,
    t: TableView,
    excl: Seq<SendProp>,
) -> bool {
    exists|d: nat| props_defined(dt, t, excl, d)
}

/// The flattened property list of `t`: its kept properties, with the lists
/// of nested tables in their place, stably sorted by column.
pub open spec fn flat_props(
    dt: Map<Seq<char>, TableView>,
    t: TableView,
    excl: Seq<SendProp>,
) -> Seq<PropView> {
    props_from(dt, t, excl, choose|d: nat| props_defined(dt, t, excl, d))
}

/// `v` belongs to the pass of priority `prio`: it has that priority, or
/// the pass is the one for priority 64 and `v` changes often.
pub open spec fn prio_matches(v: PropView, prio: i32) -> bool {
    v.prop.priority == prio || (prio == CHANGES_OFTEN_PRIORITY && has_flag(
        v.prop.flags,
        FLAG_CHANGES_OFTEN,
    ))
}

/// `s` with the elements at `a` and `b` exchanged.
pub open spec fn swap_at(s: Seq<PropView>, a: int, b: int) -> Seq<PropView> {
    s.update(a, s[b]).update(b, s[a])
}

/// One pass for priority `prio` over `s` from position `cur`: every element
/// that belongs to the pass is exchanged with the element at `start`, and
/// `start` moves one on. Gives the new sequence and the new `start`.
pub open spec fn priority_pass(s: Seq<PropView>, start: int, cur: int, prio: i32) -> (Seq<
    PropView,
>, int)
    decreases s.len() - cur,
{
    if cur < 0 || cur >= s.len() || start < 0 || start > cur {
        (s, start)
    } else if prio_matches(s[cur], prio) {
        priority_pass(swap_at(s, start, cur), start + 1, cur + 1, prio)
    } else {
        priority_pass(s, start, cur + 1, prio)
    }
}

/// The passes for each priority of `prios` in turn, each from where the
/// previous one stopped.
pub open spec fn priority_passes(s: Seq<PropView>, prios: Seq<i32>, start: int) -> Seq<PropView>
    decreases prios.len(),
{
    if prios.len() == 0 {
        s
    } else {
        let (s2, start2) = priority_pass(s, start, start, prios[0]);
        priority_passes(s2, prios.drop_first(), start2)
    }
}

/// `x` added to `l` before its first element not below `x`, unless `x` is already there.
pub open spec fn insert_sorted(l: Seq<i32>, x: i32) -> Seq<i32>
    decreases l.len(),
{
    if l.len() == 0 {
        seq![x]
    } else if x < l[0] {
        seq![x] + l
    } else if x == l[0] {
        l
    } else {
        seq![l[0]] + insert_sorted(l.drop_first(), x)
    }
}

/// The distinct priorities of `s` in increasing order.
pub open spec fn priorities_of(s: Seq<PropView>) -> Seq<i32>
    decreases s.len(),
{
    if s.len() == 0 {
        seq![]
    } else {
        insert_sorted(priorities_of(s.drop_last()), s.last().prop.priority)
    }
}

/// The priorities whose passes sort `s`: its own and 64, each once, in increasing order.
pub open spec fn priority_order(s: Seq<PropView>) -> Seq<i32> {
    insert_sorted(priorities_of(s), CHANGES_OFTEN_PRIORITY)
}

/// `s` sorted by priority: the passes for each priority of `priority_order(s)`.
pub open spec fn sort_by_priority(s: Seq<PropView>) -> Seq<PropView> {
    priority_passes(s, priority_order(s), 0)
}

/// The flattened and priority-sorted property list of `t`.
pub open spec fn flattened(dt: Map<Seq<char>, TableView>, t: TableView) -> Seq<PropView> {
    sort_by_priority(flat_props(dt, t, excl_props(dt, t)))
}

proof fn lemma_insert_sorted_at(l: Seq<i32>, x: i32, p: int)
    requires
        0 <= p <= l.len(),
        forall|j: int| 0 <= j < p ==> l[j] < x,
        p < l.len() ==> x <= l[p],
    ensures
        insert_sorted(l, x) == if p < l.len() && l[p] == x {
            l
        } else {
            l.insert(p, x)
        },
    decreases l.len(),
{
    if l.len() > 0 && p > 0 {
        lemma_insert_sorted_at(l.drop_first(), x, p - 1);
        if p < l.len() && l[p] == x {
            assert(seq![l[0]] + l.drop_first() =~= l);
        } else {
            assert(seq![l[0]] + l.drop_first().insert(p - 1, x) =~= l.insert(p, x));
        }
    } else if l.len() > 0 {
        if x < l[0] {
            assert(seq![x] + l =~= l.insert(0, x));
        }
    } else {
        assert(seq![x] =~= l.insert(0, x));
    }
}

impl Demo {
    fn excl_props_at(&self, table: &SendTable, Ghost(d): Ghost<nat>) -> (excl: Vec<SendProp>)
        requires
            excl_defined(self.dt_view(), table@, d),
        ensures
            excl@ == excl_from(self.dt_view(), table@, d),
        decreases d,
    {
        let mut excl: Vec<SendProp> = Vec::new();
        let mut i: usize = 0;
        while i < table.props.len()
            invariant
                0 <= i <= table.props@.len(),
                excl_defined(self.dt_view(), table@, d),
                excl@ == excl_prefix(self.dt_view(), table@, d, i as nat),
            decreases table.props@.len() - i,
        {
            let prop = &table.props[i];
            if prop.flags & FLAG_EXCLUDE != 0 {
                excl.push(prop.clone());
            }
            if prop.type_ == PROP_TYPE_DATATABLE {
                assert(table@.props[i as int].type_ == PROP_TYPE_DATATABLE);
                let sub_table = self.dt_map.as_ref().unwrap().get(&prop.dt_name).unwrap();
                let mut sub = self.excl_props_at(sub_table, Ghost((d - 1) as nat));
                excl.append(&mut sub);
            }
            i = i + 1;
        }
        excl
    }

    /// The excluded properties of `table` and of every table nested in it,
    /// depth first, in table order.
    pub fn get_excl_props(&self, table: &SendTable) -> (excl: Vec<SendProp>)
        requires
            excl_resolvable(self.dt_view(), table@),
        ensures
            excl@ == excl_props(self.dt_view(), table@),
    {
        let ghost d = choose|d: nat| excl_defined(self.dt_view(), table@, d);
        self.excl_props_at(table, Ghost(d))
    }

    fn get_props_at(&self, table: &SendTable, excl: &Vec<SendProp>, Ghost(d): Ghost<nat>) -> (flat:
        Vec<Prop>)
        requires
            props_defined(self.dt_view(), table@, excl@, d),
        ensures
            prop_views(flat@) == props_from(self.dt_view(), table@, excl@, d),
        decreases d,
    {
        let ghost dt = self.dt_view();
        let mut flat: Vec<Prop> = Vec::new();
        let mut cnt: usize = 0;
        let mut i: usize = 0;
        while i < table.props.len()
            invariant
                0 <= i <= table.props@.len(),
                cnt <= i,
                dt == self.dt_view(),
                props_defined(dt, table@, excl@, d),
                cnt == kept_count(table@, excl@, i as nat),
                prop_views(flat@) == props_prefix(dt, table@, excl@, d, i as nat),
            decreases table.props@.len() - i,
        {
            let prop = &table.props[i];
            let ghost before = prop_views(flat@);
            if (prop.flags & FLAG_INSIDE_ARRAY != 0) || (prop.flags & FLAG_EXCLUDE != 0)
                || self.is_prop_excl(excl.clone(), table, prop.clone()) {
                assert(skipped(table@.props[i as int], table@, excl@));
            } else {
                assert(!skipped(table@.props[i as int], table@, excl@));
                if prop.type_ == PROP_TYPE_DATATABLE {
                    let sub_table = self.dt_map.as_ref().unwrap().get(&prop.dt_name).unwrap();
                    let child_props = self.get_props_at(sub_table, excl, Ghost((d - 1) as nat));
                    let ghost child = prop_views(child_props@);
                    let collapsible = prop.flags & FLAG_COLLAPSIBLE != 0;
                    let mut j: usize = 0;
                    while j < child_props.len()
                        invariant
                            0 <= j <= child_props@.len(),
                            child == prop_views(child_props@),
                            collapsible == has_flag(table@.props[i as int].flags, FLAG_COLLAPSIBLE),
                            prop_views(flat@) == before + (if collapsible {
                                child.take(j as int)
                            } else {
                                with_col_zero(child).take(j as int)
                            }),
                        decreases child_props@.len() - j,
                    {
                        let mut p = child_props[j].clone();
                        if !collapsible {
                            p.col = 0;
                        }
                        let ghost prev = flat@;
                        flat.push(p);
                        proof {
                            assert(prop_views(flat@) =~= prop_views(prev).push(p@));
                            if collapsible {
                                assert(child.take(j + 1) =~= child.take(j as int).push(p@));
                            } else {
                                assert(with_col_zero(child).take(j + 1) =~= with_col_zero(
                                    child,
                                ).take(j as int).push(p@));
                            }
                        }
                        j = j + 1;
                    }
                    proof {
                        assert(child.take(child.len() as int) =~= child);
                        assert(with_col_zero(child).take(child.len() as int) =~= with_col_zero(
                            child,
                        ));
                    }
                } else if prop.type_ == PROP_TYPE_ARRAY {
                    let prop_arr = Prop {
                        prop: prop.clone(),
                        arr: Some(table.props[cnt - 1].clone()),
                        table: table.clone(),
                        col: 1,
                        data: None,
                    };
                    let ghost prev = flat@;
                    flat.push(prop_arr);
                    assert(prop_views(flat@) =~= prop_views(prev).push(prop_arr@));
                } else {
                    let leaf = Prop {
                        prop: prop.clone(),
                        arr: None,
                        table: table.clone(),
                        col: 1,
                        data: None,
                    };
                    let ghost prev = flat@;
                    flat.push(leaf);
                    assert(prop_views(flat@) =~= prop_views(prev).push(leaf@));
                }
                cnt = cnt + 1;
            }
            i = i + 1;
        }
        self.sort_by_col(flat)
    }

    /// `flat` stably sorted by column: the column-0 properties first.
    fn sort_by_col(&self, flat: Vec<Prop>) -> (r: Vec<Prop>)
        ensures
            prop_views(r@) == sort_by_col(prop_views(flat@)),
    {
        let ghost s = prop_views(flat@);
        let mut zeros: Vec<Prop> = Vec::new();
        let mut others: Vec<Prop> = Vec::new();
        let mut i: usize = 0;
        while i < flat.len()
            invariant
                0 <= i <= flat@.len(),
                s == prop_views(flat@),
                prop_views(zeros@) == col_zero(s.take(i as int)),
                prop_views(others@) == col_nonzero(s.take(i as int)),
            decreases flat@.len() - i,
        {
            let p = flat[i].clone();
            assert(s.take(i + 1).drop_last() =~= s.take(i as int));
            let ghost pz = zeros@;
            let ghost po = others@;
            if p.col == 0 {
                zeros.push(p);
                assert(prop_views(zeros@) =~= prop_views(pz).push(p@));
            } else {
                others.push(p);
                assert(prop_views(others@) =~= prop_views(po).push(p@));
            }
            i = i + 1;
        }
        assert(s.take(s.len() as int) =~= s);
        let ghost pz = zeros@;
        zeros.append(&mut others);
        assert(prop_views(zeros@) =~= prop_views(pz) + col_nonzero(s));
        zeros
    }

    /// The flattened property list of `table`: each property that is not
    /// an array element, not excluded by its flags and not named in `excl`,
    /// in table order; a nested table gives its own flattened list in its
    /// place (moved to column 0 unless the property is collapsible); an
    /// array property carries the property at the position of the count of
    /// kept properties before it, less one. The list is then stably sorted
    /// by column.
    pub fn get_props(&self, table: &SendTable, excl: &Vec<SendProp>) -> (flat: Vec<Prop>)
        requires
            props_resolvable(self.dt_view(), table@, excl@),
        ensures
            prop_views(flat@) == flat_props(self.dt_view(), table@, excl@),
    {
        let ghost d = choose|d: nat| props_defined(self.dt_view(), table@, excl@, d);
        self.get_props_at(table, excl, Ghost(d))
    }

    /// `prios` with `x` added in order, unless it is already there.
    fn insert_priority(prios: &mut Vec<i32>, x: i32)
        ensures
            final(prios)@ == insert_sorted(old(prios)@, x),
    {
        let mut p: usize = 0;
        while p < prios.len() && prios[p] < x
            invariant
                0 <= p <= prios@.len(),
                prios@ == old(prios)@,
                forall|j: int| 0 <= j < p ==> prios@[j] < x,
            decreases prios@.len() - p,
        {
            p = p + 1;
        }
        proof {
            lemma_insert_sorted_at(prios@, x, p as int);
        }
        if p < prios.len() && prios[p] == x {
        } else {
            prios.insert(p, x);
        }
    }

    /// The pass for `priority` from `start`: each property that belongs to
    /// it is exchanged with the one at `start`, and `start` moves one on.
    fn priority_pass(newp: &mut Vec<Prop>, start: usize, priority: i32) -> (next: usize)
        requires
            start <= old(newp)@.len(),
        ensures
            (prop_views(final(newp)@), next as int) == priority_pass(
                prop_views(old(newp)@),
                start as int,
                start as int,
                priority,
            ),
            next <= final(newp)@.len(),
            final(newp)@.len() == old(newp)@.len(),
    {
        let ghost target = priority_pass(prop_views(newp@), start as int, start as int, priority);
        let mut start = start;
        let mut currentprop = start;
        while currentprop < newp.len()
            invariant
                start <= currentprop <= newp@.len(),
                newp@.len() == old(newp)@.len(),
                priority_pass(prop_views(newp@), start as int, currentprop as int, priority)
                    == target,
            decreases newp@.len() - currentprop,
        {
            let ghost sv = prop_views(newp@);
            let matches = newp[currentprop].prop.priority == priority || priority
                == CHANGES_OFTEN_PRIORITY && (newp[currentprop].prop.flags & FLAG_CHANGES_OFTEN)
                != 0;
            if matches {
                assert(prio_matches(sv[currentprop as int], priority));
                if start != currentprop {
                    let a = newp[start].clone();
                    let b = newp[currentprop].clone();
                    newp.set(start, b);
                    newp.set(currentprop, a);
                    assert(prop_views(newp@) =~= swap_at(sv, start as int, currentprop as int));
                } else {
                    assert(sv =~= swap_at(sv, start as int, currentprop as int));
                }
                start = start + 1;
            } else {
                assert(!prio_matches(sv[currentprop as int], priority));
            }
            currentprop = currentprop + 1;
        }
        start
    }

    /// The flattened property list of `table` sorted by priority: the
    /// excluded properties are gathered, the table is flattened against
    /// them, and then, for each distinct priority of the list and 64, in
    /// increasing order, the properties of that priority (for 64, also
    /// those that change often) are moved, one after the other, to the
    /// front of the part not yet placed, each exchanged with the property
    /// that stood there. Priority 64 is visited once even when a property
    /// has it: a second pass for it would change nothing (see
    /// `lemma_priority_pass_repeat`).
    pub fn flatten_dt(&self, table: &SendTable) -> (r: Vec<Prop>)
        requires
            excl_resolvable(self.dt_view(), table@),
            props_resolvable(self.dt_view(), table@, excl_props(self.dt_view(), table@)),
        ensures
            prop_views(r@) == flattened(self.dt_view(), table@),
    {
        let excl = self.get_excl_props(table);
        let mut newp = self.get_props(table, &excl);
        let ghost s0 = prop_views(newp@);
        let mut prios: Vec<i32> = Vec::new();
        let mut i: usize = 0;
        while i < newp.len()
            invariant
                0 <= i <= newp@.len(),
                s0 == prop_views(newp@),
                prios@ == priorities_of(s0.take(i as int)),
            decreases newp@.len() - i,
        {
            assert(s0.take(i + 1).drop_last() =~= s0.take(i as int));
            Self::insert_priority(&mut prios, newp[i].prop.priority);
            i = i + 1;
        }
        assert(s0.take(s0.len() as int) =~= s0);
        Self::insert_priority(&mut prios, CHANGES_OFTEN_PRIORITY);
        let ghost order = prios@;
        assert(order.skip(0) =~= order);
        let mut start: usize = 0;
        let mut k: usize = 0;
        while k < prios.len()
            invariant
                0 <= k <= prios@.len(),
                prios@ == order,
                start <= newp@.len(),
                priority_passes(prop_views(newp@), order.skip(k as int), start as int)
                    == priority_passes(s0, order, 0),
            decreases prios@.len() - k,
        {
            assert(order.skip(k as int).drop_first() =~= order.skip(k + 1));
            start = Self::priority_pass(&mut newp, start, prios[k]);
            k = k + 1;
        }
        assert(order.skip(order.len() as int) =~= Seq::<i32>::empty());
        newp
    }

    /// Whether `excl` names `prop` of `table`: an entry whose data-table
    /// name is the table's name and whose variable name is the property's.
    #[inline]
    pub fn is_prop_excl(&self, excl: Vec<SendProp>, table: &SendTable, prop: SendProp) -> (r: bool)
        ensures
            r == excluded_by(excl@, table@, prop),
    {
        let mut i: usize = 0;
        while i < excl.len()
            invariant
                0 <= i <= excl@.len(),
                forall|j: int|
                    0 <= j < i ==> !(excl@[j].dt_name@ == table@.name && excl@[j].var_name@
                        == prop.var_name@),
            decreases excl@.len() - i,
        {
            if table.net_table_name == excl[i].dt_name && prop.var_name == excl[i].var_name {
                return true;
            }
            i = i + 1;
        }
        false
    }
}

} // verus!
