//! Per-tick output columns: a column holds one optional value per row, of
//! one type, and columns are found by name.

use vstd::prelude::*;
use crate::entities::PropValue;

verus! {

/// The rows of a column, by the type of its values. A 32-bit float is held
/// by its IEEE-754 bits.
pub enum VarVec {
    I32(Vec<Option<i32>>),
    F32(Vec<Option<u32>>),
    String(Vec<Option<String>>),
    U64(Vec<Option<u64>>),
}

/// What a column holds: its type and its rows.
pub enum ColumnView {
    I32(Seq<Option<i32>>),
    F32(Seq<Option<u32>>),
    String(Seq<Option<String>>),
    U64(Seq<Option<u64>>),
}

/// An output column.
pub struct PropColumn {
    pub data: VarVec,
}

impl View for PropColumn {
    type V = ColumnView;

    open spec fn view(&self) -> ColumnView {
        match self.data {
            VarVec::I32(v) => ColumnView::I32(v@),
            VarVec::F32(v) => ColumnView::F32(v@),
            VarVec::String(v) => ColumnView::String(v@),
            VarVec::U64(v) => ColumnView::U64(v@),
        }
    }
}

/// A column type that a new column can be made of: 0 (i32), 1 and 2
/// (floats), 4 (strings), 5 (u64).
pub open spec fn valid_col_type(col_type: i32) -> bool {
    col_type == 0 || col_type == 1 || col_type == 2 || col_type == 4 || col_type == 5
}

/// The empty column of a type.
pub open spec fn empty_column(col_type: i32) -> ColumnView {
    if col_type == 0 {
        ColumnView::I32(seq![])
    } else if col_type == 1 || col_type == 2 {
        ColumnView::F32(seq![])
    } else if col_type == 4 {
        ColumnView::String(seq![])
    } else {
        ColumnView::U64(seq![])
    }
}

/// `c` with one more row: `v` when it is a value of the column's type,
/// empty otherwise.
pub open spec fn push_cell(c: ColumnView, v: Option<PropValue>) -> ColumnView {
    match c {
        ColumnView::I32(s) => ColumnView::I32(
            s.push(
                match v {
                    Some(PropValue::I32(x)) => Some(x),
                    _ => None,
                },
            ),
        ),
        ColumnView::F32(s) => ColumnView::F32(
            s.push(
                match v {
                    Some(PropValue::F32(x)) => Some(x),
                    _ => None,
                },
            ),
        ),
        ColumnView::String(s) => ColumnView::String(
            s.push(
                match v {
                    Some(PropValue::Str(x)) => Some(x),
                    _ => None,
                },
            ),
        ),
        ColumnView::U64(s) => ColumnView::U64(
            s.push(
                match v {
                    Some(PropValue::U64(x)) => Some(x),
                    _ => None,
                },
            ),
        ),
    }
}

/// The number of rows of a column.
pub open spec fn column_len(c: ColumnView) -> nat {
    match c {
        ColumnView::I32(s) => s.len(),
        ColumnView::F32(s) => s.len(),
        ColumnView::String(s) => s.len(),
        ColumnView::U64(s) => s.len(),
    }
}

/// A new, empty column of type `col_type`, with room for
/// `playback_frames` rows.
pub fn create_default(col_type: i32, playback_frames: usize) -> (c: PropColumn)
    requires
        valid_col_type(col_type),
    ensures
        c@ == empty_column(col_type),
{
    let v = if col_type == 0 {
        VarVec::I32(Vec::with_capacity(playback_frames))
    } else if col_type == 1 {
        VarVec::F32(Vec::with_capacity(playback_frames))
    } else if col_type == 2 {
        VarVec::F32(Vec::with_capacity(playback_frames))
    } else if col_type == 4 {
        VarVec::String(Vec::with_capacity(playback_frames))
    } else {
        VarVec::U64(Vec::with_capacity(playback_frames))
    };
    PropColumn { data: v }
}

impl PropColumn {
    /// Adds an empty row.
    pub fn push_none(&mut self)
        ensures
            final(self)@ == push_cell(old(self)@, None),
    {
        match &mut self.data {
            VarVec::I32(v) => v.push(None),
            VarVec::F32(v) => v.push(None),
            VarVec::String(v) => v.push(None),
            VarVec::U64(v) => v.push(None),
        }
    }

    /// Adds a row holding `item` when it is a value of the column's type,
    /// an empty row otherwise.
    pub fn push_propdata(&mut self, item: PropValue)
        ensures
            final(self)@ == push_cell(old(self)@, Some(item)),
    {
        match &mut self.data {
            VarVec::I32(v) => match item {
                PropValue::I32(x) => v.push(Some(x)),
                _ => v.push(None),
            },
            VarVec::F32(v) => match item {
                PropValue::F32(x) => v.push(Some(x)),
                _ => v.push(None),
            },
            VarVec::String(v) => match item {
                PropValue::Str(x) => v.push(Some(x)),
                _ => v.push(None),
            },
            VarVec::U64(v) => match item {
                PropValue::U64(x) => v.push(Some(x)),
                _ => v.push(None),
            },
        }
    }

    /// Adds an empty row, or a row holding `v` (see `push_cell`).
    pub fn push_value(&mut self, v: Option<PropValue>)
        ensures
            final(self)@ == push_cell(old(self)@, v),
    {
        match v {
            None => self.push_none(),
            Some(x) => self.push_propdata(x),
        }
    }

    /// Adds a row holding `x` in an i32 column, an empty row otherwise.
    pub fn push_i32(&mut self, x: i32)
        ensures
            final(self)@ == push_cell(old(self)@, Some(PropValue::I32(x))),
    {
        self.push_propdata(PropValue::I32(x))
    }

    /// Adds a row holding `x` in a string column, an empty row otherwise.
    pub fn push_string(&mut self, x: String)
        ensures
            final(self)@ == push_cell(old(self)@, Some(PropValue::Str(x))),
    {
        self.push_propdata(PropValue::Str(x))
    }

    /// Adds a row holding `x` in a u64 column, an empty row otherwise.
    pub fn push_u64(&mut self, x: u64)
        ensures
            final(self)@ == push_cell(old(self)@, Some(PropValue::U64(x))),
    {
        self.push_propdata(PropValue::U64(x))
    }
}

/// The columns by name.
pub struct ColumnMap {
    entries: Vec<(String, PropColumn)>,
}

/// The map that a sequence of (name, column) entries stands for.
pub open spec fn columns_view(s: Seq<(String, PropColumn)>) -> Map<Seq<char>, ColumnView>
    decreases s.len(),
{
    if s.len() == 0 {
        Map::empty()
    } else {
        columns_view(s.drop_last()).insert(s.last().0@, s.last().1@)
    }
}

/// No two entries share a name.
pub open spec fn unique_column_names(s: Seq<(String, PropColumn)>) -> bool {
    forall|i: int, j: int| 0 <= i < j < s.len() ==> s[i].0@ != s[j].0@
}

proof fn lemma_columns_view(s: Seq<(String, PropColumn)>)
    requires
        unique_column_names(s),
    ensures
        forall|k: Seq<char>|
            columns_view(s).contains_key(k) <==> exists|i: int| 0 <= i < s.len() && s[i].0@ == k,
        forall|i: int| 0 <= i < s.len() ==> #[trigger] columns_view(s)[s[i].0@] == s[i].1@,
    decreases s.len(),
{
    if s.len() > 0 {
        let t = s.drop_last();
        lemma_columns_view(t);
        assert forall|k: Seq<char>|
            columns_view(s).contains_key(k) <==> exists|i: int| 0 <= i < s.len() && s[i].0@ == k by {
            if columns_view(t).contains_key(k) {
                let i = choose|i: int| 0 <= i < t.len() && t[i].0@ == k;
                assert(s[i] == t[i]);
            }
            if exists|i: int| 0 <= i < s.len() && s[i].0@ == k {
                let i = choose|i: int| 0 <= i < s.len() && s[i].0@ == k;
                if i < s.len() - 1 {
                    assert(t[i] == s[i]);
                }
            }
        }
        assert forall|i: int| 0 <= i < s.len() implies #[trigger] columns_view(s)[s[i].0@]
            == s[i].1@ by {
            if i < s.len() - 1 {
                assert(t[i] == s[i]);
                assert(s[i].0@ != s[s.len() - 1].0@);
                assert(columns_view(t)[t[i].0@] == t[i].1@);
            }
        }
    }
}

proof fn lemma_columns_update(s: Seq<(String, PropColumn)>, i: int, e: (String, PropColumn))
    requires
        unique_column_names(s),
        0 <= i < s.len(),
        s[i].0@ == e.0@,
    ensures
        unique_column_names(s.update(i, e)),
        columns_view(s.update(i, e)) == columns_view(s).insert(e.0@, e.1@),
{
    let t = s.update(i, e);
    assert(unique_column_names(t)) by {
        assert forall|a: int, b: int| 0 <= a < b < t.len() implies t[a].0@ != t[b].0@ by {
            assert(s[a].0@ != s[b].0@);
        }
    }
    lemma_columns_view(s);
    lemma_columns_view(t);
    let key = e.0@;
    assert forall|k: Seq<char>| #[trigger] columns_view(t).contains_key(k) implies columns_view(
        s,
    ).insert(key, e.1@).contains_key(k) by {
        let j = choose|j: int| 0 <= j < t.len() && t[j].0@ == k;
        if j != i {
            assert(s[j].0@ == k);
        }
    }
    assert forall|k: Seq<char>| #[trigger] columns_view(s).insert(key, e.1@).contains_key(k)
        implies columns_view(t).contains_key(k) by {
        if k != key {
            let j = choose|j: int| 0 <= j < s.len() && s[j].0@ == k;
            assert(j != i);
            assert(t[j].0@ == k);
        } else {
            assert(t[i].0@ == k);
        }
    }
    assert forall|k: Seq<char>| #[trigger] columns_view(t).contains_key(k) implies columns_view(
        t,
    )[k] == columns_view(s).insert(key, e.1@)[k] by {
        let j = choose|j: int| 0 <= j < t.len() && t[j].0@ == k;
        assert(columns_view(t)[t[j].0@] == t[j].1@);
        if j != i {
            assert(columns_view(s)[s[j].0@] == s[j].1@);
        }
    }
    assert(columns_view(t) =~= columns_view(s).insert(key, e.1@));
}

/// `m` with one more row in column `name`, which is made empty of type
/// `col_type` first when there is no such column.
pub open spec fn put(
    m: Map<Seq<char>, ColumnView>,
    name: Seq<char>,
    col_type: i32,
    v: Option<PropValue>,
) -> Map<Seq<char>, ColumnView> {
    m.insert(
        name,
        push_cell(
            if m.contains_key(name) {
                m[name]
            } else {
                empty_column(col_type)
            },
            v,
        ),
    )
}

/// A row can be put in column `name` of `m`: the column exists, or one of
/// type `col_type` can be made.
pub open spec fn put_ok(m: Map<Seq<char>, ColumnView>, name: Seq<char>, col_type: i32) -> bool {
    m.contains_key(name) || valid_col_type(col_type)
}

impl View for ColumnMap {
    type V = Map<Seq<char>, ColumnView>;

    closed spec fn view(&self) -> Map<Seq<char>, ColumnView> {
        columns_view(self.entries@)
    }
}

impl ColumnMap {
    #[verifier::type_invariant]
    closed spec fn inv(self) -> bool {
        unique_column_names(self.entries@)
    }

    /// No columns.
    pub fn new() -> (m: Self)
        ensures
            m@ == Map::<Seq<char>, ColumnView>::empty(),
    {
        ColumnMap { entries: Vec::new() }
    }

    fn find(&self, name: &String) -> (r: Option<usize>)
        ensures
            match r {
                Some(i) => i < self.entries@.len() && self.entries@[i as int].0@ == name@,
                None => forall|j: int| 0 <= j < self.entries@.len() ==> self.entries@[j].0@ != name@,
            },
    {
        let mut i: usize = 0;
        while i < self.entries.len()
            invariant
                0 <= i <= self.entries@.len(),
                forall|j: int| 0 <= j < i ==> self.entries@[j].0@ != name@,
            decreases self.entries@.len() - i,
        {
            if self.entries[i].0 == *name {
                return Some(i);
            }
            i = i + 1;
        }
        None
    }

    /// The column named `name`, if any.
    pub fn get(&self, name: &String) -> (r: Option<&PropColumn>)
        ensures
            match r {
                Some(c) => self@.contains_key(name@) && self@[name@] == c@,
                None => !self@.contains_key(name@),
            },
    {
        proof {
            use_type_invariant(self);
            lemma_columns_view(self.entries@);
        }
        match self.find(name) {
            Some(i) => {
                assert(columns_view(self.entries@)[self.entries@[i as int].0@]
                    == self.entries@[i as int].1@);
                Some(&self.entries[i].1)
            },
            None => None,
        }
    }

    /// The names of the columns.
    pub fn names(&self) -> (r: Vec<String>)
        ensures
            forall|k: Seq<char>| self@.contains_key(k) <==> exists|i: int| 0 <= i < r@.len() && r@[i]@ == k,
    {
        proof {
            use_type_invariant(self);
            lemma_columns_view(self.entries@);
        }
        let mut r: Vec<String> = Vec::new();
        let mut i: usize = 0;
        while i < self.entries.len()
            invariant
                0 <= i <= self.entries@.len(),
                r@.len() == i,
                forall|j: int| 0 <= j < i ==> r@[j]@ == self.entries@[j].0@,
            decreases self.entries@.len() - i,
        {
            r.push(self.entries[i].0.clone());
            i = i + 1;
        }
        proof {
            assert forall|k: Seq<char>| self@.contains_key(k) <==> exists|i: int| 0 <= i < r@.len()
                && r@[i]@ == k by {
                if self@.contains_key(k) {
                    let j = choose|j: int| 0 <= j < self.entries@.len() && self.entries@[j].0@ == k;
                    assert(r@[j]@ == k);
                }
                if exists|i: int| 0 <= i < r@.len() && r@[i]@ == k {
                    let j = choose|j: int| 0 <= j < r@.len() && r@[j]@ == k;
                    assert(self.entries@[j].0@ == k);
                }
            }
        }
        r
    }

    /// Adds a row to column `name` (see `put`): an empty row, or `v` when
    /// it is a value of the column's type. A missing column is made empty
    /// of type `col_type` first.
    pub fn push_row(&mut self, name: &String, col_type: i32, playback_frames: usize, v: Option<
        PropValue,
    >)
        requires
            put_ok(old(self)@, name@, col_type),
        ensures
            final(self)@ == put(old(self)@, name@, col_type, v),
    {
        proof {
            use_type_invariant(&*self);
            lemma_columns_view(self.entries@);
        }
        let ghost old_entries = self.entries@;
        let found = self.find(name);
        let mut entries = Vec::new();
        std::mem::swap(&mut entries, &mut self.entries);
        match found {
            Some(i) => {
                let (n, mut col) = entries.remove(i);
                col.push_value(v);
                let ghost e = (n, col);
                entries.insert(i, (n, col));
                proof {
                    assert(entries@ =~= old_entries.update(i as int, e));
                    lemma_columns_update(old_entries, i as int, e);
                }
            },
            None => {
                let mut col = create_default(col_type, playback_frames);
                col.push_value(v);
                entries.push((name.clone(), col));
                proof {
                    assert(entries@.drop_last() =~= old_entries);
                    assert(unique_column_names(entries@));
                }
            },
        }
        self.entries = entries;
    }
}

} // verus!
