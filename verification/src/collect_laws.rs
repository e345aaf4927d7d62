//! What collecting player rows does to the shape of the output columns:
//! every collected player adds exactly one row to the column of each wanted
//! property and to the tick, name and steamid columns, and to no other.

use vstd::prelude::*;
use crate::collect::{
    collect_rows, manager_key, metadata_rows, name_set, player_collected, player_rows, prop_rows,
    prop_value, UserInfo, MANAGER_PROP_TYPE,
};
use crate::columns::{column_len, empty_column, push_cell, put, ColumnView};
use crate::entities::{EntityView, PropValue};

verus! {

/// The number of rows of column `name` of `m`; a missing column has none.
pub open spec fn rows_of(m: Map<Seq<char>, ColumnView>, name: Seq<char>) -> nat {
    if m.contains_key(name) {
        column_len(m[name])
    } else {
        0
    }
}

/// Column `name` is the same in `a` and in `b`: in both, or in neither.
pub open spec fn same_column(
    a: Map<Seq<char>, ColumnView>,
    b: Map<Seq<char>, ColumnView>,
    name: Seq<char>,
) -> bool {
    a.contains_key(name) == b.contains_key(name) && (a.contains_key(name) ==> a[name] == b[name])
}

/// The columns that a collected player adds a row to: those of the wanted
/// properties, and tick, name and steamid.
pub open spec fn row_names(names: Seq<String>) -> Set<Seq<char>> {
    name_set(names).insert("tick"@).insert("name"@).insert("steamid"@)
}

/// The wanted property names are distinct, and none of them is tick, name
/// or steamid.
pub open spec fn distinct_prop_names(names: Seq<String>) -> bool {
    &&& forall|i: int, j: int| 0 <= i < j < names.len() ==> names[i]@ != names[j]@
    &&& forall|i: int|
        0 <= i < names.len() ==> names[i]@ != "tick"@ && names[i]@ != "name"@ && names[i]@
            != "steamid"@
}

/// How many of the first `k` players give rows.
pub open spec fn collected_count(
    players: Seq<UserInfo>,
    k: nat,
    tick: i32,
    wanted_ticks: Set<i32>,
    wanted_players: Seq<u64>,
    ents: Seq<(u32, EntityView)>,
) -> nat
    decreases k,
{
    if k == 0 || k > players.len() {
        0
    } else {
        collected_count(players, (k - 1) as nat, tick, wanted_ticks, wanted_players, ents) + if player_collected(
            players[k - 1],
            tick,
            wanted_ticks,
            wanted_players,
            ents,
        ) {
            1nat
        } else {
            0nat
        }
    }
}

proof fn lemma_put_rows(m: Map<Seq<char>, ColumnView>, name: Seq<char>, t: i32, v: Option<PropValue>)
    ensures
        rows_of(put(m, name, t, v), name) == rows_of(m, name) + 1,
        forall|n: Seq<char>| n != name ==> same_column(put(m, name, t, v), m, n),
{
    let c = if m.contains_key(name) {
        m[name]
    } else {
        empty_column(t)
    };
    assert(column_len(c) == rows_of(m, name));
    assert(column_len(push_cell(c, v)) == column_len(c) + 1);
}

proof fn lemma_prop_rows_shape(
    m: Map<Seq<char>, ColumnView>,
    ent: EntityView,
    manager: Option<EntityView>,
    names: Seq<String>,
    types: Seq<i32>,
    j: nat,
)
    requires
        distinct_prop_names(names),
        j <= names.len(),
        names.len() == types.len(),
        prop_rows(Some(m), ent, manager, names, types, j) is Some,
    ensures
        forall|i: int|
            0 <= i < j ==> #[trigger] rows_of(
                prop_rows(Some(m), ent, manager, names, types, j).unwrap(),
                names[i]@,
            ) == rows_of(m, names[i]@) + 1,
        forall|n: Seq<char>|
            (forall|i: int| 0 <= i < j ==> names[i]@ != n) ==> same_column(
                prop_rows(Some(m), ent, manager, names, types, j).unwrap(),
                m,
                n,
            ),
    decreases j,
{
    if j > 0 {
        let prev = prop_rows(Some(m), ent, manager, names, types, (j - 1) as nat);
        let name = names[j - 1]@;
        assert(prev is Some);
        lemma_prop_rows_shape(m, ent, manager, names, types, (j - 1) as nat);
        let m0 = prev.unwrap();
        let m1 = prop_rows(Some(m), ent, manager, names, types, j).unwrap();
        let t = if types[j - 1] == MANAGER_PROP_TYPE {
            0i32
        } else {
            types[j - 1]
        };
        let v = if types[j - 1] == MANAGER_PROP_TYPE {
            match manager {
                Some(mg) => prop_value(
                    mg.props,
                    manager_key(name, ent.entity_id),
                ),
                None => None,
            }
        } else {
            prop_value(ent.props, name)
        };
        assert(m1 == put(m0, name, t, v));
        lemma_put_rows(m0, name, t, v);
        assert forall|i: int| 0 <= i < j - 1 implies names[i]@ != name by {}
        assert(same_column(m0, m, name));
        assert forall|i: int| 0 <= i < j implies #[trigger] rows_of(m1, names[i]@) == rows_of(
            m,
            names[i]@,
        ) + 1 by {
            if i < j - 1 {
                assert(rows_of(m0, names[i]@) == rows_of(m, names[i]@) + 1);
            }
        }
        assert forall|n: Seq<char>| (forall|i: int| 0 <= i < j ==> names[i]@ != n) implies same_column(
            m1,
            m,
            n,
        ) by {
            assert(names[j - 1]@ != n);
            assert(forall|i: int| 0 <= i < j - 1 ==> names[i]@ != n);
            assert(same_column(m0, m, n));
        }
    }
}

proof fn lemma_metadata_rows_shape(m: Map<Seq<char>, ColumnView>, name: String, tick: i32, xuid: u64)
    ensures
        forall|n: Seq<char>|
            n == "tick"@ || n == "name"@ || n == "steamid"@ ==> #[trigger] rows_of(
                metadata_rows(m, name, tick, xuid),
                n,
            ) == rows_of(m, n) + 1,
        forall|n: Seq<char>|
            !(n == "tick"@ || n == "name"@ || n == "steamid"@) ==> same_column(
                metadata_rows(m, name, tick, xuid),
                m,
                n,
            ),
{
    reveal_strlit("tick");
    reveal_strlit("name");
    reveal_strlit("steamid");
    let m1 = put(m, "tick"@, 0, Some(PropValue::I32(tick)));
    let m2 = put(m1, "name"@, 4, Some(PropValue::Str(name)));
    lemma_put_rows(m, "tick"@, 0, Some(PropValue::I32(tick)));
    lemma_put_rows(m1, "name"@, 4, Some(PropValue::Str(name)));
    lemma_put_rows(m2, "steamid"@, 5, Some(PropValue::U64(xuid)));
    assert("tick"@[0] != "name"@[0]);
    assert("tick"@ != "name"@);
    assert("tick"@.len() != "steamid"@.len());
    assert("tick"@ != "steamid"@);
    assert("name"@.len() != "steamid"@.len());
    assert("name"@ != "steamid"@);
}

proof fn lemma_player_rows_shape(
    m: Map<Seq<char>, ColumnView>,
    p: UserInfo,
    tick: i32,
    wanted_ticks: Set<i32>,
    wanted_players: Seq<u64>,
    ents: Seq<(u32, EntityView)>,
    manager_id: Option<u32>,
    names: Seq<String>,
    types: Seq<i32>,
)
    requires
        distinct_prop_names(names),
        names.len() == types.len(),
        player_rows(
            Some(m),
            p,
            tick,
            wanted_ticks,
            wanted_players,
            ents,
            manager_id,
            names,
            types,
        ) is Some,
    ensures
        ({
            let m2 = player_rows(
                Some(m),
                p,
                tick,
                wanted_ticks,
                wanted_players,
                ents,
                manager_id,
                names,
                types,
            ).unwrap();
            let added: nat = if player_collected(p, tick, wanted_ticks, wanted_players, ents) {
                1
            } else {
                0
            };
            &&& forall|n: Seq<char>|
                row_names(names).contains(n) ==> #[trigger] rows_of(m2, n) == rows_of(m, n) + added
            &&& forall|n: Seq<char>| !row_names(names).contains(n) ==> same_column(m2, m, n)
        }),
{
    let m2 = player_rows(
        Some(m),
        p,
        tick,
        wanted_ticks,
        wanted_players,
        ents,
        manager_id,
        names,
        types,
    ).unwrap();
    if player_collected(p, tick, wanted_ticks, wanted_players, ents) {
        let mg = match manager_id {
            Some(i) => Some(ents[i as int].1),
            None => None,
        };
        let ent = ents[p.entity_id as int].1;
        let pr = prop_rows(Some(m), ent, mg, names, types, names.len());
        assert(pr is Some);
        let m1 = pr.unwrap();
        assert(m2 == metadata_rows(m1, p.name, tick, p.xuid));
        lemma_prop_rows_shape(m, ent, mg, names, types, names.len());
        lemma_metadata_rows_shape(m1, p.name, tick, p.xuid);
        assert forall|n: Seq<char>| row_names(names).contains(n) implies #[trigger] rows_of(m2, n)
            == rows_of(m, n) + 1 by {
            if n == "tick"@ || n == "name"@ || n == "steamid"@ {
                assert forall|i: int| 0 <= i < names.len() implies names[i]@ != n by {}
                assert(same_column(m1, m, n));
            } else {
                assert(name_set(names).contains(n));
                let i = choose|i: int| 0 <= i < names.len() && names[i]@ == n;
                assert(rows_of(m1, names[i]@) == rows_of(m, names[i]@) + 1);
                assert(same_column(m2, m1, n));
            }
        }
        assert forall|n: Seq<char>| !row_names(names).contains(n) implies same_column(m2, m, n) by {
            assert forall|i: int| 0 <= i < names.len() implies names[i]@ != n by {
                assert(name_set(names).contains(names[i]@));
            }
            assert(same_column(m1, m, n));
            assert(same_column(m2, m1, n));
        }
    } else {
        assert(m2 == m);
    }
}

/// Collecting the rows of players adds to each of the columns of the wanted
/// properties, and to the tick, name and steamid columns, exactly one row
/// per collected player (see `player_collected`), and leaves every other
/// column as it was; so columns that had equal numbers of rows still do.
/// This holds when the wanted property names are distinct and none of them
/// is tick, name or steamid.
pub proof fn lemma_collect_rows_shape(
    m: Map<Seq<char>, ColumnView>,
    players: Seq<UserInfo>,
    k: nat,
    tick: i32,
    wanted_ticks: Set<i32>,
    wanted_players: Seq<u64>,
    ents: Seq<(u32, EntityView)>,
    manager_id: Option<u32>,
    names: Seq<String>,
    types: Seq<i32>,
)
    requires
        distinct_prop_names(names),
        names.len() == types.len(),
        collect_rows(
            Some(m),
            players,
            k,
            tick,
            wanted_ticks,
            wanted_players,
            ents,
            manager_id,
            names,
            types,
        ) is Some,
    ensures
        ({
            let m2 = collect_rows(
                Some(m),
                players,
                k,
                tick,
                wanted_ticks,
                wanted_players,
                ents,
                manager_id,
                names,
                types,
            ).unwrap();
            let added = collected_count(players, k, tick, wanted_ticks, wanted_players, ents);
            &&& forall|n: Seq<char>|
                row_names(names).contains(n) ==> #[trigger] rows_of(m2, n) == rows_of(m, n) + added
            &&& forall|n: Seq<char>| !row_names(names).contains(n) ==> same_column(m2, m, n)
            &&& (forall|a: Seq<char>, b: Seq<char>|
                row_names(names).contains(a) && row_names(names).contains(b) ==> rows_of(m, a)
                    == rows_of(m, b)) ==> forall|a: Seq<char>, b: Seq<char>|
                row_names(names).contains(a) && row_names(names).contains(b) ==> rows_of(m2, a)
                    == rows_of(m2, b)
        }),
    decreases k,
{
    let m2 = collect_rows(
        Some(m),
        players,
        k,
        tick,
        wanted_ticks,
        wanted_players,
        ents,
        manager_id,
        names,
        types,
    ).unwrap();
    let added = collected_count(players, k, tick, wanted_ticks, wanted_players, ents);
    if k > 0 && k <= players.len() {
        let prev = collect_rows(
            Some(m),
            players,
            (k - 1) as nat,
            tick,
            wanted_ticks,
            wanted_players,
            ents,
            manager_id,
            names,
            types,
        );
        assert(prev is Some);
        lemma_collect_rows_shape(
            m,
            players,
            (k - 1) as nat,
            tick,
            wanted_ticks,
            wanted_players,
            ents,
            manager_id,
            names,
            types,
        );
        let m1 = prev.unwrap();
        lemma_player_rows_shape(
            m1,
            players[k - 1],
            tick,
            wanted_ticks,
            wanted_players,
            ents,
            manager_id,
            names,
            types,
        );
        assert forall|n: Seq<char>| row_names(names).contains(n) implies #[trigger] rows_of(m2, n)
            == rows_of(m, n) + added by {
            assert(rows_of(m1, n) == rows_of(m, n) + collected_count(
                players,
                (k - 1) as nat,
                tick,
                wanted_ticks,
                wanted_players,
                ents,
            ));
        }
        assert forall|n: Seq<char>| !row_names(names).contains(n) implies same_column(m2, m, n) by {
            assert(same_column(m1, m, n));
        }
    }
    assert forall|n: Seq<char>| row_names(names).contains(n) implies #[trigger] rows_of(m2, n)
        == rows_of(m, n) + added by {}
}

proof fn lemma_skipped_player_prefix(
    m: Option<Map<Seq<char>, ColumnView>>,
    players: Seq<UserInfo>,
    u: UserInfo,
    p: int,
    k: nat,
    tick: i32,
    wanted_ticks: Set<i32>,
    wanted_players: Seq<u64>,
    ents: Seq<(u32, EntityView)>,
    manager_id: Option<u32>,
    names: Seq<String>,
    types: Seq<i32>,
)
    requires
        0 <= p <= players.len(),
        k <= players.len(),
        u.xuid == 0 || u.name@ == "GOTV"@,
    ensures
        k <= p ==> collect_rows(
            m,
            players.insert(p, u),
            k,
            tick,
            wanted_ticks,
            wanted_players,
            ents,
            manager_id,
            names,
            types,
        ) == collect_rows(
            m,
            players,
            k,
            tick,
            wanted_ticks,
            wanted_players,
            ents,
            manager_id,
            names,
            types,
        ),
        k >= p ==> collect_rows(
            m,
            players.insert(p, u),
            k + 1,
            tick,
            wanted_ticks,
            wanted_players,
            ents,
            manager_id,
            names,
            types,
        ) == collect_rows(
            m,
            players,
            k,
            tick,
            wanted_ticks,
            wanted_players,
            ents,
            manager_id,
            names,
            types,
        ),
    decreases k,
{
    let ins = players.insert(p, u);
    if k > 0 {
        lemma_skipped_player_prefix(
            m,
            players,
            u,
            p,
            (k - 1) as nat,
            tick,
            wanted_ticks,
            wanted_players,
            ents,
            manager_id,
            names,
            types,
        );
        if k <= p {
            assert(ins[k - 1] == players[k - 1]);
        } else {
            assert(ins[k as int] == players[k - 1]);
        }
    }
    if k == p {
        assert(ins[p] == u);
    }
}

/// A player without a Steam id, or named "GOTV", adds nothing wherever it
/// stands among the players, whatever its entity: collecting with it
/// inserted gives what collecting without it gives.
pub proof fn lemma_skipped_player_changes_nothing(
    m: Map<Seq<char>, ColumnView>,
    players: Seq<UserInfo>,
    u: UserInfo,
    p: int,
    tick: i32,
    wanted_ticks: Set<i32>,
    wanted_players: Seq<u64>,
    ents: Seq<(u32, EntityView)>,
    manager_id: Option<u32>,
    names: Seq<String>,
    types: Seq<i32>,
)
    requires
        0 <= p <= players.len(),
        u.xuid == 0 || u.name@ == "GOTV"@,
    ensures
        collect_rows(
            Some(m),
            players.insert(p, u),
            players.len() + 1,
            tick,
            wanted_ticks,
            wanted_players,
            ents,
            manager_id,
            names,
            types,
        ) == collect_rows(
            Some(m),
            players,
            players.len(),
            tick,
            wanted_ticks,
            wanted_players,
            ents,
            manager_id,
            names,
            types,
        ),
{
    lemma_skipped_player_prefix(
        Some(m),
        players,
        u,
        p,
        players.len(),
        tick,
        wanted_ticks,
        wanted_players,
        ents,
        manager_id,
        names,
        types,
    );
}

/// The value in row `i` of column `c`, as a property value.
pub open spec fn col_at(c: ColumnView, i: int) -> Option<PropValue> {
    match c {
        ColumnView::I32(s) => match s[i] {
            Some(x) => Some(PropValue::I32(x)),
            None => None,
        },
        ColumnView::F32(s) => match s[i] {
            Some(x) => Some(PropValue::F32(x)),
            None => None,
        },
        ColumnView::String(s) => match s[i] {
            Some(x) => Some(PropValue::Str(x)),
            None => None,
        },
        ColumnView::U64(s) => match s[i] {
            Some(x) => Some(PropValue::U64(x)),
            None => None,
        },
    }
}

/// What a row of a column like `c` holds when `v` is put in it: `v` when it
/// is a value of the column's type, nothing otherwise.
pub open spec fn fit(c: ColumnView, v: Option<PropValue>) -> Option<PropValue> {
    match c {
        ColumnView::I32(_) => match v {
            Some(PropValue::I32(x)) => Some(PropValue::I32(x)),
            _ => None,
        },
        ColumnView::F32(_) => match v {
            Some(PropValue::F32(x)) => Some(PropValue::F32(x)),
            _ => None,
        },
        ColumnView::String(_) => match v {
            Some(PropValue::Str(x)) => Some(PropValue::Str(x)),
            _ => None,
        },
        ColumnView::U64(_) => match v {
            Some(PropValue::U64(x)) => Some(PropValue::U64(x)),
            _ => None,
        },
    }
}

/// Column `n` of `b` is that of `a` with one more row, which holds `v` as
/// the column keeps it; a column that was there keeps its type.
pub open spec fn pushed(
    a: Map<Seq<char>, ColumnView>,
    b: Map<Seq<char>, ColumnView>,
    n: Seq<char>,
    v: Option<PropValue>,
) -> bool {
    &&& b.contains_key(n)
    &&& rows_of(b, n) == rows_of(a, n) + 1
    &&& forall|i: int| 0 <= i < rows_of(a, n) ==> #[trigger] col_at(b[n], i) == col_at(a[n], i)
    &&& col_at(b[n], rows_of(a, n) as int) == fit(b[n], v)
    &&& a.contains_key(n) ==> forall|w: Option<PropValue>| #[trigger] fit(b[n], w) == fit(a[n], w)
}

proof fn lemma_put_pushed(m: Map<Seq<char>, ColumnView>, name: Seq<char>, t: i32, v: Option<PropValue>)
    ensures
        pushed(m, put(m, name, t, v), name, v),
{
    let c = if m.contains_key(name) {
        m[name]
    } else {
        empty_column(t)
    };
    assert(column_len(c) == rows_of(m, name));
    let c2 = push_cell(c, v);
    assert(put(m, name, t, v)[name] == c2);
    assert forall|i: int| 0 <= i < rows_of(m, name) implies #[trigger] col_at(c2, i) == col_at(
        m[name],
        i,
    ) by {}
}

/// The value that collected player `q` gives column `n`: the tick, its name
/// or its Steam id for those columns; for a wanted property of type 10, the
/// player-resource entity's value under the player's per-player name (none
/// without that entity); for any other wanted property, its entity's value.
pub open spec fn player_value(
    n: Seq<char>,
    q: UserInfo,
    tick: i32,
    ents: Seq<(u32, EntityView)>,
    manager_id: Option<u32>,
    names: Seq<String>,
    types: Seq<i32>,
) -> Option<PropValue> {
    if n == "tick"@ {
        Some(PropValue::I32(tick))
    } else if n == "name"@ {
        Some(PropValue::Str(q.name))
    } else if n == "steamid"@ {
        Some(PropValue::U64(q.xuid))
    } else {
        let i = choose|i: int| 0 <= i < names.len() && names[i]@ == n;
        let ent = ents[q.entity_id as int].1;
        if types[i] == MANAGER_PROP_TYPE {
            match manager_id {
                Some(mid) => prop_value(ents[mid as int].1.props, manager_key(n, ent.entity_id)),
                None => None,
            }
        } else {
            prop_value(ent.props, n)
        }
    }
}

/// The players among the first `k` that give rows, in order.
pub open spec fn collected_players(
    players: Seq<UserInfo>,
    k: nat,
    tick: i32,
    wanted_ticks: Set<i32>,
    wanted_players: Seq<u64>,
    ents: Seq<(u32, EntityView)>,
) -> Seq<UserInfo>
    decreases k,
{
    if k == 0 || k > players.len() {
        seq![]
    } else {
        let prev = collected_players(players, (k - 1) as nat, tick, wanted_ticks, wanted_players, ents);
        if player_collected(players[k - 1], tick, wanted_ticks, wanted_players, ents) {
            prev.push(players[k - 1])
        } else {
            prev
        }
    }
}

proof fn lemma_prop_rows_pushed(
    m: Map<Seq<char>, ColumnView>,
    q: UserInfo,
    tick: i32,
    ents: Seq<(u32, EntityView)>,
    manager_id: Option<u32>,
    manager: Option<EntityView>,
    names: Seq<String>,
    types: Seq<i32>,
    j: nat,
)
    requires
        distinct_prop_names(names),
        j <= names.len(),
        names.len() == types.len(),
        q.entity_id < ents.len(),
        manager == match manager_id {
            Some(i) => Some(ents[i as int].1),
            None => None,
        },
        prop_rows(Some(m), ents[q.entity_id as int].1, manager, names, types, j) is Some,
    ensures
        forall|i: int|
            0 <= i < j ==> pushed(
                m,
                prop_rows(Some(m), ents[q.entity_id as int].1, manager, names, types, j).unwrap(),
                #[trigger] names[i]@,
                player_value(names[i]@, q, tick, ents, manager_id, names, types),
            ),
    decreases j,
{
    let ent = ents[q.entity_id as int].1;
    if j > 0 {
        let prev = prop_rows(Some(m), ent, manager, names, types, (j - 1) as nat);
        let name = names[j - 1]@;
        assert(prev is Some);
        lemma_prop_rows_pushed(m, q, tick, ents, manager_id, manager, names, types, (j - 1) as nat);
        lemma_prop_rows_shape(m, ent, manager, names, types, (j - 1) as nat);
        let m0 = prev.unwrap();
        let m1 = prop_rows(Some(m), ent, manager, names, types, j).unwrap();
        let t = if types[j - 1] == MANAGER_PROP_TYPE {
            0i32
        } else {
            types[j - 1]
        };
        let v = if types[j - 1] == MANAGER_PROP_TYPE {
            match manager {
                Some(mg) => prop_value(mg.props, manager_key(name, ent.entity_id)),
                None => None,
            }
        } else {
            prop_value(ent.props, name)
        };
        assert(m1 == put(m0, name, t, v));
        lemma_put_pushed(m0, name, t, v);
        lemma_put_rows(m0, name, t, v);
        assert(v == player_value(name, q, tick, ents, manager_id, names, types)) by {
            let i = choose|i: int| 0 <= i < names.len() && names[i]@ == name;
            assert(names[j - 1]@ == name);
            if i != j - 1 {
                if i < j - 1 {
                    assert(names[i]@ != names[j - 1]@);
                } else {
                    assert(names[j - 1]@ != names[i]@);
                }
            }
        }
        assert forall|i: int| 0 <= i < j - 1 implies names[i]@ != name by {}
        assert(same_column(m0, m, name));
        assert forall|i: int| 0 <= i < j implies pushed(
            m,
            m1,
            #[trigger] names[i]@,
            player_value(names[i]@, q, tick, ents, manager_id, names, types),
        ) by {
            if i < j - 1 {
                let n = names[i]@;
                assert(n != name);
                assert(same_column(m1, m0, n));
                assert(pushed(m, m0, n, player_value(n, q, tick, ents, manager_id, names, types)));
            }
        }
    }
}

proof fn lemma_metadata_rows_pushed(m: Map<Seq<char>, ColumnView>, name: String, tick: i32, xuid: u64)
    ensures
        pushed(m, metadata_rows(m, name, tick, xuid), "tick"@, Some(PropValue::I32(tick))),
        pushed(m, metadata_rows(m, name, tick, xuid), "name"@, Some(PropValue::Str(name))),
        pushed(m, metadata_rows(m, name, tick, xuid), "steamid"@, Some(PropValue::U64(xuid))),
{
    reveal_strlit("tick");
    reveal_strlit("name");
    reveal_strlit("steamid");
    assert("tick"@[0] != "name"@[0]);
    assert("tick"@.len() != "steamid"@.len());
    assert("name"@.len() != "steamid"@.len());
    let m1 = put(m, "tick"@, 0, Some(PropValue::I32(tick)));
    let m2 = put(m1, "name"@, 4, Some(PropValue::Str(name)));
    let m3 = put(m2, "steamid"@, 5, Some(PropValue::U64(xuid)));
    lemma_put_pushed(m, "tick"@, 0, Some(PropValue::I32(tick)));
    lemma_put_pushed(m1, "name"@, 4, Some(PropValue::Str(name)));
    lemma_put_pushed(m2, "steamid"@, 5, Some(PropValue::U64(xuid)));
    lemma_put_rows(m, "tick"@, 0, Some(PropValue::I32(tick)));
    lemma_put_rows(m1, "name"@, 4, Some(PropValue::Str(name)));
    lemma_put_rows(m2, "steamid"@, 5, Some(PropValue::U64(xuid)));
    assert(same_column(m2, m1, "tick"@));
    assert(same_column(m3, m2, "tick"@));
    assert(same_column(m1, m, "name"@));
    assert(same_column(m3, m2, "name"@));
    assert(same_column(m1, m, "steamid"@));
    assert(same_column(m2, m1, "steamid"@));
}

proof fn lemma_player_rows_pushed(
    m: Map<Seq<char>, ColumnView>,
    p: UserInfo,
    tick: i32,
    wanted_ticks: Set<i32>,
    wanted_players: Seq<u64>,
    ents: Seq<(u32, EntityView)>,
    manager_id: Option<u32>,
    names: Seq<String>,
    types: Seq<i32>,
)
    requires
        distinct_prop_names(names),
        names.len() == types.len(),
        player_collected(p, tick, wanted_ticks, wanted_players, ents),
        player_rows(
            Some(m),
            p,
            tick,
            wanted_ticks,
            wanted_players,
            ents,
            manager_id,
            names,
            types,
        ) is Some,
    ensures
        forall|n: Seq<char>|
            #[trigger] row_names(names).contains(n) ==> pushed(
                m,
                player_rows(
                    Some(m),
                    p,
                    tick,
                    wanted_ticks,
                    wanted_players,
                    ents,
                    manager_id,
                    names,
                    types,
                ).unwrap(),
                n,
                player_value(n, p, tick, ents, manager_id, names, types),
            ),
{
    reveal_strlit("tick");
    reveal_strlit("name");
    reveal_strlit("steamid");
    let m2 = player_rows(
        Some(m),
        p,
        tick,
        wanted_ticks,
        wanted_players,
        ents,
        manager_id,
        names,
        types,
    ).unwrap();
    let mg = match manager_id {
        Some(i) => Some(ents[i as int].1),
        None => None,
    };
    let ent = ents[p.entity_id as int].1;
    let pr = prop_rows(Some(m), ent, mg, names, types, names.len());
    assert(pr is Some);
    let m1 = pr.unwrap();
    assert(m2 == metadata_rows(m1, p.name, tick, p.xuid));
    lemma_prop_rows_pushed(m, p, tick, ents, manager_id, mg, names, types, names.len());
    lemma_prop_rows_shape(m, ent, mg, names, types, names.len());
    lemma_metadata_rows_pushed(m1, p.name, tick, p.xuid);
    lemma_metadata_rows_shape(m1, p.name, tick, p.xuid);
    assert forall|n: Seq<char>| #[trigger] row_names(names).contains(n) implies pushed(
        m,
        m2,
        n,
        player_value(n, p, tick, ents, manager_id, names, types),
    ) by {
        if n == "tick"@ || n == "name"@ || n == "steamid"@ {
            assert forall|i: int| 0 <= i < names.len() implies names[i]@ != n by {}
            assert(same_column(m1, m, n));
        } else {
            assert(name_set(names).contains(n));
            let i = choose|i: int| 0 <= i < names.len() && names[i]@ == n;
            assert(pushed(m, m1, names[i]@, player_value(names[i]@, p, tick, ents, manager_id, names, types)));
            assert(same_column(m2, m1, n));
        }
    }
}

/// Column `n` of `m2` is that of `m` followed by one row for each player of
/// `q` in turn, holding the value that player gives the column.
pub open spec fn rows_follow(
    m: Map<Seq<char>, ColumnView>,
    m2: Map<Seq<char>, ColumnView>,
    n: Seq<char>,
    q: Seq<UserInfo>,
    tick: i32,
    ents: Seq<(u32, EntityView)>,
    manager_id: Option<u32>,
    names: Seq<String>,
    types: Seq<i32>,
) -> bool {
    &&& rows_of(m2, n) == rows_of(m, n) + q.len()
    &&& forall|i: int| 0 <= i < rows_of(m, n) ==> #[trigger] col_at(m2[n], i) == col_at(m[n], i)
    &&& forall|j: int|
        0 <= j < q.len() ==> col_at(m2[n], rows_of(m, n) + j) == fit(
            m2[n],
            player_value(n, #[trigger] q[j], tick, ents, manager_id, names, types),
        )
    &&& m.contains_key(n) ==> forall|w: Option<PropValue>| #[trigger] fit(m2[n], w) == fit(m[n], w)
    &&& m.contains_key(n) || q.len() > 0 ==> m2.contains_key(n)
}

/// Collecting keeps the output columns row-aligned: each column of a
/// wanted property, and the tick, name and steamid columns, keeps its rows
/// and gains one row per collected player, in the order of the players,
/// and row `j` of the new rows of every such column is filled from the
/// same player: the `j`-th collected one (see `player_value`). This holds
/// when the wanted property names are distinct and none of them is tick,
/// name or steamid.
pub proof fn lemma_collect_rows_aligned(
    m: Map<Seq<char>, ColumnView>,
    players: Seq<UserInfo>,
    k: nat,
    tick: i32,
    wanted_ticks: Set<i32>,
    wanted_players: Seq<u64>,
    ents: Seq<(u32, EntityView)>,
    manager_id: Option<u32>,
    names: Seq<String>,
    types: Seq<i32>,
)
    requires
        distinct_prop_names(names),
        names.len() == types.len(),
        collect_rows(
            Some(m),
            players,
            k,
            tick,
            wanted_ticks,
            wanted_players,
            ents,
            manager_id,
            names,
            types,
        ) is Some,
    ensures
        forall|n: Seq<char>|
            #[trigger] row_names(names).contains(n) ==> rows_follow(
                m,
                collect_rows(
                    Some(m),
                    players,
                    k,
                    tick,
                    wanted_ticks,
                    wanted_players,
                    ents,
                    manager_id,
                    names,
                    types,
                ).unwrap(),
                n,
                collected_players(players, k, tick, wanted_ticks, wanted_players, ents),
                tick,
                ents,
                manager_id,
                names,
                types,
            ),
    decreases k,
{
    let m2 = collect_rows(
        Some(m),
        players,
        k,
        tick,
        wanted_ticks,
        wanted_players,
        ents,
        manager_id,
        names,
        types,
    ).unwrap();
    let q = collected_players(players, k, tick, wanted_ticks, wanted_players, ents);
    if k == 0 || k > players.len() {
        assert(m2 == m);
        assert(q.len() == 0);
    } else {
        let prev = collect_rows(
            Some(m),
            players,
            (k - 1) as nat,
            tick,
            wanted_ticks,
            wanted_players,
            ents,
            manager_id,
            names,
            types,
        );
        assert(prev is Some);
        lemma_collect_rows_aligned(
            m,
            players,
            (k - 1) as nat,
            tick,
            wanted_ticks,
            wanted_players,
            ents,
            manager_id,
            names,
            types,
        );
        let m1 = prev.unwrap();
        let q1 = collected_players(players, (k - 1) as nat, tick, wanted_ticks, wanted_players, ents);
        let p = players[k - 1];
        if player_collected(p, tick, wanted_ticks, wanted_players, ents) {
            lemma_player_rows_pushed(
                m1,
                p,
                tick,
                wanted_ticks,
                wanted_players,
                ents,
                manager_id,
                names,
                types,
            );
            assert(q == q1.push(p));
            assert forall|n: Seq<char>| #[trigger] row_names(names).contains(n) implies rows_follow(
                m,
                m2,
                n,
                q,
                tick,
                ents,
                manager_id,
                names,
                types,
            ) by {
                let v = player_value(n, p, tick, ents, manager_id, names, types);
                assert(rows_follow(m, m1, n, q1, tick, ents, manager_id, names, types));
                assert(pushed(m1, m2, n, v));
                assert forall|i: int| 0 <= i < rows_of(m, n) implies #[trigger] col_at(m2[n], i)
                    == col_at(m[n], i) by {
                    assert(col_at(m1[n], i) == col_at(m[n], i));
                }
                assert forall|j: int| 0 <= j < q.len() implies col_at(m2[n], rows_of(m, n) + j)
                    == fit(m2[n], player_value(n, #[trigger] q[j], tick, ents, manager_id, names, types)) by {
                    if j < q1.len() {
                        assert(q[j] == q1[j]);
                        assert(q1.len() > 0);
                        assert(rows_follow(m, m1, n, q1, tick, ents, manager_id, names, types));
                        assert(m1.contains_key(n));
                        assert(col_at(m1[n], rows_of(m, n) + j) == fit(
                            m1[n],
                            player_value(n, q1[j], tick, ents, manager_id, names, types),
                        ));
                        assert(fit(m2[n], player_value(n, q1[j], tick, ents, manager_id, names, types))
                            == fit(m1[n], player_value(n, q1[j], tick, ents, manager_id, names, types)));
                    } else {
                        assert(q[j] == p);
                    }
                }
                if m.contains_key(n) {
                    assert(m1.contains_key(n));
                    assert forall|w: Option<PropValue>| #[trigger] fit(m2[n], w) == fit(m[n], w) by {
                        assert(fit(m2[n], w) == fit(m1[n], w));
                        assert(fit(m1[n], w) == fit(m[n], w));
                    }
                }
            }
        } else {
            assert(q == q1);
            assert(m2 == m1);
        }
    }
}

} // verus!
