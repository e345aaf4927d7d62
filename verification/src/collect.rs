//! Collection of the wanted properties of the wanted players at a tick
//! into per-tick output columns.

use vstd::prelude::*;
use std::collections::HashSet;
use vstd::std_specs::hash::group_hash_axioms;
use crate::columns::{put, put_ok, valid_col_type, ColumnMap, ColumnView};
use crate::demo::Demo;
use crate::entities::{Entity, EntityView, PropData, PropValue};

verus! {

/// A player of the demo: its Steam id, its name, and the id of its entity.
pub struct UserInfo {
    pub xuid: u64,
    pub name: String,
    pub entity_id: u32,
}

/// The last value named `name` among `props`, the latest one written.
pub open spec fn prop_lookup(props: Seq<PropData>, name: Seq<char>) -> Option<PropData>
    decreases props.len(),
{
    if props.len() == 0 {
        None
    } else if props.last().name@ == name {
        Some(props.last())
    } else {
        prop_lookup(props.drop_last(), name)
    }
}

/// The value of the property `name` among `props`, if there is one.
pub open spec fn prop_value(props: Seq<PropData>, name: Seq<char>) -> Option<PropValue> {
    match prop_lookup(props, name) {
        Some(p) => Some(p.data),
        None => None,
    }
}

/// The decimal digits of `v`, most significant first, without leading zeros.
pub open spec fn decimal(v: nat) -> Seq<char>
    decreases v,
{
    if v < 10 {
        seq![(48 + v) as char]
    } else {
        decimal(v / 10).push((48 + v % 10) as char)
    }
}

/// The name of the per-player property `name` of entity `id` in the
/// player-resource entity: `name`, then `id` written with three digits.
pub open spec fn manager_key(name: Seq<char>, id: u32) -> Seq<char> {
    if id < 10 {
        name + "00"@ + decimal(id as nat)
    } else {
        name + "0"@ + decimal(id as nat)
    }
}

/// `u32::to_string`: by the documentation of `Display` for integers, the
/// decimal digits of `v` without leading zeros.
#[verifier::external_body]
fn u32_to_string(v: u32) -> (s: String)
    ensures
        s@ == decimal(v as nat),
{
    v.to_string()
}

impl Entity {
    /// The latest value named `name` among the entity's property values.
    pub fn get_prop(&self, name: &String) -> (r: Option<&PropData>)
        ensures
            match r {
                Some(p) => prop_lookup(self.props@, name@) == Some(*p),
                None => prop_lookup(self.props@, name@) is None,
            },
    {
        let mut i = self.props.len();
        assert(self.props@.take(i as int) =~= self.props@);
        while i > 0
            invariant
                i <= self.props@.len(),
                prop_lookup(self.props@, name@) == prop_lookup(self.props@.take(i as int), name@),
            decreases i,
        {
            let ghost t = self.props@.take(i as int);
            assert(t.drop_last() =~= self.props@.take(i - 1));
            if self.props[i - 1].name == *name {
                return Some(&self.props[i - 1]);
            }
            i = i - 1;
        }
        None
    }
}

/// `m`, unless a row cannot be put: `None` then, as after any earlier failure.
pub open spec fn put_checked(
    m: Option<Map<Seq<char>, ColumnView>>,
    name: Seq<char>,
    col_type: i32,
    v: Option<PropValue>,
) -> Option<Map<Seq<char>, ColumnView>> {
    match m {
        Some(m) => if put_ok(m, name, col_type) {
            Some(put(m, name, col_type, v))
        } else {
            None
        },
        None => None,
    }
}

/// The column type of the properties read from the player-resource entity.
pub const MANAGER_PROP_TYPE: i32 = 10;

/// The marker of an entity slot that holds no player.
pub const NO_PLAYER_MARKER: u32 = 1111111;

/// The rows that the first `k` wanted properties give for a player entity
/// `ent`: a property of type 10 is read from the player-resource entity
/// `manager` (when there is one) under its per-player name, into an i32
/// column; any other from the entity itself, into a column of its type.
/// `None` when a row cannot be put, or a per-player name is needed for an
/// entity id of 100 or more.
pub open spec fn prop_rows(
    m: Option<Map<Seq<char>, ColumnView>>,
    ent: EntityView,
    manager: Option<EntityView>,
    names: Seq<String>,
    types: Seq<i32>,
    k: nat,
) -> Option<Map<Seq<char>, ColumnView>>
    decreases k,
{
    if k == 0 || k > names.len() || k > types.len() {
        m
    } else {
        let m1 = prop_rows(m, ent, manager, names, types, (k - 1) as nat);
        let name = names[k - 1]@;
        let t = types[k - 1];
        if t == MANAGER_PROP_TYPE {
            match manager {
                Some(mg) => if ent.entity_id < 100 {
                    put_checked(m1, name, 0, prop_value(mg.props, manager_key(name, ent.entity_id)))
                } else {
                    None
                },
                None => put_checked(m1, name, 0, None),
            }
        } else {
            put_checked(m1, name, t, prop_value(ent.props, name))
        }
    }
}

/// The rows of the tick, the player's name and its Steam id.
pub open spec fn metadata_rows(
    m: Map<Seq<char>, ColumnView>,
    name: String,
    tick: i32,
    xuid: u64,
) -> Map<Seq<char>, ColumnView> {
    put(
        put(put(m, "tick"@, 0, Some(PropValue::I32(tick))), "name"@, 4, Some(PropValue::Str(name))),
        "steamid"@,
        5,
        Some(PropValue::U64(xuid)),
    )
}

/// The entity slots of a collection, as values.
pub open spec fn slot_views(ents: Seq<(u32, Entity)>) -> Seq<(u32, EntityView)> {
    ents.map_values(|e: (u32, Entity)| (e.0, e.1@))
}

/// Player `p` gives rows (see `player_rows`): it has a Steam id and is not
/// "GOTV", the tick and the player are wanted, and its entity slot holds a
/// player.
pub open spec fn player_collected(
    p: UserInfo,
    tick: i32,
    wanted_ticks: Set<i32>,
    wanted_players: Seq<u64>,
    ents: Seq<(u32, EntityView)>,
) -> bool {
    &&& !(p.xuid == 0 || p.name@ == "GOTV"@)
    &&& (wanted_ticks.contains(tick) || wanted_ticks.is_empty())
    &&& (wanted_players.contains(p.xuid) || wanted_players.len() == 0)
    &&& p.entity_id < ents.len()
    &&& ents[p.entity_id as int].0 != NO_PLAYER_MARKER
}

/// Some player among `players` gives rows.
pub open spec fn some_collected(
    players: Seq<UserInfo>,
    tick: i32,
    wanted_ticks: Set<i32>,
    wanted_players: Seq<u64>,
    ents: Seq<(u32, EntityView)>,
) -> bool {
    exists|k: int|
        0 <= k < players.len() && #[trigger] player_collected(
            players[k],
            tick,
            wanted_ticks,
            wanted_players,
            ents,
        )
}

/// The rows that player `p` gives: none for a player without Steam id or
/// named "GOTV", at an unwanted tick (when ticks are asked for), for an
/// unwanted player (when players are asked for), or whose entity slot is
/// marked as holding no player; otherwise the rows of its wanted
/// properties, then its metadata. `None` when its entity or the
/// player-resource entity is out of `ents`, or a row fails.
pub open spec fn player_rows(
    m: Option<Map<Seq<char>, ColumnView>>,
    p: UserInfo,
    tick: i32,
    wanted_ticks: Set<i32>,
    wanted_players: Seq<u64>,
    ents: Seq<(u32, EntityView)>,
    manager_id: Option<u32>,
    names: Seq<String>,
    types: Seq<i32>,
) -> Option<Map<Seq<char>, ColumnView>> {
    if m is None {
        None
    } else if p.xuid == 0 || p.name@ == "GOTV"@ {
        m
    } else if !(wanted_ticks.contains(tick) || wanted_ticks.is_empty()) {
        m
    } else if !(wanted_players.contains(p.xuid) || wanted_players.len() == 0) {
        m
    } else if p.entity_id >= ents.len() {
        None
    } else if ents[p.entity_id as int].0 == NO_PLAYER_MARKER {
        m
    } else {
        let manager = match manager_id {
            Some(i) => if i < ents.len() {
                Some(Some(ents[i as int].1))
            } else {
                None
            },
            None => Some(None),
        };
        match manager {
            None => None,
            Some(mg) => match prop_rows(m, ents[p.entity_id as int].1, mg, names, types, names.len()) {
                None => None,
                Some(m2) => Some(metadata_rows(m2, p.name, tick, p.xuid)),
            },
        }
    }
}

/// The rows that the first `k` players give, in order.
pub open spec fn collect_rows(
    m: Option<Map<Seq<char>, ColumnView>>,
    players: Seq<UserInfo>,
    k: nat,
    tick: i32,
    wanted_ticks: Set<i32>,
    wanted_players: Seq<u64>,
    ents: Seq<(u32, EntityView)>,
    manager_id: Option<u32>,
    names: Seq<String>,
    types: Seq<i32>,
) -> Option<Map<Seq<char>, ColumnView>>
    decreases k,
{
    if k == 0 || k > players.len() {
        m
    } else {
        player_rows(
            collect_rows(
                m,
                players,
                (k - 1) as nat,
                tick,
                wanted_ticks,
                wanted_players,
                ents,
                manager_id,
                names,
                types,
            ),
            players[k - 1],
            tick,
            wanted_ticks,
            wanted_players,
            ents,
            manager_id,
            names,
            types,
        )
    }
}

/// Adds a row to column `prop_name`: the entity's latest value of that
/// name, or an empty row when it has none; the column is made of type
/// `col_type` when it is missing.
pub fn insert_propcolumn(
    ticks_props: &mut ColumnMap,
    ent: &Entity,
    prop_name: &String,
    playback_frames: usize,
    col_type: i32,
)
    requires
        put_ok(old(ticks_props)@, prop_name@, col_type),
    ensures
        final(ticks_props)@ == put(
            old(ticks_props)@,
            prop_name@,
            col_type,
            prop_value(ent.props@, prop_name@),
        ),
{
    match ent.get_prop(prop_name) {
        None => ticks_props.push_row(prop_name, col_type, playback_frames, None),
        Some(p) => ticks_props.push_row(prop_name, col_type, playback_frames, Some(p.data.clone())),
    }
}

/// Adds a row to column `prop_name` from the player-resource entity
/// `manager`: its latest value under the per-player name of `ent` (see
/// `manager_key`), or an empty row when it has none or there is no manager.
pub fn insert_manager_prop(
    ticks_props: &mut ColumnMap,
    ent: &Entity,
    prop_name: &String,
    playback_frames: usize,
    col_type: i32,
    manager: Option<&Entity>,
)
    requires
        put_ok(old(ticks_props)@, prop_name@, col_type),
        manager is Some ==> ent.entity_id < 100,
    ensures
        final(ticks_props)@ == put(
            old(ticks_props)@,
            prop_name@,
            col_type,
            match manager {
                Some(m) => prop_value(m.props@, manager_key(prop_name@, ent.entity_id)),
                None => None,
            },
        ),
{
    match manager {
        Some(m) => {
            let key = if ent.entity_id < 10 {
                prop_name.clone().concat("00").concat(u32_to_string(ent.entity_id).as_str())
            } else {
                prop_name.clone().concat("0").concat(u32_to_string(ent.entity_id).as_str())
            };
            match m.get_prop(&key) {
                Some(p) => ticks_props.push_row(
                    prop_name,
                    col_type,
                    playback_frames,
                    Some(p.data.clone()),
                ),
                None => ticks_props.push_row(prop_name, col_type, playback_frames, None),
            }
        },
        None => ticks_props.push_row(prop_name, col_type, playback_frames, None),
    }
}

/// Adds the rows of the tick (column "tick", i32), the player's name
/// ("name", strings) and its Steam id ("steamid", u64).
pub fn insert_metadata(
    name: String,
    tick: i32,
    xuid: u64,
    ticks_props: &mut ColumnMap,
    playback_frames: usize,
)
    ensures
        final(ticks_props)@ == metadata_rows(old(ticks_props)@, name, tick, xuid),
{
    ticks_props.push_row(&String::from_str("tick"), 0, playback_frames, Some(PropValue::I32(tick)));
    ticks_props.push_row(&String::from_str("name"), 4, playback_frames, Some(PropValue::Str(name)));
    ticks_props.push_row(
        &String::from_str("steamid"),
        5,
        playback_frames,
        Some(PropValue::U64(xuid)),
    );
}

proof fn lemma_prop_rows_prefix(
    m: Option<Map<Seq<char>, ColumnView>>,
    ent: EntityView,
    manager: Option<EntityView>,
    names: Seq<String>,
    types: Seq<i32>,
    j: nat,
    k: nat,
)
    requires
        j <= k <= names.len(),
        k <= types.len(),
        prop_rows(m, ent, manager, names, types, k) is Some,
    ensures
        prop_rows(m, ent, manager, names, types, j) is Some,
    decreases k,
{
    if j < k {
        lemma_prop_rows_prefix(m, ent, manager, names, types, j, (k - 1) as nat);
    }
}

proof fn lemma_collect_rows_prefix(
    m: Option<Map<Seq<char>, ColumnView>>,
    players: Seq<UserInfo>,
    j: nat,
    k: nat,
    tick: i32,
    wanted_ticks: Set<i32>,
    wanted_players: Seq<u64>,
    ents: Seq<(u32, EntityView)>,
    manager_id: Option<u32>,
    names: Seq<String>,
    types: Seq<i32>,
)
    requires
        j <= k <= players.len(),
        collect_rows(
            m,
            players,
            k,
            tick,
            wanted_ticks,
            wanted_players,
            ents,
            manager_id,
            names,
            types,
        ) is Some,
    ensures
        collect_rows(
            m,
            players,
            j,
            tick,
            wanted_ticks,
            wanted_players,
            ents,
            manager_id,
            names,
            types,
        ) is Some,
    decreases k,
{
    if j < k {
        lemma_collect_rows_prefix(
            m,
            players,
            j,
            (k - 1) as nat,
            tick,
            wanted_ticks,
            wanted_players,
            ents,
            manager_id,
            names,
            types,
        );
    }
}

/// Whether `v` holds `x`.
fn contains_u64(v: &Vec<u64>, x: u64) -> (r: bool)
    ensures
        r == v@.contains(x),
{
    let mut i: usize = 0;
    while i < v.len()
        invariant
            0 <= i <= v@.len(),
            forall|j: int| 0 <= j < i ==> v@[j] != x,
        decreases v@.len() - i,
    {
        if v[i] == x {
            assert(v@[i as int] == x);
            return true;
        }
        i = i + 1;
    }
    false
}


/// The column names after a row is put in column `name`, when it can be.
pub open spec fn dom_put(d: Option<Set<Seq<char>>>, name: Seq<char>, col_type: i32) -> Option<
    Set<Seq<char>>,
> {
    match d {
        Some(s) => if s.contains(name) || valid_col_type(col_type) {
            Some(s.insert(name))
        } else {
            None
        },
        None => None,
    }
}

/// The column names of `m`, when there is a map.
pub open spec fn option_dom(m: Option<Map<Seq<char>, ColumnView>>) -> Option<Set<Seq<char>>> {
    match m {
        Some(m) => Some(m.dom()),
        None => None,
    }
}

/// The column names after the rows of the first `k` wanted properties
/// (see `prop_rows`), or `None` when those rows cannot all be put.
pub open spec fn prop_rows_dom(
    d: Option<Set<Seq<char>>>,
    ent: EntityView,
    has_manager: bool,
    names: Seq<String>,
    types: Seq<i32>,
    k: nat,
) -> Option<Set<Seq<char>>>
    decreases k,
{
    if k == 0 || k > names.len() || k > types.len() {
        d
    } else {
        let d1 = prop_rows_dom(d, ent, has_manager, names, types, (k - 1) as nat);
        let name = names[k - 1]@;
        let t = types[k - 1];
        if t == MANAGER_PROP_TYPE {
            if has_manager && ent.entity_id >= 100 {
                None
            } else {
                dom_put(d1, name, 0)
            }
        } else {
            dom_put(d1, name, t)
        }
    }
}

/// The column names after the rows of player `p` (see `player_rows`), or
/// `None` when they cannot all be put.
pub open spec fn player_rows_dom(
    d: Option<Set<Seq<char>>>,
    p: UserInfo,
    tick: i32,
    wanted_ticks: Set<i32>,
    wanted_players: Seq<u64>,
    ents: Seq<(u32, EntityView)>,
    manager_id: Option<u32>,
    names: Seq<String>,
    types: Seq<i32>,
) -> Option<Set<Seq<char>>> {
    if d is None {
        None
    } else if p.xuid == 0 || p.name@ == "GOTV"@ {
        d
    } else if !(wanted_ticks.contains(tick) || wanted_ticks.is_empty()) {
        d
    } else if !(wanted_players.contains(p.xuid) || wanted_players.len() == 0) {
        d
    } else if p.entity_id >= ents.len() {
        None
    } else if ents[p.entity_id as int].0 == NO_PLAYER_MARKER {
        d
    } else if manager_id matches Some(i) && i >= ents.len() {
        None
    } else {
        match prop_rows_dom(
            d,
            ents[p.entity_id as int].1,
            manager_id is Some,
            names,
            types,
            names.len(),
        ) {
            None => None,
            Some(s) => Some(s.insert("tick"@).insert("name"@).insert("steamid"@)),
        }
    }
}

/// The column names after the rows of the first `k` players, or `None`
/// when they cannot all be put.
pub open spec fn collect_rows_dom(
    d: Option<Set<Seq<char>>>,
    players: Seq<UserInfo>,
    k: nat,
    tick: i32,
    wanted_ticks: Set<i32>,
    wanted_players: Seq<u64>,
    ents: Seq<(u32, EntityView)>,
    manager_id: Option<u32>,
    names: Seq<String>,
    types: Seq<i32>,
) -> Option<Set<Seq<char>>>
    decreases k,
{
    if k == 0 || k > players.len() {
        d
    } else {
        player_rows_dom(
            collect_rows_dom(
                d,
                players,
                (k - 1) as nat,
                tick,
                wanted_ticks,
                wanted_players,
                ents,
                manager_id,
                names,
                types,
            ),
            players[k - 1],
            tick,
            wanted_ticks,
            wanted_players,
            ents,
            manager_id,
            names,
            types,
        )
    }
}

proof fn lemma_put_dom(m: Option<Map<Seq<char>, ColumnView>>, name: Seq<char>, t: i32, v: Option<PropValue>)
    ensures
        option_dom(put_checked(m, name, t, v)) == dom_put(option_dom(m), name, t),
{
    if let Some(mm) = m {
        if put_ok(mm, name, t) {
            assert(put(mm, name, t, v).dom() =~= mm.dom().insert(name));
        }
    }
}

proof fn lemma_prop_rows_dom(
    m: Option<Map<Seq<char>, ColumnView>>,
    ent: EntityView,
    manager: Option<EntityView>,
    names: Seq<String>,
    types: Seq<i32>,
    k: nat,
)
    ensures
        option_dom(prop_rows(m, ent, manager, names, types, k)) == prop_rows_dom(
            option_dom(m),
            ent,
            manager is Some,
            names,
            types,
            k,
        ),
    decreases k,
{
    if k > 0 && k <= names.len() && k <= types.len() {
        lemma_prop_rows_dom(m, ent, manager, names, types, (k - 1) as nat);
        let m1 = prop_rows(m, ent, manager, names, types, (k - 1) as nat);
        let name = names[k - 1]@;
        let t = types[k - 1];
        if t == MANAGER_PROP_TYPE {
            match manager {
                Some(mg) => {
                    lemma_put_dom(m1, name, 0, prop_value(mg.props, manager_key(name, ent.entity_id)));
                },
                None => {
                    lemma_put_dom(m1, name, 0, None);
                },
            }
        } else {
            lemma_put_dom(m1, name, t, prop_value(ent.props, name));
        }
    }
}

proof fn lemma_player_rows_dom(
    m: Option<Map<Seq<char>, ColumnView>>,
    p: UserInfo,
    tick: i32,
    wanted_ticks: Set<i32>,
    wanted_players: Seq<u64>,
    ents: Seq<(u32, EntityView)>,
    manager_id: Option<u32>,
    names: Seq<String>,
    types: Seq<i32>,
)
    ensures
        option_dom(
            player_rows(m, p, tick, wanted_ticks, wanted_players, ents, manager_id, names, types),
        ) == player_rows_dom(
            option_dom(m),
            p,
            tick,
            wanted_ticks,
            wanted_players,
            ents,
            manager_id,
            names,
            types,
        ),
{
    if p.entity_id < ents.len() {
        let ent = ents[p.entity_id as int].1;
        let mg = match manager_id {
            Some(i) => if i < ents.len() {
                Some(ents[i as int].1)
            } else {
                None
            },
            None => None,
        };
        lemma_prop_rows_dom(m, ent, mg, names, types, names.len());
        if let Some(m2) = prop_rows(m, ent, mg, names, types, names.len()) {
            let md = metadata_rows(m2, p.name, tick, p.xuid);
            assert(md.dom() =~= m2.dom().insert("tick"@).insert("name"@).insert("steamid"@));
        }
    }
}

proof fn lemma_collect_rows_dom(
    m: Option<Map<Seq<char>, ColumnView>>,
    players: Seq<UserInfo>,
    k: nat,
    tick: i32,
    wanted_ticks: Set<i32>,
    wanted_players: Seq<u64>,
    ents: Seq<(u32, EntityView)>,
    manager_id: Option<u32>,
    names: Seq<String>,
    types: Seq<i32>,
)
    ensures
        option_dom(
            collect_rows(
                m,
                players,
                k,
                tick,
                wanted_ticks,
                wanted_players,
                ents,
                manager_id,
                names,
                types,
            ),
        ) == collect_rows_dom(
            option_dom(m),
            players,
            k,
            tick,
            wanted_ticks,
            wanted_players,
            ents,
            manager_id,
            names,
            types,
        ),
    decreases k,
{
    if k > 0 && k <= players.len() {
        lemma_collect_rows_dom(
            m,
            players,
            (k - 1) as nat,
            tick,
            wanted_ticks,
            wanted_players,
            ents,
            manager_id,
            names,
            types,
        );
        lemma_player_rows_dom(
            collect_rows(
                m,
                players,
                (k - 1) as nat,
                tick,
                wanted_ticks,
                wanted_players,
                ents,
                manager_id,
                names,
                types,
            ),
            players[k - 1],
            tick,
            wanted_ticks,
            wanted_players,
            ents,
            manager_id,
            names,
            types,
        );
    }
}

/// The names that a sequence of strings holds.
pub open spec fn name_set(v: Seq<String>) -> Set<Seq<char>> {
    Set::new(|k: Seq<char>| exists|i: int| 0 <= i < v.len() && v[i]@ == k)
}

/// Whether `dom` names `name`.
fn dom_contains(dom: &Vec<String>, name: &String) -> (r: bool)
    ensures
        r == name_set(dom@).contains(name@),
{
    let mut i: usize = 0;
    while i < dom.len()
        invariant
            0 <= i <= dom@.len(),
            forall|j: int| 0 <= j < i ==> dom@[j]@ != name@,
        decreases dom@.len() - i,
    {
        if dom[i] == *name {
            assert(dom@[i as int]@ == name@);
            return true;
        }
        i = i + 1;
    }
    false
}

/// Adds `name` to `dom`.
fn dom_insert(dom: &mut Vec<String>, name: &String)
    ensures
        name_set(final(dom)@) == name_set(old(dom)@).insert(name@),
{
    let ghost before = dom@;
    dom.push(name.clone());
    assert forall|k: Seq<char>| #[trigger] name_set(dom@).contains(k) == name_set(before).insert(
        name@,
    ).contains(k) by {
        if name_set(before).contains(k) {
            let i = choose|i: int| 0 <= i < before.len() && before[i]@ == k;
            assert(dom@[i] == before[i]);
        }
        if name_set(dom@).contains(k) {
            let i = choose|i: int| 0 <= i < dom@.len() && dom@[i]@ == k;
            if i < before.len() {
                assert(dom@[i] == before[i]);
            }
        }
        if k == name@ {
            assert(dom@[before.len() as int]@ == k);
        }
    }
    assert(name_set(dom@) =~= name_set(before).insert(name@));
}

/// The `phf::Map` of the `phf` crate, which the column types of the
/// properties are looked up in.
#[verifier::external_type_specification]
#[verifier::external_body]
#[verifier::reject_recursive_types(K)]
#[verifier::reject_recursive_types(V)]
pub struct ExPhfMap<K: 'static, V: 'static>(phf::Map<K, V>);

/// The (key, value) entries that a map of column types holds, in the order
/// of its entry table.
pub uninterp spec fn type_entries(m: phf::Map<&'static str, i32>) -> Seq<(Seq<char>, i32)>;

/// `phf::Map::len`: by its source, the number of entries of the map.
#[verifier::external_body]
fn phf_len(m: &phf::Map<&'static str, i32>) -> (n: usize)
    ensures
        n == type_entries(*m).len(),
{
    m.len()
}

/// What `phf::Map::get` gives for `key` in `m`.
pub uninterp spec fn type_lookup(m: phf::Map<&'static str, i32>, key: Seq<char>) -> Option<i32>;

/// `phf::Map::get`: its result depends on the map and the key alone (see
/// `type_lookup`), and by its source a value comes back only from an entry
/// whose key equals `key`. The lookup divides by the number of entries, and
/// by that of the displacements, each taken as a `u32`: `requires` keeps
/// the first of them nonzero; the second is left unsaid (a map with entries
/// that `phf` builds has one displacement for every five entries, rounded
/// up).
#[verifier::external_body]
fn phf_get(m: &phf::Map<&'static str, i32>, key: &String) -> (r: Option<i32>)
    requires
        0 < type_entries(*m).len() <= u32::MAX,
    ensures
        r == type_lookup(*m, key@),
        r matches Some(v) ==> type_entries(*m).contains((key@, v)),
{
    m.get(key.as_str()).copied()
}

/// The column type that `type_map` gives `name`: its lookup, when the map
/// has between one and `u32::MAX` entries; none in an empty map.
pub open spec fn found_type(type_map: phf::Map<&'static str, i32>, name: Seq<char>) -> Option<i32> {
    if 0 < type_entries(type_map).len() <= u32::MAX {
        type_lookup(type_map, name)
    } else {
        None
    }
}

/// Every name of `names` has a column type in `type_map`.
pub open spec fn all_found(type_map: phf::Map<&'static str, i32>, names: Seq<String>) -> bool {
    forall|i: int| 0 <= i < names.len() ==> (#[trigger] found_type(type_map, names[i]@)) is Some
}

/// The column type of each of `names` in `type_map`, in order; 0 for a name
/// that has none.
pub open spec fn found_types(type_map: phf::Map<&'static str, i32>, names: Seq<String>) -> Seq<
    i32,
> {
    Seq::new(
        names.len(),
        |i: int|
            match found_type(type_map, names[i]@) {
                Some(t) => t,
                None => 0i32,
            },
    )
}

/// The column types of `props_names` (see `found_types`), and whether all
/// of them were found.
fn lookup_types(type_map: &phf::Map<&'static str, i32>, props_names: &Vec<String>) -> (r: (
    Vec<i32>,
    bool,
))
    ensures
        r.0@ == found_types(*type_map, props_names@),
        r.1 == all_found(*type_map, props_names@),
{
    let mut ts: Vec<i32> = Vec::new();
    let mut all = true;
    let n = phf_len(type_map);
    let usable = 0 < n && n <= u32::MAX as usize;
    let mut i: usize = 0;
    while i < props_names.len()
        invariant
            0 <= i <= props_names@.len(),
            ts@.len() == i,
            usable == (0 < type_entries(*type_map).len() <= u32::MAX),
            forall|j: int|
                0 <= j < i ==> #[trigger] ts@[j] == found_types(*type_map, props_names@)[j],
            all == forall|j: int|
                0 <= j < i ==> (#[trigger] found_type(*type_map, props_names@[j]@)) is Some,
        decreases props_names@.len() - i,
    {
        let found = if usable {
            phf_get(type_map, &props_names[i])
        } else {
            None
        };
        assert(found == found_type(*type_map, props_names@[i as int]@));
        match found {
            Some(t) => ts.push(t),
            None => {
                all = false;
                ts.push(0);
            },
        }
        i = i + 1;
    }
    assert(ts@ =~= found_types(*type_map, props_names@));
    (ts, all)
}

/// The column type of each property name, looked up in `type_map`; `None`
/// when a name is not found (see `found_type`).
pub fn prop_types(type_map: &phf::Map<&'static str, i32>, props_names: &Vec<String>) -> (r: Option<
    Vec<i32>,
>)
    ensures
        r is Some <==> all_found(*type_map, props_names@),
        r matches Some(ts) ==> ts@ == found_types(*type_map, props_names@),
{
    let (ts, all) = lookup_types(type_map, props_names);
    if all {
        Some(ts)
    } else {
        None
    }
}

/// Why the rows of a tick were not collected.
#[derive(Debug, PartialEq, Eq, Structural)]
pub enum CollectError {
    /// A wanted property has no column type in the type map.
    UnknownProperty,
    /// The rows cannot all be built (see `Demo::collect_player_data_fails`).
    RowsCannotBeBuilt,
}

impl Demo {
    fn collect_one_player(
        player: &UserInfo,
        tick: &i32,
        wanted_ticks: &HashSet<i32>,
        wanted_players: &Vec<u64>,
        entities: &Vec<(u32, Entity)>,
        props_names: &Vec<String>,
        prop_types: &Vec<i32>,
        ticks_props: &mut ColumnMap,
        playback_frames: usize,
        manager_id: &Option<u32>,
    )
        requires
            props_names@.len() == prop_types@.len(),
            player_rows(
                Some(old(ticks_props)@),
                *player,
                *tick,
                wanted_ticks@,
                wanted_players@,
                slot_views(entities@),
                *manager_id,
                props_names@,
                prop_types@,
            ) is Some,
        ensures
            Some(final(ticks_props)@) == player_rows(
                Some(old(ticks_props)@),
                *player,
                *tick,
                wanted_ticks@,
                wanted_players@,
                slot_views(entities@),
                *manager_id,
                props_names@,
                prop_types@,
            ),
    {
        broadcast use group_hash_axioms;

        let ghost ents = slot_views(entities@);
        let gotv = String::from_str("GOTV");
        if player.xuid == 0 || player.name == gotv {
            return;
        }
        if !(wanted_ticks.contains(tick) || wanted_ticks.is_empty()) {
            return;
        }
        if !(contains_u64(wanted_players, player.xuid) || wanted_players.len() == 0) {
            return;
        }
        let idx = player.entity_id as usize;
        if entities[idx].0 == NO_PLAYER_MARKER {
            return;
        }
        let ent = &entities[idx];
        let manager = match manager_id {
            Some(id) => Some(&entities[*id as usize].1),
            None => None,
        };
        let ghost mg = match manager {
            Some(e) => Some(e@),
            None => None,
        };
        let ghost m0 = Some(ticks_props@);
        assert(ents[idx as int] == (ent.0, ent.1@));
        assert(manager_id matches Some(id) ==> ents[id as int] == (entities@[id as int].0, entities@[id as int].1@));
        assert(prop_rows(m0, ent.1@, mg, props_names@, prop_types@, props_names@.len()) is Some);
        let mut k: usize = 0;
        while k < props_names.len()
            invariant
                0 <= k <= props_names@.len(),
                props_names@.len() == prop_types@.len(),
                prop_rows(m0, ent.1@, mg, props_names@, prop_types@, props_names@.len()) is Some,
                Some(ticks_props@) == prop_rows(m0, ent.1@, mg, props_names@, prop_types@, k as nat),
                mg == match manager {
                    Some(e) => Some(e@),
                    None => None::<EntityView>,
                },
            decreases props_names@.len() - k,
        {
            proof {
                lemma_prop_rows_prefix(
                    m0,
                    ent.1@,
                    mg,
                    props_names@,
                    prop_types@,
                    (k + 1) as nat,
                    props_names@.len(),
                );
            }
            let prop_type = prop_types[k];
            if prop_type == MANAGER_PROP_TYPE {
                insert_manager_prop(ticks_props, &ent.1, &props_names[k], playback_frames, 0, manager);
            } else {
                insert_propcolumn(ticks_props, &ent.1, &props_names[k], playback_frames, prop_type);
            }
            k = k + 1;
        }
        insert_metadata(player.name.clone(), *tick, player.xuid, ticks_props, playback_frames);
    }

    /// Adds, for each player in `players` in turn, the rows of its wanted
    /// properties (`props_names`, whose column types are `prop_types`) and
    /// of its tick, name and Steam id (see `player_rows`). `players` is the
    /// order in which the players are visited. `entities` is left as it is.
    pub fn collect_player_data(
        players: &Vec<UserInfo>,
        tick: &i32,
        wanted_ticks: &HashSet<i32>,
        wanted_players: &Vec<u64>,
        entities: &mut Vec<(u32, Entity)>,
        props_names: &Vec<String>,
        prop_types: &Vec<i32>,
        ticks_props: &mut ColumnMap,
        playback_frames: usize,
        manager_id: &Option<u32>,
    )
        requires
            props_names@.len() == prop_types@.len(),
            collect_rows(
                Some(old(ticks_props)@),
                players@,
                players@.len(),
                *tick,
                wanted_ticks@,
                wanted_players@,
                slot_views(old(entities)@),
                *manager_id,
                props_names@,
                prop_types@,
            ) is Some,
        ensures
            final(entities)@ == old(entities)@,
            Some(final(ticks_props)@) == collect_rows(
                Some(old(ticks_props)@),
                players@,
                players@.len(),
                *tick,
                wanted_ticks@,
                wanted_players@,
                slot_views(old(entities)@),
                *manager_id,
                props_names@,
                prop_types@,
            ),
    {
        let ghost m0 = Some(ticks_props@);
        let mut i: usize = 0;
        while i < players.len()
            invariant
                0 <= i <= players@.len(),
                props_names@.len() == prop_types@.len(),
                entities@ == old(entities)@,
                collect_rows(
                    m0,
                    players@,
                    players@.len(),
                    *tick,
                    wanted_ticks@,
                    wanted_players@,
                    slot_views(entities@),
                    *manager_id,
                    props_names@,
                    prop_types@,
                ) is Some,
                Some(ticks_props@) == collect_rows(
                    m0,
                    players@,
                    i as nat,
                    *tick,
                    wanted_ticks@,
                    wanted_players@,
                    slot_views(entities@),
                    *manager_id,
                    props_names@,
                    prop_types@,
                ),
            decreases players@.len() - i,
        {
            proof {
                lemma_collect_rows_prefix(
                    m0,
                    players@,
                    (i + 1) as nat,
                    players@.len(),
                    *tick,
                    wanted_ticks@,
                    wanted_players@,
                    slot_views(entities@),
                    *manager_id,
                    props_names@,
                    prop_types@,
                );
            }
            Self::collect_one_player(
                &players[i],
                tick,
                wanted_ticks,
                wanted_players,
                entities,
                props_names,
                prop_types,
                ticks_props,
                playback_frames,
                manager_id,
            );
            i = i + 1;
        }
    }
}

proof fn lemma_prop_rows_dom_none(
    ent: EntityView,
    has_manager: bool,
    names: Seq<String>,
    types: Seq<i32>,
    j: nat,
    k: nat,
    d: Option<Set<Seq<char>>>,
)
    requires
        j <= k <= names.len(),
        k <= types.len(),
        prop_rows_dom(d, ent, has_manager, names, types, j) is None,
    ensures
        prop_rows_dom(d, ent, has_manager, names, types, k) is None,
    decreases k,
{
    if j < k {
        lemma_prop_rows_dom_none(ent, has_manager, names, types, j, (k - 1) as nat, d);
    }
}

proof fn lemma_collect_rows_dom_none(
    d: Option<Set<Seq<char>>>,
    players: Seq<UserInfo>,
    j: nat,
    k: nat,
    tick: i32,
    wanted_ticks: Set<i32>,
    wanted_players: Seq<u64>,
    ents: Seq<(u32, EntityView)>,
    manager_id: Option<u32>,
    names: Seq<String>,
    types: Seq<i32>,
)
    requires
        j <= k <= players.len(),
        collect_rows_dom(
            d,
            players,
            j,
            tick,
            wanted_ticks,
            wanted_players,
            ents,
            manager_id,
            names,
            types,
        ) is None,
    ensures
        collect_rows_dom(
            d,
            players,
            k,
            tick,
            wanted_ticks,
            wanted_players,
            ents,
            manager_id,
            names,
            types,
        ) is None,
    decreases k,
{
    if j < k {
        lemma_collect_rows_dom_none(
            d,
            players,
            j,
            (k - 1) as nat,
            tick,
            wanted_ticks,
            wanted_players,
            ents,
            manager_id,
            names,
            types,
        );
    }
}

impl Demo {
    /// The column names after the rows of `player`, in `dom`; `false` when
    /// they cannot all be put (see `player_rows_dom`).
    fn player_dom(
        player: &UserInfo,
        tick: &i32,
        wanted_ticks: &HashSet<i32>,
        wanted_players: &Vec<u64>,
        entities: &Vec<(u32, Entity)>,
        props_names: &Vec<String>,
        prop_types: &Vec<i32>,
        manager_id: &Option<u32>,
        dom: &mut Vec<String>,
    ) -> (ok: bool)
        requires
            props_names@.len() == prop_types@.len(),
        ensures
            match player_rows_dom(
                Some(name_set(old(dom)@)),
                *player,
                *tick,
                wanted_ticks@,
                wanted_players@,
                slot_views(entities@),
                *manager_id,
                props_names@,
                prop_types@,
            ) {
                Some(s) => ok && name_set(final(dom)@) == s,
                None => !ok,
            },
    {
        broadcast use group_hash_axioms;

        let ghost ents = slot_views(entities@);
        let gotv = String::from_str("GOTV");
        if player.xuid == 0 || player.name == gotv {
            return true;
        }
        if !(wanted_ticks.contains(tick) || wanted_ticks.is_empty()) {
            return true;
        }
        if !(contains_u64(wanted_players, player.xuid) || wanted_players.len() == 0) {
            return true;
        }
        let idx = player.entity_id as usize;
        if idx >= entities.len() {
            return false;
        }
        if entities[idx].0 == NO_PLAYER_MARKER {
            return true;
        }
        let has_manager = match manager_id {
            Some(id) => {
                if *id as usize >= entities.len() {
                    return false;
                }
                true
            },
            None => false,
        };
        let ent = &entities[idx].1;
        assert(ents[idx as int].1 == ent@);
        let ghost d0 = Some(name_set(dom@));
        assert(player_rows_dom(
            Some(name_set(old(dom)@)),
            *player,
            *tick,
            wanted_ticks@,
            wanted_players@,
            slot_views(entities@),
            *manager_id,
            props_names@,
            prop_types@,
        ) == match prop_rows_dom(d0, ent@, has_manager, props_names@, prop_types@, props_names@.len()) {
            None => None,
            Some(s) => Some(s.insert("tick"@).insert("name"@).insert("steamid"@)),
        });
        let mut k: usize = 0;
        while k < props_names.len()
            invariant
                0 <= k <= props_names@.len(),
                props_names@.len() == prop_types@.len(),
                player_rows_dom(
                    Some(name_set(old(dom)@)),
                    *player,
                    *tick,
                    wanted_ticks@,
                    wanted_players@,
                    slot_views(entities@),
                    *manager_id,
                    props_names@,
                    prop_types@,
                ) == match prop_rows_dom(
                    d0,
                    ent@,
                    has_manager,
                    props_names@,
                    prop_types@,
                    props_names@.len(),
                ) {
                    None => None,
                    Some(s) => Some(s.insert("tick"@).insert("name"@).insert("steamid"@)),
                },
                Some(name_set(dom@)) == prop_rows_dom(
                    d0,
                    ent@,
                    has_manager,
                    props_names@,
                    prop_types@,
                    k as nat,
                ),
            decreases props_names@.len() - k,
        {
            let t = prop_types[k];
            let name = &props_names[k];
            if t == MANAGER_PROP_TYPE {
                if has_manager && ent.entity_id >= 100 {
                    proof {
                        lemma_prop_rows_dom_none(
                            ent@,
                            has_manager,
                            props_names@,
                            prop_types@,
                            (k + 1) as nat,
                            props_names@.len(),
                            d0,
                        );
                    }
                    return false;
                }
                dom_insert(dom, name);
            } else {
                let present = dom_contains(dom, name);
                if !present && !(t == 0 || t == 1 || t == 2 || t == 4 || t == 5) {
                    proof {
                        lemma_prop_rows_dom_none(
                            ent@,
                            has_manager,
                            props_names@,
                            prop_types@,
                            (k + 1) as nat,
                            props_names@.len(),
                            d0,
                        );
                    }
                    return false;
                }
                dom_insert(dom, name);
            }
            k = k + 1;
        }
        dom_insert(dom, &String::from_str("tick"));
        dom_insert(dom, &String::from_str("name"));
        dom_insert(dom, &String::from_str("steamid"));
        true
    }

    /// Whether the rows that `collect_player_data` would add for these
    /// players cannot all be built: a player's entity or the
    /// player-resource entity is out of `entities`, a per-player name is
    /// needed for an entity id of 100 or more, or a missing column would
    /// have to be made of a type that no column has.
    pub fn collect_player_data_fails(
        players: &Vec<UserInfo>,
        tick: &i32,
        wanted_ticks: &HashSet<i32>,
        wanted_players: &Vec<u64>,
        entities: &Vec<(u32, Entity)>,
        props_names: &Vec<String>,
        prop_types: &Vec<i32>,
        ticks_props: &ColumnMap,
        manager_id: &Option<u32>,
    ) -> (fails: bool)
        requires
            props_names@.len() == prop_types@.len(),
        ensures
            fails == collect_rows(
                Some(ticks_props@),
                players@,
                players@.len(),
                *tick,
                wanted_ticks@,
                wanted_players@,
                slot_views(entities@),
                *manager_id,
                props_names@,
                prop_types@,
            ) is None,
    {
        let ghost ents = slot_views(entities@);
        let mut dom = ticks_props.names();
        assert(name_set(dom@) =~= ticks_props@.dom());
        let ghost d0 = Some(ticks_props@.dom());
        proof {
            lemma_collect_rows_dom(
                Some(ticks_props@),
                players@,
                players@.len(),
                *tick,
                wanted_ticks@,
                wanted_players@,
                ents,
                *manager_id,
                props_names@,
                prop_types@,
            );
        }
        let mut i: usize = 0;
        while i < players.len()
            invariant
                0 <= i <= players@.len(),
                props_names@.len() == prop_types@.len(),
                ents == slot_views(entities@),
                d0 == Some(ticks_props@.dom()),
                Some(name_set(dom@)) == collect_rows_dom(
                    d0,
                    players@,
                    i as nat,
                    *tick,
                    wanted_ticks@,
                    wanted_players@,
                    ents,
                    *manager_id,
                    props_names@,
                    prop_types@,
                ),
            decreases players@.len() - i,
        {
            if !Self::player_dom(
                &players[i],
                tick,
                wanted_ticks,
                wanted_players,
                entities,
                props_names,
                prop_types,
                manager_id,
                &mut dom,
            ) {
                proof {
                    lemma_collect_rows_dom(
                        Some(ticks_props@),
                        players@,
                        players@.len(),
                        *tick,
                        wanted_ticks@,
                        wanted_players@,
                        ents,
                        *manager_id,
                        props_names@,
                        prop_types@,
                    );
                    lemma_collect_rows_dom_none(
                        d0,
                        players@,
                        (i + 1) as nat,
                        players@.len(),
                        *tick,
                        wanted_ticks@,
                        wanted_players@,
                        ents,
                        *manager_id,
                        props_names@,
                        prop_types@,
                    );
                }
                return true;
            }
            i = i + 1;
        }
        proof {
            lemma_collect_rows_dom(
                Some(ticks_props@),
                players@,
                players@.len(),
                *tick,
                wanted_ticks@,
                wanted_players@,
                ents,
                *manager_id,
                props_names@,
                prop_types@,
            );
        }
        false
    }

    /// `collect_player_data` where every row can be built; otherwise
    /// `false`, with the columns unchanged.
    pub fn collect_player_data_checked(
        players: &Vec<UserInfo>,
        tick: &i32,
        wanted_ticks: &HashSet<i32>,
        wanted_players: &Vec<u64>,
        entities: &mut Vec<(u32, Entity)>,
        props_names: &Vec<String>,
        prop_types: &Vec<i32>,
        ticks_props: &mut ColumnMap,
        playback_frames: usize,
        manager_id: &Option<u32>,
    ) -> (done: bool)
        requires
            props_names@.len() == prop_types@.len(),
        ensures
            final(entities)@ == old(entities)@,
            done == collect_rows(
                Some(old(ticks_props)@),
                players@,
                players@.len(),
                *tick,
                wanted_ticks@,
                wanted_players@,
                slot_views(old(entities)@),
                *manager_id,
                props_names@,
                prop_types@,
            ) is Some,
            done ==> Some(final(ticks_props)@) == collect_rows(
                Some(old(ticks_props)@),
                players@,
                players@.len(),
                *tick,
                wanted_ticks@,
                wanted_players@,
                slot_views(old(entities)@),
                *manager_id,
                props_names@,
                prop_types@,
            ),
            !done ==> final(ticks_props)@ == old(ticks_props)@,
    {
        if Self::collect_player_data_fails(
            players,
            tick,
            wanted_ticks,
            wanted_players,
            entities,
            props_names,
            prop_types,
            ticks_props,
            manager_id,
        ) {
            return false;
        }
        Self::collect_player_data(
            players,
            tick,
            wanted_ticks,
            wanted_players,
            entities,
            props_names,
            prop_types,
            ticks_props,
            playback_frames,
            manager_id,
        );
        true
    }

    /// Whether some player of `players` gives rows (see `player_collected`).
    fn any_player_collected(
        players: &Vec<UserInfo>,
        tick: &i32,
        wanted_ticks: &HashSet<i32>,
        wanted_players: &Vec<u64>,
        entities: &Vec<(u32, Entity)>,
    ) -> (r: bool)
        ensures
            r == some_collected(
                players@,
                *tick,
                wanted_ticks@,
                wanted_players@,
                slot_views(entities@),
            ),
    {
        broadcast use group_hash_axioms;

        let ghost ents = slot_views(entities@);
        let gotv = String::from_str("GOTV");
        let tick_wanted = wanted_ticks.contains(tick) || wanted_ticks.is_empty();
        let mut i: usize = 0;
        while i < players.len()
            invariant
                0 <= i <= players@.len(),
                ents == slot_views(entities@),
                gotv@ == "GOTV"@,
                tick_wanted == (wanted_ticks@.contains(*tick) || wanted_ticks@.is_empty()),
                forall|k: int|
                    0 <= k < i ==> !#[trigger] player_collected(
                        players@[k],
                        *tick,
                        wanted_ticks@,
                        wanted_players@,
                        ents,
                    ),
            decreases players@.len() - i,
        {
            let p = &players[i];
            let named = !(p.xuid == 0 || p.name == gotv);
            let wanted = contains_u64(wanted_players, p.xuid) || wanted_players.len() == 0;
            let in_range = (p.entity_id as usize) < entities.len();
            let collected = tick_wanted && named && wanted && in_range
                && entities[p.entity_id as usize].0 != NO_PLAYER_MARKER;
            proof {
                if in_range {
                    assert(ents[p.entity_id as int].0 == entities@[p.entity_id as int].0);
                }
                assert(collected == player_collected(
                    players@[i as int],
                    *tick,
                    wanted_ticks@,
                    wanted_players@,
                    ents,
                ));
            }
            if collected {
                return true;
            }
            i = i + 1;
        }
        false
    }

    /// Adds the rows of the players as `collect_player_data` does, with the
    /// column type of each wanted property looked up in `type_map` (see
    /// `found_types`). The types are needed only when some player gives
    /// rows: then a property without one gives `UnknownProperty`. Otherwise,
    /// `RowsCannotBeBuilt` when the rows cannot all be built (see
    /// `collect_player_data_fails`). Nothing is added on an error.
    pub fn collect_player_data_with_types(
        players: &Vec<UserInfo>,
        tick: &i32,
        wanted_ticks: &HashSet<i32>,
        wanted_players: &Vec<u64>,
        entities: &mut Vec<(u32, Entity)>,
        props_names: &Vec<String>,
        type_map: &phf::Map<&'static str, i32>,
        ticks_props: &mut ColumnMap,
        playback_frames: usize,
        manager_id: &Option<u32>,
    ) -> (r: Result<(), CollectError>)
        ensures
            final(entities)@ == old(entities)@,
            r matches Err(CollectError::UnknownProperty) <==> some_collected(
                players@,
                *tick,
                wanted_ticks@,
                wanted_players@,
                slot_views(old(entities)@),
            ) && !all_found(*type_map, props_names@),
            !(r matches Err(CollectError::UnknownProperty)) ==> (r is Ok <==> collect_rows(
                Some(old(ticks_props)@),
                players@,
                players@.len(),
                *tick,
                wanted_ticks@,
                wanted_players@,
                slot_views(old(entities)@),
                *manager_id,
                props_names@,
                found_types(*type_map, props_names@),
            ) is Some),
            r is Ok ==> Some(final(ticks_props)@) == collect_rows(
                Some(old(ticks_props)@),
                players@,
                players@.len(),
                *tick,
                wanted_ticks@,
                wanted_players@,
                slot_views(old(entities)@),
                *manager_id,
                props_names@,
                found_types(*type_map, props_names@),
            ),
            r is Err ==> final(ticks_props)@ == old(ticks_props)@,
    {
        let (types, all) = lookup_types(type_map, props_names);
        if !all && Self::any_player_collected(players, tick, wanted_ticks, wanted_players, entities) {
            return Err(CollectError::UnknownProperty);
        }
        if Self::collect_player_data_checked(
            players,
            tick,
            wanted_ticks,
            wanted_players,
            entities,
            props_names,
            &types,
            ticks_props,
            playback_frames,
            manager_id,
        ) {
            Ok(())
        } else {
            Err(CollectError::RowsCannotBeBuilt)
        }
    }
}

} // verus!
