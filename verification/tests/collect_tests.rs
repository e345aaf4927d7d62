use csgo_entities::collect::{
    insert_manager_prop, insert_metadata, insert_propcolumn, prop_types, CollectError, UserInfo,
};
use csgo_entities::columns::{create_default, ColumnMap, PropColumn, VarVec};
use csgo_entities::demo::Demo;
use csgo_entities::entities::{Entity, PropData, PropValue};
use std::collections::HashSet;

fn entity(id: u32, props: Vec<(&str, PropValue)>) -> Entity {
    Entity {
        class_id: 1,
        entity_id: id,
        serial: 0,
        props: props
            .into_iter()
            .map(|(n, v)| PropData { name: n.to_string(), data: v })
            .collect(),
    }
}

fn i32_rows(m: &ColumnMap, name: &str) -> Vec<Option<i32>> {
    match &m.get(&name.to_string()).unwrap().data {
        VarVec::I32(v) => v.clone(),
        _ => panic!("not an i32 column"),
    }
}

fn f32_rows(m: &ColumnMap, name: &str) -> Vec<Option<u32>> {
    match &m.get(&name.to_string()).unwrap().data {
        VarVec::F32(v) => v.clone(),
        _ => panic!("not a float column"),
    }
}

#[test]
fn create_default_makes_empty_column_of_type() {
    assert!(matches!(create_default(0, 8).data, VarVec::I32(ref v) if v.is_empty()));
    assert!(matches!(create_default(1, 8).data, VarVec::F32(ref v) if v.is_empty()));
    assert!(matches!(create_default(2, 8).data, VarVec::F32(ref v) if v.is_empty()));
    assert!(matches!(create_default(4, 8).data, VarVec::String(ref v) if v.is_empty()));
    assert!(matches!(create_default(5, 8).data, VarVec::U64(ref v) if v.is_empty()));
}

#[test]
fn push_propdata_of_other_type_gives_empty_row() {
    let mut c: PropColumn = create_default(0, 0);
    c.push_propdata(PropValue::I32(4));
    c.push_propdata(PropValue::U64(4));
    c.push_none();
    assert!(matches!(c.data, VarVec::I32(ref v) if *v == vec![Some(4), None, None]));
}

#[test]
fn insert_propcolumn_takes_latest_value() {
    let mut m = ColumnMap::new();
    let e = entity(3, vec![("m_iHealth", PropValue::I32(100)), ("m_iHealth", PropValue::I32(80))]);
    insert_propcolumn(&mut m, &e, &"m_iHealth".to_string(), 4, 0);
    insert_propcolumn(&mut m, &e, &"m_iArmor".to_string(), 4, 0);
    assert_eq!(i32_rows(&m, "m_iHealth"), vec![Some(80)]);
    assert_eq!(i32_rows(&m, "m_iArmor"), vec![None]);
}

#[test]
fn insert_propcolumn_keeps_type_of_existing_column() {
    let mut m = ColumnMap::new();
    let e = entity(3, vec![("m_flDuckAmount", PropValue::F32(0x3f80_0000))]);
    insert_propcolumn(&mut m, &e, &"m_flDuckAmount".to_string(), 4, 1);
    insert_propcolumn(&mut m, &e, &"m_flDuckAmount".to_string(), 4, -1);
    assert_eq!(f32_rows(&m, "m_flDuckAmount"), vec![Some(0x3f80_0000), Some(0x3f80_0000)]);
}

#[test]
fn insert_manager_prop_uses_three_digit_names() {
    let mut m = ColumnMap::new();
    let manager = entity(
        70,
        vec![("m_iKills005", PropValue::I32(3)), ("m_iKills012", PropValue::I32(9)), ("m_iKills5", PropValue::I32(1))],
    );
    insert_manager_prop(&mut m, &entity(5, vec![]), &"m_iKills".to_string(), 4, 0, Some(&manager));
    insert_manager_prop(&mut m, &entity(12, vec![]), &"m_iKills".to_string(), 4, 0, Some(&manager));
    insert_manager_prop(&mut m, &entity(13, vec![]), &"m_iKills".to_string(), 4, 0, Some(&manager));
    insert_manager_prop(&mut m, &entity(5, vec![]), &"m_iKills".to_string(), 4, 0, None);
    assert_eq!(i32_rows(&m, "m_iKills"), vec![Some(3), Some(9), None, None]);
}

#[test]
fn insert_metadata_adds_tick_name_and_steamid() {
    let mut m = ColumnMap::new();
    insert_metadata("s1mple".to_string(), 1234, 76561198034202275, &mut m, 0);
    assert_eq!(i32_rows(&m, "tick"), vec![Some(1234)]);
    assert!(matches!(&m.get(&"name".to_string()).unwrap().data, VarVec::String(v) if *v == vec![Some("s1mple".to_string())]));
    assert!(matches!(&m.get(&"steamid".to_string()).unwrap().data, VarVec::U64(v) if *v == vec![Some(76561198034202275)]));
    let mut names = m.names();
    names.sort();
    assert_eq!(names, vec!["name", "steamid", "tick"]);
}

fn player(xuid: u64, name: &str, entity_id: u32) -> UserInfo {
    UserInfo { xuid, name: name.to_string(), entity_id }
}

#[test]
fn collect_player_data_selects_players_and_adds_rows() {
    let players = vec![
        player(0, "unconnected", 1),
        player(11, "GOTV", 1),
        player(76561198000000001, "alice", 1),
        player(76561198000000002, "bob", 2),
        player(76561198000000003, "carol", 3),
    ];
    let mut entities = vec![
        (0, entity(0, vec![])),
        (1, entity(1, vec![("m_iHealth", PropValue::I32(100))])),
        (2, entity(2, vec![("m_iHealth", PropValue::I32(42))])),
        (1111111, entity(3, vec![("m_iHealth", PropValue::I32(7))])),
        (4, entity(4, vec![("m_iKills001", PropValue::I32(2)), ("m_iKills002", PropValue::I32(5))])),
    ];
    let names = vec!["m_iHealth".to_string(), "m_iKills".to_string()];
    let types = vec![0, 10];
    let wanted_ticks: HashSet<i32> = HashSet::new();
    let mut m = ColumnMap::new();
    Demo::collect_player_data(
        &players,
        &500,
        &wanted_ticks,
        &vec![],
        &mut entities,
        &names,
        &types,
        &mut m,
        16,
        &Some(4),
    );
    assert_eq!(i32_rows(&m, "m_iHealth"), vec![Some(100), Some(42)]);
    assert_eq!(i32_rows(&m, "m_iKills"), vec![Some(2), Some(5)]);
    assert_eq!(i32_rows(&m, "tick"), vec![Some(500), Some(500)]);
    assert_eq!(entities.len(), 5);
}

#[test]
fn collect_player_data_honours_wanted_ticks_and_players() {
    let players = vec![player(21, "alice", 0), player(22, "bob", 1)];
    let mut entities = vec![
        (0, entity(0, vec![("m_iHealth", PropValue::I32(1))])),
        (1, entity(1, vec![("m_iHealth", PropValue::I32(2))])),
    ];
    let names = vec!["m_iHealth".to_string()];
    let types = vec![0];
    let mut ticks: HashSet<i32> = HashSet::new();
    ticks.insert(7);
    let mut m = ColumnMap::new();
    Demo::collect_player_data(&players, &8, &ticks, &vec![], &mut entities, &names, &types, &mut m, 0, &None);
    assert!(m.get(&"m_iHealth".to_string()).is_none());
    Demo::collect_player_data(&players, &7, &ticks, &vec![22], &mut entities, &names, &types, &mut m, 0, &None);
    assert_eq!(i32_rows(&m, "m_iHealth"), vec![Some(2)]);
    assert!(matches!(&m.get(&"steamid".to_string()).unwrap().data, VarVec::U64(v) if *v == vec![Some(22)]));
}

#[test]
fn prop_types_looks_names_up() {
    static ONE: phf::Map<&'static str, i32> =
        phf::Map { key: 0, disps: &[(0, 0)], entries: &[("m_iKills", 10)] };
    assert_eq!(prop_types(&ONE, &vec!["m_iKills".to_string()]), Some(vec![10]));
    assert_eq!(prop_types(&ONE, &vec!["m_iKills".to_string(), "m_iDeaths".to_string()]), None);
    assert_eq!(prop_types(&ONE, &vec![]), Some(vec![]));
}

fn rows(m: &ColumnMap, name: &str) -> usize {
    match &m.get(&name.to_string()).unwrap().data {
        VarVec::I32(v) => v.len(),
        VarVec::F32(v) => v.len(),
        VarVec::String(v) => v.len(),
        VarVec::U64(v) => v.len(),
    }
}

#[test]
fn collected_columns_keep_equal_row_counts() {
    let players = vec![player(31, "a", 0), player(32, "b", 1), player(0, "c", 0)];
    let mut entities = vec![
        (0, entity(0, vec![("m_iHealth", PropValue::I32(1))])),
        (1, entity(1, vec![("m_flDuckAmount", PropValue::F32(7))])),
    ];
    let names = vec!["m_iHealth".to_string(), "m_flDuckAmount".to_string()];
    let types = vec![0, 1];
    let ticks: HashSet<i32> = HashSet::new();
    let mut m = ColumnMap::new();
    m.push_row(&"other".to_string(), 0, 0, Some(PropValue::I32(9)));
    for tick in 0..3 {
        Demo::collect_player_data(&players, &tick, &ticks, &vec![], &mut entities, &names, &types, &mut m, 0, &None);
    }
    for name in ["m_iHealth", "m_flDuckAmount", "tick", "name", "steamid"] {
        assert_eq!(rows(&m, name), 6);
    }
    assert_eq!(i32_rows(&m, "other"), vec![Some(9)]);
    assert_eq!(f32_rows(&m, "m_flDuckAmount"), vec![None, Some(7), None, Some(7), None, Some(7)]);
}

#[test]
fn collect_player_data_checked_refuses_entity_out_of_range() {
    let players = vec![player(31, "a", 0), player(32, "b", 5)];
    let mut entities = vec![(0, entity(0, vec![("m_iHealth", PropValue::I32(1))]))];
    let names = vec!["m_iHealth".to_string()];
    let types = vec![0];
    let ticks: HashSet<i32> = HashSet::new();
    let mut m = ColumnMap::new();
    assert!(Demo::collect_player_data_fails(&players, &1, &ticks, &vec![], &entities, &names, &types, &m, &None));
    assert!(!Demo::collect_player_data_checked(
        &players, &1, &ticks, &vec![], &mut entities, &names, &types, &mut m, 0, &None
    ));
    assert!(m.names().is_empty());
    let one = vec![player(31, "a", 0)];
    assert!(!Demo::collect_player_data_fails(&one, &1, &ticks, &vec![], &entities, &names, &types, &m, &None));
    assert!(Demo::collect_player_data_checked(&one, &1, &ticks, &vec![], &mut entities, &names, &types, &mut m, 0, &None));
    assert_eq!(i32_rows(&m, "m_iHealth"), vec![Some(1)]);
}

#[test]
fn collect_player_data_checked_refuses_new_column_of_unknown_type() {
    let players = vec![player(31, "a", 0)];
    let mut entities = vec![(0, entity(0, vec![]))];
    let names = vec!["m_hActiveWeapon".to_string()];
    let types = vec![-1];
    let ticks: HashSet<i32> = HashSet::new();
    let mut m = ColumnMap::new();
    assert!(!Demo::collect_player_data_checked(
        &players, &1, &ticks, &vec![], &mut entities, &names, &types, &mut m, 0, &None
    ));
    m.push_row(&"m_hActiveWeapon".to_string(), 0, 0, None);
    assert!(Demo::collect_player_data_checked(&players, &1, &ticks, &vec![], &mut entities, &names, &types, &mut m, 0, &None));
    assert_eq!(i32_rows(&m, "m_hActiveWeapon"), vec![None, None]);
}

#[test]
fn collect_player_data_checked_refuses_manager_name_for_large_id() {
    let players = vec![player(31, "a", 0)];
    let mut entities = vec![(0, entity(120, vec![])), (1, entity(70, vec![]))];
    let names = vec!["m_iKills".to_string()];
    let types = vec![10];
    let ticks: HashSet<i32> = HashSet::new();
    let mut m = ColumnMap::new();
    assert!(!Demo::collect_player_data_checked(
        &players, &1, &ticks, &vec![], &mut entities, &names, &types, &mut m, 0, &Some(1)
    ));
    assert!(Demo::collect_player_data_checked(&players, &1, &ticks, &vec![], &mut entities, &names, &types, &mut m, 0, &None));
    assert_eq!(i32_rows(&m, "m_iKills"), vec![None]);
}

#[test]
fn collect_player_data_with_types_looks_types_up_first() {
    static KILLS: phf::Map<&'static str, i32> =
        phf::Map { key: 0, disps: &[(0, 0)], entries: &[("m_iKills", 10)] };
    let players = vec![player(31, "a", 1)];
    let mut entities = vec![(0, entity(0, vec![("m_iKills001", PropValue::I32(4))])), (1, entity(1, vec![]))];
    let ticks: HashSet<i32> = HashSet::new();
    let mut m = ColumnMap::new();
    let unknown = vec!["m_iKills".to_string(), "m_iDeaths".to_string()];
    assert_eq!(
        Demo::collect_player_data_with_types(&players, &3, &ticks, &vec![], &mut entities, &unknown, &KILLS, &mut m, 0, &Some(0)),
        Err(CollectError::UnknownProperty)
    );
    assert!(m.names().is_empty());
    let names = vec!["m_iKills".to_string()];
    assert_eq!(
        Demo::collect_player_data_with_types(&players, &3, &ticks, &vec![], &mut entities, &names, &KILLS, &mut m, 0, &Some(5)),
        Err(CollectError::RowsCannotBeBuilt)
    );
    assert!(m.names().is_empty());
    assert_eq!(
        Demo::collect_player_data_with_types(&players, &3, &ticks, &vec![], &mut entities, &names, &KILLS, &mut m, 0, &Some(0)),
        Ok(())
    );
    assert_eq!(i32_rows(&m, "m_iKills"), vec![Some(4)]);
    assert_eq!(i32_rows(&m, "tick"), vec![Some(3)]);
}

#[test]
fn prop_types_of_empty_map_finds_nothing() {
    static EMPTY: phf::Map<&'static str, i32> = phf::Map { key: 0, disps: &[(0, 0)], entries: &[] };
    assert_eq!(prop_types(&EMPTY, &vec!["m_iKills".to_string()]), None);
    assert_eq!(prop_types(&EMPTY, &vec![]), Some(vec![]));
}

#[test]
fn collect_player_data_with_types_looks_up_only_when_rows_are_built() {
    static KILLS: phf::Map<&'static str, i32> =
        phf::Map { key: 0, disps: &[(0, 0)], entries: &[("m_iKills", 10)] };
    let players = vec![player(31, "a", 1), player(0, "b", 0)];
    let mut entities = vec![(0, entity(0, vec![])), (1, entity(1, vec![]))];
    let mut ticks: HashSet<i32> = HashSet::new();
    ticks.insert(9);
    let mut m = ColumnMap::new();
    let unknown = vec!["m_iDeaths".to_string()];
    assert_eq!(
        Demo::collect_player_data_with_types(&players, &3, &ticks, &vec![], &mut entities, &unknown, &KILLS, &mut m, 0, &None),
        Ok(())
    );
    assert!(m.names().is_empty());
    assert_eq!(
        Demo::collect_player_data_with_types(&players, &9, &ticks, &vec![], &mut entities, &unknown, &KILLS, &mut m, 0, &None),
        Err(CollectError::UnknownProperty)
    );
    assert!(m.names().is_empty());
}

#[test]
fn skipped_player_changes_nothing_wherever_it_stands() {
    let names = vec!["m_iHealth".to_string()];
    let types = vec![0];
    let ticks: HashSet<i32> = HashSet::new();
    let base = vec![player(31, "a", 0), player(32, "b", 1)];
    let with_gotv = vec![player(31, "a", 0), player(77, "GOTV", 99), player(32, "b", 1)];
    let mut entities = vec![
        (0, entity(0, vec![("m_iHealth", PropValue::I32(5))])),
        (1, entity(1, vec![("m_iHealth", PropValue::I32(6))])),
    ];
    let mut m1 = ColumnMap::new();
    let mut m2 = ColumnMap::new();
    assert!(Demo::collect_player_data_checked(&base, &1, &ticks, &vec![], &mut entities, &names, &types, &mut m1, 0, &None));
    assert!(Demo::collect_player_data_checked(&with_gotv, &1, &ticks, &vec![], &mut entities, &names, &types, &mut m2, 0, &None));
    assert_eq!(i32_rows(&m1, "m_iHealth"), i32_rows(&m2, "m_iHealth"));
    assert_eq!(rows(&m2, "steamid"), 2);
}

#[test]
fn collected_rows_come_from_the_same_player() {
    let players = vec![player(41, "x", 1), player(42, "y", 0)];
    let mut entities = vec![
        (0, entity(0, vec![("m_iHealth", PropValue::I32(20))])),
        (1, entity(1, vec![("m_iHealth", PropValue::I32(10))])),
    ];
    let names = vec!["m_iHealth".to_string()];
    let types = vec![0];
    let ticks: HashSet<i32> = HashSet::new();
    let mut m = ColumnMap::new();
    Demo::collect_player_data(&players, &2, &ticks, &vec![], &mut entities, &names, &types, &mut m, 0, &None);
    assert_eq!(i32_rows(&m, "m_iHealth"), vec![Some(10), Some(20)]);
    assert!(matches!(&m.get(&"steamid".to_string()).unwrap().data, VarVec::U64(v) if *v == vec![Some(41), Some(42)]));
    assert!(matches!(&m.get(&"name".to_string()).unwrap().data, VarVec::String(v) if *v == vec![Some("x".to_string()), Some("y".to_string())]));
}
