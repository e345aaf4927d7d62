use csgo_entities::demo::Demo;
use csgo_entities::sendtable::{
    Prop, SendProp, SendTable, TableMap, FLAG_CHANGES_OFTEN, FLAG_COLLAPSIBLE, FLAG_EXCLUDE,
    FLAG_INSIDE_ARRAY, PROP_TYPE_ARRAY, PROP_TYPE_DATATABLE, PROP_TYPE_INT,
};
use std::collections::HashMap;

fn prop(name: &str, type_: i32, flags: i32, priority: i32, dt_name: &str) -> SendProp {
    SendProp {
        type_,
        var_name: name.to_string(),
        flags,
        priority,
        dt_name: dt_name.to_string(),
        num_elements: 0,
        num_bits: 8,
    }
}

fn table(name: &str, props: Vec<SendProp>) -> SendTable {
    SendTable { net_table_name: name.to_string(), props }
}

fn demo_with(tables: Vec<SendTable>) -> Demo {
    let mut map = TableMap::new();
    for t in tables {
        let name = t.net_table_name.clone();
        map.insert(name, t);
    }
    Demo {
        entities: Some(HashMap::new()),
        class_bits: 4,
        serverclass_map: HashMap::new(),
        dt_map: Some(map),
    }
}

fn names(props: &Vec<Prop>) -> Vec<String> {
    props.iter().map(|p| p.prop.var_name.clone()).collect()
}

#[test]
fn table_map_insert_replaces_and_get_finds() {
    let mut map = TableMap::new();
    map.insert("A".to_string(), table("A", vec![]));
    map.insert("B".to_string(), table("B", vec![prop("x", 0, 0, 0, "")]));
    map.insert("A".to_string(), table("A2", vec![]));
    assert_eq!(map.get(&"A".to_string()).unwrap().net_table_name, "A2");
    assert_eq!(map.get(&"B".to_string()).unwrap().props.len(), 1);
    assert!(map.get(&"C".to_string()).is_none());
}

#[test]
fn is_prop_excl_matches_table_and_name() {
    let demo = demo_with(vec![]);
    let t = table("DT_Player", vec![]);
    let excl = vec![prop("m_iHealth", 0, FLAG_EXCLUDE, 0, "DT_Player")];
    assert!(demo.is_prop_excl(excl.clone(), &t, prop("m_iHealth", 0, 0, 0, "")));
    assert!(!demo.is_prop_excl(excl.clone(), &t, prop("m_iArmor", 0, 0, 0, "")));
    let other = table("DT_Other", vec![]);
    assert!(!demo.is_prop_excl(excl, &other, prop("m_iHealth", 0, 0, 0, "")));
}

#[test]
fn get_excl_props_walks_nested_tables_depth_first() {
    let c = table("C", vec![prop("c1", PROP_TYPE_INT, FLAG_EXCLUDE, 0, "Z")]);
    let a = table(
        "A",
        vec![
            prop("a1", PROP_TYPE_INT, FLAG_EXCLUDE, 0, "X"),
            prop("sub", PROP_TYPE_DATATABLE, 0, 0, "C"),
            prop("a2", PROP_TYPE_INT, FLAG_EXCLUDE, 0, "Y"),
        ],
    );
    let demo = demo_with(vec![c, a.clone()]);
    let excl = demo.get_excl_props(&a);
    let got: Vec<String> = excl.iter().map(|p| p.var_name.clone()).collect();
    assert_eq!(got, vec!["a1", "c1", "a2"]);
}

#[test]
fn get_props_flattens_skips_and_sorts_by_column() {
    let s = table("S", vec![prop("x", PROP_TYPE_INT, 0, 0, ""), prop("y", PROP_TYPE_INT, 0, 0, "")]);
    let t = table(
        "T",
        vec![
            prop("a", PROP_TYPE_INT, 0, 0, ""),
            prop("b", PROP_TYPE_INT, FLAG_INSIDE_ARRAY, 0, ""),
            prop("c", PROP_TYPE_ARRAY, 0, 0, ""),
            prop("sub", PROP_TYPE_DATATABLE, 0, 0, "S"),
            prop("d", PROP_TYPE_INT, 0, 0, ""),
        ],
    );
    let demo = demo_with(vec![s, t.clone()]);
    let excl = vec![prop("d", PROP_TYPE_INT, FLAG_EXCLUDE, 0, "T")];
    let flat = demo.get_props(&t, &excl);
    assert_eq!(names(&flat), vec!["x", "y", "a", "c"]);
    assert_eq!(flat[0].col, 0);
    assert_eq!(flat[1].col, 0);
    assert_eq!(flat[2].col, 1);
    // The array's element is the property at the count of kept properties
    // before it, less one: here "a".
    assert_eq!(flat[3].arr.as_ref().unwrap().var_name, "a");
    assert_eq!(flat[0].table.net_table_name, "S");
    assert!(flat[2].arr.is_none());
}

#[test]
fn get_props_keeps_column_of_collapsible_tables() {
    let s = table("S", vec![prop("x", PROP_TYPE_INT, 0, 0, "")]);
    let t = table(
        "T",
        vec![prop("a", PROP_TYPE_INT, 0, 0, ""), prop("sub", PROP_TYPE_DATATABLE, FLAG_COLLAPSIBLE, 0, "S")],
    );
    let demo = demo_with(vec![s, t.clone()]);
    let flat = demo.get_props(&t, &vec![]);
    assert_eq!(names(&flat), vec!["a", "x"]);
    assert_eq!(flat[1].col, 1);
}

#[test]
fn flatten_dt_sorts_by_priority_passes() {
    let t = table(
        "T",
        vec![
            prop("p", PROP_TYPE_INT, 0, 10, ""),
            prop("q", PROP_TYPE_INT, 0, 5, ""),
            prop("r", PROP_TYPE_INT, FLAG_CHANGES_OFTEN, 128, ""),
            prop("s", PROP_TYPE_INT, 0, 5, ""),
        ],
    );
    let demo = demo_with(vec![t.clone()]);
    let flat = demo.flatten_dt(&t);
    assert_eq!(names(&flat), vec!["q", "s", "p", "r"]);
}

#[test]
fn flatten_dt_exchanges_with_the_first_unplaced_property() {
    let t = table(
        "T",
        vec![
            prop("a", PROP_TYPE_INT, 0, 2, ""),
            prop("b", PROP_TYPE_INT, 0, 2, ""),
            prop("c", PROP_TYPE_INT, 0, 1, ""),
        ],
    );
    let demo = demo_with(vec![t.clone()]);
    let flat = demo.flatten_dt(&t);
    // Pass 1 exchanges "c" with "a": c, b, a. Pass 2 keeps b, a in place.
    assert_eq!(names(&flat), vec!["c", "b", "a"]);
}

#[test]
fn flatten_dt_leaves_out_excluded_properties_of_nested_tables() {
    let s = table("S", vec![prop("x", PROP_TYPE_INT, 0, 1, ""), prop("y", PROP_TYPE_INT, 0, 1, "")]);
    let t = table(
        "T",
        vec![
            prop("y", PROP_TYPE_INT, FLAG_EXCLUDE, 0, "S"),
            prop("sub", PROP_TYPE_DATATABLE, FLAG_COLLAPSIBLE, 0, "S"),
            prop("z", PROP_TYPE_INT, 0, 0, ""),
        ],
    );
    let demo = demo_with(vec![s, t.clone()]);
    let flat = demo.flatten_dt(&t);
    assert_eq!(names(&flat), vec!["z", "x"]);
}

#[test]
fn get_excl_props_gathers_only_excluded_properties() {
    let c = table(
        "C",
        vec![prop("c0", PROP_TYPE_INT, 0, 0, ""), prop("c1", PROP_TYPE_INT, FLAG_EXCLUDE | 1, 0, "Z")],
    );
    let a = table(
        "A",
        vec![
            prop("a0", PROP_TYPE_INT, FLAG_INSIDE_ARRAY, 0, ""),
            prop("sub", PROP_TYPE_DATATABLE, FLAG_EXCLUDE, 0, "C"),
        ],
    );
    let demo = demo_with(vec![c, a.clone()]);
    let excl = demo.get_excl_props(&a);
    assert_eq!(excl.iter().map(|p| p.var_name.clone()).collect::<Vec<_>>(), vec!["sub", "c1"]);
    assert!(excl.iter().all(|p| p.flags & FLAG_EXCLUDE != 0));
}

#[test]
fn get_props_nested_list_is_the_nested_tables_list() {
    let s = table("S", vec![prop("x", PROP_TYPE_INT, 0, 0, ""), prop("skip", PROP_TYPE_INT, FLAG_INSIDE_ARRAY, 0, "")]);
    let u = table("U", vec![prop("u1", PROP_TYPE_INT, 0, 0, ""), prop("u2", PROP_TYPE_INT, 0, 0, "")]);
    let t = table(
        "T",
        vec![
            prop("a", PROP_TYPE_INT, 0, 0, ""),
            prop("s", PROP_TYPE_DATATABLE, FLAG_COLLAPSIBLE, 0, "S"),
            prop("u", PROP_TYPE_DATATABLE, 0, 0, "U"),
        ],
    );
    let demo = demo_with(vec![s.clone(), u.clone(), t.clone()]);
    let flat = demo.get_props(&t, &vec![]);
    let from_s = demo.get_props(&s, &vec![]);
    let from_u = demo.get_props(&u, &vec![]);
    assert_eq!(flat.len(), 1 + from_s.len() + from_u.len());
    assert_eq!(names(&flat), vec!["u1", "u2", "a", "x"]);
    let excl_t = demo.get_excl_props(&t);
    assert!(excl_t.is_empty());
}

#[test]
fn flatten_dt_keeps_a_grouped_list() {
    let t = table(
        "T",
        vec![
            prop("a", PROP_TYPE_INT, 0, 1, ""),
            prop("b", PROP_TYPE_INT, 0, 1, ""),
            prop("c", PROP_TYPE_INT, 0, 3, ""),
            prop("d", PROP_TYPE_INT, FLAG_CHANGES_OFTEN, 200, ""),
            prop("e", PROP_TYPE_INT, 0, 64, ""),
        ],
    );
    let demo = demo_with(vec![t.clone()]);
    let flat = demo.flatten_dt(&t);
    assert_eq!(names(&flat), names(&demo.get_props(&t, &vec![])));
    assert_eq!(names(&flat), vec!["a", "b", "c", "d", "e"]);
}
