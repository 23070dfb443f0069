use tiny_web::data::Data;
use tiny_web::fnv1a_64;
use std::collections::BTreeMap;

use tiny_web::rows::{convert, group, group_list};

fn as_int(d: &Data) -> Option<i64> {
    match d {
        Data::I64(v) => Some(*v),
        _ => None,
    }
}

#[test]
fn rows_as_lists() {
    let names = vec![fnv1a_64(b"id"), fnv1a_64(b"name")];
    let rows = vec![vec![Data::I64(1), Data::String("a".to_string())], vec![Data::I64(2), Data::Nothing]];
    let out = convert(&names, rows, false);
    assert_eq!(out.len(), 2);
    match &out[0] {
        Data::Vec(v) => {
            assert_eq!(v.len(), 2);
            assert_eq!(as_int(&v[0]), Some(1));
            assert!(matches!(&v[1], Data::String(s) if s == "a"));
        }
        _ => panic!("a list was expected"),
    }
    assert!(matches!(&out[1], Data::Vec(v) if matches!(v[1], Data::Nothing)));
}

#[test]
fn rows_as_maps_last_column_wins() {
    let names = vec![fnv1a_64(b"id"), fnv1a_64(b"x"), fnv1a_64(b"x")];
    let rows = vec![vec![Data::I64(7), Data::I64(1), Data::I64(2)]];
    let out = convert(&names, rows, true);
    match &out[0] {
        Data::KeyMap(m) => {
            assert_eq!(m.len(), 2);
            assert_eq!(m.get(&fnv1a_64(b"id")).and_then(as_int), Some(7));
            assert_eq!(m.get(&fnv1a_64(b"x")).and_then(as_int), Some(2));
        }
        _ => panic!("a map was expected"),
    }
    assert!(convert(&names, Vec::new(), true).is_empty());
}

fn h(s: &str) -> i64 {
    fnv1a_64(s.as_bytes())
}

fn map(d: &Data) -> &BTreeMap<i64, Data> {
    match d {
        Data::KeyMap(m) => m,
        _ => panic!("a map was expected"),
    }
}

fn text(d: &Data) -> Option<&str> {
    match d {
        Data::String(s) => Some(s.as_str()),
        _ => None,
    }
}

fn table() -> (Vec<i64>, Vec<Vec<Data>>) {
    let names = vec![h("id"), h("title"), h("tag_id"), h("tag")];
    let row = |id: Data, title: &str, tag_id: Data, tag: &str| vec![id, Data::String(title.to_string()), tag_id, Data::String(tag.to_string())];
    let rows = vec![
        row(Data::I64(1), "A", Data::I64(10), "x"),
        row(Data::I64(1), "A2", Data::I64(11), "y"),
        row(Data::I64(2), "B", Data::I64(10), "x2"),
        row(Data::I64(3), "C", Data::Nothing, "z"),
        row(Data::Nothing, "D", Data::I64(12), "w"),
    ];
    (names, rows)
}

#[test]
fn group_rows_in_two_levels() {
    let (names, rows) = table();
    let conds = vec![vec![h("id"), h("title")], vec![h("tag_id"), h("tag")]];
    let out = group(&names, &rows, &conds).unwrap();
    let root = map(&out);
    assert_eq!(root.len(), 3);
    let g1 = map(&root[&1]);
    assert_eq!(as_int(&g1[&h("id")]), Some(1));
    assert_eq!(text(&g1[&h("title")]), Some("A"));
    assert_eq!(g1.len(), 3);
    let tags = map(&g1[&h("sub")]);
    assert_eq!(tags.len(), 2);
    assert_eq!(text(&map(&tags[&10])[&h("tag")]), Some("x"));
    assert_eq!(text(&map(&tags[&11])[&h("tag")]), Some("y"));
    assert!(map(&map(&tags[&10])[&h("sub")]).is_empty());
    let g2 = map(&root[&2]);
    assert_eq!(text(&map(&map(&g2[&h("sub")])[&10])[&h("tag")]), Some("x2"));
    let g3 = map(&root[&3]);
    assert_eq!(text(&g3[&h("title")]), Some("C"));
    assert!(map(&g3[&h("sub")]).is_empty());
}

#[test]
fn group_edge_cases() {
    let (names, rows) = table();
    assert!(group(&names, &rows, &Vec::new()).is_none());
    let conds = vec![vec![h("id")], vec![h("missing")]];
    let out = group(&names, &rows, &conds).unwrap();
    let root = map(&out);
    assert_eq!(root.len(), 3);
    assert!(map(&map(&root[&1])[&h("sub")]).is_empty());
    let out = group(&names, &Vec::new(), &conds).unwrap();
    assert!(map(&out).is_empty());
    let out = group(&names, &rows, &vec![vec![h("title")]]).unwrap();
    assert!(map(&out).is_empty());
}

fn list(d: &Data) -> &Vec<Data> {
    match d {
        Data::Vec(v) => v,
        _ => panic!("a list was expected"),
    }
}

#[test]
fn group_rows_as_lists() {
    let (names, rows) = table();
    let conds: Vec<Vec<usize>> = vec![vec![0, 1], vec![2, 3]];
    let out = group_list(&names, &rows, &conds).unwrap();
    let root = map(&out);
    assert_eq!(root.len(), 3);
    let g1 = list(&root[&1]);
    assert_eq!(g1.len(), 3);
    assert_eq!(as_int(&g1[0]), Some(1));
    assert_eq!(text(&g1[1]), Some("A"));
    let tags = map(&g1[2]);
    assert_eq!(tags.len(), 2);
    let t11 = list(&tags[&11]);
    assert_eq!(text(&t11[1]), Some("y"));
    assert!(map(&t11[2]).is_empty());
    assert!(map(&list(&root[&3])[2]).is_empty());
    assert!(group_list(&names, &rows, &Vec::new()).is_none());
    let out = group_list(&names, &rows, &vec![vec![0], vec![9]]).unwrap();
    assert!(map(&list(&map(&out)[&2])[1]).is_empty());
}
