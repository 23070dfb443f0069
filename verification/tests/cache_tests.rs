use tiny_web::cache::{CacheSys, StrOrArrI64};
use tiny_web::data::Data;
use tiny_web::fnv1a_64;

fn as_i64(d: Option<&Data>) -> Option<i64> {
    match d {
        Some(Data::I64(v)) => Some(*v),
        _ => None,
    }
}

#[test]
fn fnv_of_empty_is_offset_basis() {
    assert_eq!(fnv1a_64(b""), -3750763034362895579);
}

#[test]
fn fnv_of_known_words() {
    assert_eq!(fnv1a_64(b"a"), -5808556873153909620);
    assert_eq!(fnv1a_64(b"redirect"), 8001877348260566385);
    assert_eq!(fnv1a_64(b"index"), -8948777187306027381);
}

#[test]
fn get_hash_splits_at_colons() {
    assert_eq!(CacheSys::get_hash("user:1"), vec![fnv1a_64(b"user"), fnv1a_64(b"1")]);
    assert_eq!(CacheSys::get_hash("user"), vec![fnv1a_64(b"user")]);
    assert_eq!(CacheSys::get_hash("a::b"), vec![fnv1a_64(b"a"), fnv1a_64(b""), fnv1a_64(b"b")]);
    assert_eq!(CacheSys::get_hash(""), vec![fnv1a_64(b"")]);
}

#[test]
fn key_conversions() {
    assert_eq!("user:1".to_arr(), CacheSys::get_hash("user:1"));
    assert_eq!(vec![7i64, 8].to_arr(), vec![7, 8]);
}

#[test]
fn new_cache_is_empty() {
    let c = CacheSys::new();
    assert!(c.get(&[1]).is_none());
    assert!(c.get(&[]).is_none());
}

#[test]
fn get_after_set() {
    let mut c = CacheSys::new();
    c.set(&[1, 2], Data::I64(5));
    assert_eq!(as_i64(c.get(&[1, 2])), Some(5));
    assert!(c.get(&[1]).is_none());
    assert!(c.get(&[1, 2, 3]).is_none());
    c.set(&[1, 2], Data::I64(6));
    assert_eq!(as_i64(c.get(&[1, 2])), Some(6));
}

#[test]
fn set_keeps_unrelated_keys() {
    let mut c = CacheSys::new();
    c.set(&[1, 2], Data::I64(5));
    c.set(&[1, 3], Data::I64(7));
    c.set(&[4], Data::I64(9));
    assert_eq!(as_i64(c.get(&[1, 2])), Some(5));
    assert_eq!(as_i64(c.get(&[1, 3])), Some(7));
    assert_eq!(as_i64(c.get(&[4])), Some(9));
}

#[test]
fn set_on_prefix_drops_what_was_below() {
    let mut c = CacheSys::new();
    c.set(&[1, 2], Data::I64(5));
    c.set(&[1], Data::I64(1));
    assert_eq!(as_i64(c.get(&[1])), Some(1));
    assert!(c.get(&[1, 2]).is_none());
    c.set(&[1, 2], Data::I64(3));
    assert!(c.get(&[1]).is_none());
    assert_eq!(as_i64(c.get(&[1, 2])), Some(3));
}

#[test]
fn empty_path_stores_nothing() {
    let mut c = CacheSys::new();
    c.set(&[], Data::I64(5));
    assert!(c.get(&[]).is_none());
}

#[test]
fn del_removes_key_and_all_below() {
    let mut c = CacheSys::new();
    c.set(&[1, 2], Data::I64(5));
    c.set(&[1, 3], Data::I64(7));
    c.set(&[4], Data::I64(9));
    c.del(&[1]);
    assert!(c.get(&[1, 2]).is_none());
    assert!(c.get(&[1, 3]).is_none());
    assert_eq!(as_i64(c.get(&[4])), Some(9));
}

#[test]
fn del_of_one_key_keeps_siblings() {
    let mut c = CacheSys::new();
    c.set(&[1, 2], Data::I64(5));
    c.set(&[1, 3], Data::I64(7));
    c.del(&[1, 2]);
    assert!(c.get(&[1, 2]).is_none());
    assert_eq!(as_i64(c.get(&[1, 3])), Some(7));
}

#[test]
fn clear_empties_cache() {
    let mut c = CacheSys::new();
    c.set(&[1, 2], Data::I64(5));
    c.set(&[4], Data::String("x".to_string()));
    c.clear();
    assert!(c.get(&[1, 2]).is_none());
    assert!(c.get(&[4]).is_none());
}

#[test]
fn string_key_without_colon_removes_its_group_too() {
    let mut c = CacheSys::new();
    c.set(&CacheSys::get_hash("user:1"), Data::I64(1));
    c.set(&CacheSys::get_hash("user:2"), Data::I64(2));
    c.set(&CacheSys::get_hash("page"), Data::I64(3));
    c.del(&CacheSys::get_hash("user"));
    assert!(c.get(&CacheSys::get_hash("user:1")).is_none());
    assert!(c.get(&CacheSys::get_hash("user:2")).is_none());
    assert_eq!(as_i64(c.get(&CacheSys::get_hash("page"))), Some(3));
}

#[test]
fn deleting_missing_key_changes_nothing() {
    let mut c = CacheSys::new();
    c.set(&[1, 2], Data::I64(5));
    c.del(&[9, 9]);
    c.del(&[]);
    assert_eq!(as_i64(c.get(&[1, 2])), Some(5));
}

#[test]
fn colon_key_removes_all_beginning_with_it() {
    let mut c = CacheSys::new();
    c.set(&CacheSys::get_hash("user:1"), Data::I64(1));
    c.set(&CacheSys::get_hash("user:2:x"), Data::I64(2));
    c.set(&CacheSys::get_hash("page"), Data::I64(3));
    c.del(&CacheSys::get_hash("user:"));
    assert!(c.get(&CacheSys::get_hash("user:1")).is_none());
    assert!(c.get(&CacheSys::get_hash("user:2:x")).is_none());
    assert_eq!(as_i64(c.get(&CacheSys::get_hash("page"))), Some(3));
}

#[test]
fn colon_key_keeps_value_stored_at_its_stem() {
    let mut c = CacheSys::new();
    c.set(&CacheSys::get_hash("user"), Data::I64(7));
    c.del(&CacheSys::get_hash("user:"));
    assert_eq!(as_i64(c.get(&CacheSys::get_hash("user"))), Some(7));
}
