//! Query results as values: each row by column, read as a list or as a map
//! from column names to values, and rows grouped into a hierarchy by the
//! values of grouping keys.

use std::collections::BTreeMap;
use vstd::prelude::*;

use crate::data::Data;
use crate::{fnv1a_64, spec_fnv1a_64};

verus! {

broadcast use {vstd::std_specs::btree::group_btree_axioms, vstd::laws_cmp::group_laws_cmp};

/// The index of the last column whose name has the hash `k`.
pub open spec fn last_col(names: Seq<i64>, k: i64) -> Option<int>
    decreases names.len(),
{
    if names.len() == 0 {
        None
    } else if names.last() == k {
        Some(names.len() - 1)
    } else {
        last_col(names.drop_last(), k)
    }
}

proof fn lemma_last_col(names: Seq<i64>, k: i64)
    ensures
        match last_col(names, k) {
            Some(j) => 0 <= j < names.len() && names[j] == k && forall|i: int|
                j < i < names.len() ==> names[i] != k,
            None => forall|i: int| 0 <= i < names.len() ==> names[i] != k,
        },
    decreases names.len(),
{
    if names.len() > 0 && names.last() != k {
        lemma_last_col(names.drop_last(), k);
        assert forall|i: int| 0 <= i < names.len() - 1 implies names.drop_last()[i] == names[i] by {}
    }
}

/// A row as a map: under each column name's hash, the value of the last
/// column with that name.
pub open spec fn row_map(m: Map<i64, Data>, names: Seq<i64>, row: Seq<Data>) -> bool {
    forall|k: i64| #![trigger m.contains_key(k)] #![trigger last_col(names, k)]
        (m.contains_key(k) == last_col(names, k) is Some) && (m.contains_key(k) ==> m[k] == row[last_col(
            names,
            k,
        )->0])
}

/// A row read as a map (see `row_map`).
fn row_to_map(names: &Vec<i64>, row: Vec<Data>) -> (res: BTreeMap<i64, Data>)
    requires
        row@.len() == names@.len(),
    ensures
        row_map(res@, names@, row@),
{
    let ghost orig = row@;
    let mut row = row;
    let mut m: BTreeMap<i64, Data> = BTreeMap::new();
    let mut cur: usize = row.len();
    assert forall|k: i64| #![trigger m@.contains_key(k)]
        (m@.contains_key(k) == (last_col(names@, k) is Some && last_col(names@, k)->0 >= cur)) by {
        lemma_last_col(names@, k);
    }
    assert(row@ =~= orig.subrange(0, cur as int));
    while cur > 0
        invariant
            cur == row@.len(),
            cur <= names@.len(),
            orig.len() == names@.len(),
            row@ == orig.subrange(0, cur as int),
            forall|k: i64| #![trigger m@.contains_key(k)]
                (m@.contains_key(k) == (last_col(names@, k) is Some && last_col(names@, k)->0 >= cur)) && (
                m@.contains_key(k) ==> m@[k] == orig[last_col(names@, k)->0]),
        decreases cur,
    {
        let v = row.pop().unwrap();
        cur = cur - 1;
        let k = names[cur];
        proof {
            lemma_last_col(names@, k);
        }
        assert forall|k2: i64| k2 != k && #[trigger] last_col(names@, k2) is Some implies last_col(names@, k2)->0
            != cur by {
            lemma_last_col(names@, k2);
        }
        if !m.contains_key(&k) {
            m.insert(k, v);
        }
        assert forall|k2: i64| #![trigger m@.contains_key(k2)]
            (m@.contains_key(k2) == (last_col(names@, k2) is Some && last_col(names@, k2)->0 >= cur)) && (
            m@.contains_key(k2) ==> m@[k2] == orig[last_col(names@, k2)->0]) by {
            lemma_last_col(names@, k2);
        }
    }
    assert forall|k: i64| #![trigger last_col(names@, k)] last_col(names@, k) is Some implies last_col(
        names@,
        k,
    )->0 >= 0 by {
        lemma_last_col(names@, k);
    }
    m
}

/// A row as the adapter hands it on: a map with `assoc` (see `row_map`),
/// else the list of its values.
pub open spec fn row_as_data(d: Data, names: Seq<i64>, row: Seq<Data>, assoc: bool) -> bool {
    if assoc {
        d matches Data::KeyMap(m) && row_map(m@, names, row)
    } else {
        d matches Data::Vec(v) && v@ == row
    }
}

/// Reads the rows of a query answer, each with one value per column:
/// with `assoc` each row becomes a map from column names (by hash) to
/// values, the last column of a name winning; else the list of its values.
pub fn convert(names: &Vec<i64>, rows: Vec<Vec<Data>>, assoc: bool) -> (res: Vec<Data>)
    requires
        forall|i: int| 0 <= i < rows@.len() ==> #[trigger] rows@[i]@.len() == names@.len(),
    ensures
        res@.len() == rows@.len(),
        forall|i: int| 0 <= i < rows@.len() ==> #[trigger] row_as_data(res@[i], names@, rows@[i]@, assoc),
{
    let ghost orig = rows@;
    let mut rows = rows;
    let mut out: Vec<Data> = Vec::new();
    let n = rows.len();
    let mut i: usize = 0;
    while i < n
        invariant
            n == orig.len(),
            i <= n,
            out@.len() == i,
            rows@.len() == n,
            forall|j: int| i <= j < n ==> #[trigger] rows@[j] == orig[j],
            forall|j: int| 0 <= j < n ==> #[trigger] orig[j]@.len() == names@.len(),
            forall|j: int| 0 <= j < i ==> #[trigger] row_as_data(out@[j], names@, orig[j]@, assoc),
        decreases n - i,
    {
        let mut row: Vec<Data> = Vec::new();
        std::mem::swap(&mut row, &mut rows[i]);
        assert(row == orig[i as int]);
        if assoc {
            let m = row_to_map(names, row);
            out.push(Data::KeyMap(m));
        } else {
            out.push(Data::Vec(row));
        }
        i = i + 1;
    }
    out
}


/// A value a database cell holds: not a list, a map, a route or a redirect.
pub open spec fn is_cell(d: Data) -> bool {
    !(d is Vec || d is KeyMap || d is Route || d is Redirect)
}

/// `b` is a copy of the cell `a`.
pub open spec fn copy_of(a: Data, b: Data) -> bool {
    match a {
        Data::Raw(x) => b matches Data::Raw(y) && y@ == x@,
        _ => b == a,
    }
}

/// A copy of a cell.
fn copy_cell(d: &Data) -> (res: Data)
    requires
        is_cell(*d),
    ensures
        copy_of(*d, res),
{
    match d {
        Data::Nothing => Data::Nothing,
        Data::Usize(x) => Data::Usize(*x),
        Data::I16(x) => Data::I16(*x),
        Data::I32(x) => Data::I32(*x),
        Data::I64(x) => Data::I64(*x),
        Data::F32(x) => Data::F32(*x),
        Data::F64(x) => Data::F64(*x),
        Data::Bool(x) => Data::Bool(*x),
        Data::String(x) => Data::String(x.clone()),
        Data::Date(x) => Data::Date(*x),
        Data::Json(x) => Data::Json(x.clone()),
        Data::Raw(x) => {
            let mut v: Vec<u8> = Vec::new();
            let mut i: usize = 0;
            while i < x.len()
                invariant
                    i <= x@.len(),
                    v@ == x@.subrange(0, i as int),
                decreases x@.len() - i,
            {
                v.push(x[i]);
                i = i + 1;
                assert(v@ =~= x@.subrange(0, i as int));
            }
            assert(x@.subrange(0, x@.len() as int) =~= x@);
            Data::Raw(v)
        },
        _ => Data::Nothing,
    }
}

/// The index of the last column whose name has the hash `k`, if any.
fn find_col(names: &Vec<i64>, k: i64) -> (res: Option<usize>)
    ensures
        match last_col(names@, k) {
            Some(j) => res matches Some(c) && c as int == j,
            None => res is None,
        },
{
    let mut i = names.len();
    assert(names@.subrange(0, i as int) =~= names@);
    while i > 0
        invariant
            i <= names@.len(),
            last_col(names@.subrange(0, i as int), k) == last_col(names@, k),
        decreases i,
    {
        assert(names@.subrange(0, i as int).drop_last() =~= names@.subrange(0, i - 1));
        if names[i - 1] == k {
            return Some(i - 1);
        }
        i = i - 1;
    }
    None
}

/// The hash of `sub`, the key under which a group's children are kept.
pub open spec fn sub_key() -> i64 {
    spec_fnv1a_64(seq![115u8, 117u8, 98u8])
}

fn sub_key_exec() -> (res: i64)
    ensures
        res == sub_key(),
{
    let v: Vec<u8> = vec![115u8, 117u8, 98u8];
    assert(v@ =~= seq![115u8, 117u8, 98u8]);
    fnv1a_64(v.as_slice())
}

/// The column a grouping key names: with `assoc`, the last column whose
/// name has the hash `k` (0 names none); else the column at index `k`.
pub open spec fn col_of(names: Seq<i64>, assoc: bool, k: int) -> Option<int> {
    if assoc {
        if k != 0 {
            last_col(names, k as i64)
        } else {
            None
        }
    } else if 0 <= k < names.len() {
        Some(k)
    } else {
        None
    }
}

/// A level of grouping can make groups: it has keys, and each names a
/// column.
pub open spec fn level_ok(names: Seq<i64>, assoc: bool, cs: Seq<int>) -> bool {
    cs.len() > 0 && forall|i: int| 0 <= i < cs.len() ==> #[trigger] col_of(names, assoc, cs[i]) is Some
}

/// The value by which a row is grouped at a level: the 64-bit integer in
/// the column named by the level's first key.
pub open spec fn key_value(names: Seq<i64>, assoc: bool, cs: Seq<int>, row: Seq<Data>) -> Option<i64> {
    if cs.len() > 0 && col_of(names, assoc, cs[0]) is Some {
        match row[col_of(names, assoc, cs[0])->0] {
            Data::I64(v) => Some(v),
            _ => None,
        }
    } else {
        None
    }
}

/// A row reaches the group at the path `p` (its group values from the top
/// level down): at each level down to it, the level can make groups and the
/// row's value there is the path's.
pub open spec fn reaches(names: Seq<i64>, assoc: bool, conds: Seq<Seq<int>>, row: Seq<Data>, p: Seq<i64>) -> bool
    decreases p.len(),
{
    if p.len() == 0 {
        true
    } else {
        let j = p.len() - 1;
        &&& reaches(names, assoc, conds, row, p.drop_last())
        &&& j < conds.len()
        &&& level_ok(names, assoc, conds[j])
        &&& key_value(names, assoc, conds[j], row) == Some(p.last())
    }
}

/// The first row that reaches the group at `p`; there is a group exactly
/// when there is one.
pub open spec fn first_row(names: Seq<i64>, assoc: bool, conds: Seq<Seq<int>>, rows: Seq<Seq<Data>>, p: Seq<i64>) -> Option<int>
    decreases rows.len(),
{
    if rows.len() == 0 {
        None
    } else {
        match first_row(names, assoc, conds, rows.drop_last(), p) {
            Some(i) => Some(i),
            None => if reaches(names, assoc, conds, rows.last(), p) {
                Some(rows.len() - 1)
            } else {
                None
            },
        }
    }
}

/// The fields of a group made from a row at a level, as a map: each key
/// of the level (but `sub`) holds a copy of the row's value in the column
/// it names, and there are no other keys than these and `sub`.
pub open spec fn node_fields(node: Map<i64, Data>, names: Seq<i64>, cs: Seq<int>, row: Seq<Data>) -> bool {
    &&& forall|k: i64| #[trigger] node.contains_key(k) == (k == sub_key() || cs.contains(k as int))
    &&& forall|k: i64|
        k != sub_key() && #[trigger] cs.contains(k as int) ==> copy_of(row[col_of(names, true, k as int)->0], node[k])
}

/// The fields of a group made from a row at a level, as a list: a copy of
/// the row's value in the column of each key of the level, in order, then
/// the children.
pub open spec fn list_fields(node: Seq<Data>, names: Seq<i64>, cs: Seq<int>, row: Seq<Data>) -> bool {
    &&& node.len() == cs.len() + 1
    &&& forall|i: int| 0 <= i < cs.len() ==> copy_of(row[col_of(names, false, cs[i])->0], #[trigger] node[i])
    &&& node.last() is KeyMap
}

/// The group of value `v` under the path `p`: its fields are those of the
/// first row that reaches it, and it holds a map of children.
pub open spec fn node_ok(d: Data, names: Seq<i64>, assoc: bool, conds: Seq<Seq<int>>, rows: Seq<Seq<Data>>, p: Seq<i64>, v: i64) -> bool {
    let row = rows[first_row(names, assoc, conds, rows, p.push(v))->0];
    if assoc {
        match d {
            Data::KeyMap(node) => {
                &&& node_fields(node@, names, conds[p.len() as int], row)
                &&& node@[sub_key()] is KeyMap
            },
            _ => false,
        }
    } else {
        match d {
            Data::Vec(node) => list_fields(node@, names, conds[p.len() as int], row),
            _ => false,
        }
    }
}

/// The children of a group.
pub open spec fn sub_of(d: Data, assoc: bool) -> Map<i64, Data> {
    if assoc {
        match d {
            Data::KeyMap(node) => match node@[sub_key()] {
                Data::KeyMap(sub) => sub@,
                _ => Map::empty(),
            },
            _ => Map::empty(),
        }
    } else {
        match d {
            Data::Vec(node) => if node@.len() > 0 {
                match node@.last() {
                    Data::KeyMap(sub) => sub@,
                    _ => Map::empty(),
                }
            } else {
                Map::empty()
            },
            _ => Map::empty(),
        }
    }
}

/// The groups under the path `p`, by their values: one for each value by
/// which some row reaches a group there, with the fields of the first such
/// row and the groups below it (none at the last level).
pub open spec fn grouped(m: Map<i64, Data>, names: Seq<i64>, assoc: bool, conds: Seq<Seq<int>>, rows: Seq<Seq<Data>>, p: Seq<i64>) -> bool
    decreases conds.len() - p.len(),
{
    forall|v: i64| #![trigger m.contains_key(v)] #![trigger first_row(names, assoc, conds, rows, p.push(v))]
        (m.contains_key(v) == first_row(names, assoc, conds, rows, p.push(v)) is Some) && (m.contains_key(v)
            ==> node_ok(m[v], names, assoc, conds, rows, p, v) && if p.len() + 1 < conds.len() {
            grouped(sub_of(m[v], assoc), names, assoc, conds, rows, p.push(v))
        } else {
            sub_of(m[v], assoc) == Map::<i64, Data>::empty()
        })
}

proof fn lemma_first_row_push(names: Seq<i64>, assoc: bool, conds: Seq<Seq<int>>, rows: Seq<Seq<Data>>, row: Seq<Data>, q: Seq<i64>)
    ensures
        first_row(names, assoc, conds, rows.push(row), q) == match first_row(names, assoc, conds, rows, q) {
            Some(i) => Some(i),
            None => if reaches(names, assoc, conds, row, q) {
                Some(rows.len() as int)
            } else {
                None
            },
        },
{
    assert(rows.push(row).drop_last() =~= rows);
}

proof fn lemma_first_row_bound(names: Seq<i64>, assoc: bool, conds: Seq<Seq<int>>, rows: Seq<Seq<Data>>, q: Seq<i64>)
    ensures
        first_row(names, assoc, conds, rows, q) matches Some(i) ==> 0 <= i < rows.len() && reaches(
            names,
            assoc,
            conds,
            rows[i],
            q,
        ),
    decreases rows.len(),
{
    if rows.len() > 0 {
        lemma_first_row_bound(names, assoc, conds, rows.drop_last(), q);
    }
}

proof fn lemma_reaches_prefix(names: Seq<i64>, assoc: bool, conds: Seq<Seq<int>>, row: Seq<Data>, q: Seq<i64>, w: i64)
    ensures
        reaches(names, assoc, conds, row, q.push(w)) ==> reaches(names, assoc, conds, row, q),
{
    assert(q.push(w).drop_last() =~= q);
}

proof fn lemma_no_first_extends(names: Seq<i64>, assoc: bool, conds: Seq<Seq<int>>, rows: Seq<Seq<Data>>, q: Seq<i64>, w: i64)
    requires
        first_row(names, assoc, conds, rows, q) is None,
    ensures
        first_row(names, assoc, conds, rows, q.push(w)) is None,
    decreases rows.len(),
{
    if rows.len() > 0 {
        lemma_no_first_extends(names, assoc, conds, rows.drop_last(), q, w);
        lemma_reaches_prefix(names, assoc, conds, rows.last(), q, w);
    }
}

proof fn lemma_grouped_empty(names: Seq<i64>, assoc: bool, conds: Seq<Seq<int>>, rows: Seq<Seq<Data>>, p: Seq<i64>)
    requires
        first_row(names, assoc, conds, rows, p) is None || p.len() >= conds.len(),
    ensures
        grouped(Map::<i64, Data>::empty(), names, assoc, conds, rows, p),
{
    assert forall|v: i64| first_row(names, assoc, conds, rows, p.push(v)) is None by {
        if first_row(names, assoc, conds, rows, p) is None {
            lemma_no_first_extends(names, assoc, conds, rows, p, v);
        } else {
            lemma_first_row_bound(names, assoc, conds, rows, p.push(v));
            if first_row(names, assoc, conds, rows, p.push(v)) is Some {
                let i = first_row(names, assoc, conds, rows, p.push(v))->0;
                assert(p.push(v).drop_last() =~= p);
                assert(!reaches(names, assoc, conds, rows[i], p.push(v)));
            }
        }
    }
}

proof fn lemma_frame(m: Map<i64, Data>, names: Seq<i64>, assoc: bool, conds: Seq<Seq<int>>, rows: Seq<Seq<Data>>, row: Seq<Data>, p: Seq<i64>)
    requires
        grouped(m, names, assoc, conds, rows, p),
        forall|v: i64| !#[trigger] reaches(names, assoc, conds, row, p.push(v)),
    ensures
        grouped(m, names, assoc, conds, rows.push(row), p),
    decreases conds.len() - p.len(),
{
    let r2 = rows.push(row);
    assert forall|v: i64| #![trigger m.contains_key(v)] #![trigger first_row(names, assoc, conds, r2, p.push(v))]
        (m.contains_key(v) == first_row(names, assoc, conds, r2, p.push(v)) is Some) && (m.contains_key(v)
            ==> node_ok(m[v], names, assoc, conds, r2, p, v) && if p.len() + 1 < conds.len() {
            grouped(sub_of(m[v], assoc), names, assoc, conds, r2, p.push(v))
        } else {
            sub_of(m[v], assoc) == Map::<i64, Data>::empty()
        }) by {
        assert(!reaches(names, assoc, conds, row, p.push(v)));
        lemma_first_row_push(names, assoc, conds, rows, row, p.push(v));
        assert(m.contains_key(v) == first_row(names, assoc, conds, rows, p.push(v)) is Some);
        if m.contains_key(v) {
            let i = first_row(names, assoc, conds, rows, p.push(v))->0;
            lemma_first_row_bound(names, assoc, conds, rows, p.push(v));
            assert(r2[i] == rows[i]);
            assert(node_ok(m[v], names, assoc, conds, rows, p, v));
            if p.len() + 1 < conds.len() {
                assert forall|w: i64| !#[trigger] reaches(names, assoc, conds, row, p.push(v).push(w)) by {
                    lemma_reaches_prefix(names, assoc, conds, row, p.push(v), w);
                }
                lemma_frame(sub_of(m[v], assoc), names, assoc, conds, rows, row, p.push(v));
            }
        }
    }
}

/// The grouping keys by column name (their hashes).
pub open spec fn conds_view(conds: Seq<Vec<i64>>) -> Seq<Seq<int>> {
    conds.map_values(|c: Vec<i64>| c@.map_values(|x: i64| x as int))
}

/// The grouping keys by column index.
pub open spec fn index_conds_view(conds: Seq<Vec<usize>>) -> Seq<Seq<int>> {
    conds.map_values(|c: Vec<usize>| c@.map_values(|x: usize| x as int))
}

/// The views of the rows.
pub open spec fn rows_view(rows: Seq<Vec<Data>>) -> Seq<Seq<Data>> {
    rows.map_values(|r: Vec<Data>| r@)
}

fn level_ok_exec(names: &Vec<i64>, cs: &Vec<i64>) -> (res: bool)
    ensures
        res == level_ok(names@, true, cs@.map_values(|x: i64| x as int)),
{
    let ghost cv = cs@.map_values(|x: i64| x as int);
    if cs.len() == 0 {
        return false;
    }
    let mut i: usize = 0;
    while i < cs.len()
        invariant
            i <= cs@.len(),
            cv == cs@.map_values(|x: i64| x as int),
            forall|j: int| 0 <= j < i ==> #[trigger] col_of(names@, true, cv[j]) is Some,
        decreases cs@.len() - i,
    {
        if cs[i] == 0 {
            assert(col_of(names@, true, cv[i as int]) is None);
            return false;
        }
        match find_col(names, cs[i]) {
            Some(_) => {},
            None => {
                assert(col_of(names@, true, cv[i as int]) is None);
                return false;
            },
        }
        i = i + 1;
    }
    true
}

fn level_ok_index_exec(n: usize, cs: &Vec<usize>, Ghost(names): Ghost<Seq<i64>>) -> (res: bool)
    requires
        n == names.len(),
    ensures
        res == level_ok(names, false, cs@.map_values(|x: usize| x as int)),
{
    let ghost cv = cs@.map_values(|x: usize| x as int);
    if cs.len() == 0 {
        return false;
    }
    let mut i: usize = 0;
    while i < cs.len()
        invariant
            i <= cs@.len(),
            n == names.len(),
            cv == cs@.map_values(|x: usize| x as int),
            forall|j: int| 0 <= j < i ==> #[trigger] col_of(names, false, cv[j]) is Some,
        decreases cs@.len() - i,
    {
        if cs[i] >= n {
            assert(col_of(names, false, cv[i as int]) is None);
            return false;
        }
        i = i + 1;
    }
    true
}

fn key_value_exec(names: &Vec<i64>, cs: &Vec<i64>, row: &Vec<Data>) -> (res: Option<i64>)
    requires
        row@.len() == names@.len(),
    ensures
        res == key_value(names@, true, cs@.map_values(|x: i64| x as int), row@),
{
    let ghost cv = cs@.map_values(|x: i64| x as int);
    if cs.len() == 0 {
        return None;
    }
    if cs[0] == 0 {
        return None;
    }
    proof {
        lemma_last_col(names@, cs@[0]);
    }
    match find_col(names, cs[0]) {
        Some(c) => match &row[c] {
            Data::I64(v) => Some(*v),
            _ => None,
        },
        None => None,
    }
}

fn key_value_index_exec(cs: &Vec<usize>, row: &Vec<Data>, Ghost(names): Ghost<Seq<i64>>) -> (res: Option<i64>)
    requires
        row@.len() == names.len(),
    ensures
        res == key_value(names, false, cs@.map_values(|x: usize| x as int), row@),
{
    if cs.len() == 0 {
        return None;
    }
    if cs[0] >= row.len() {
        return None;
    }
    match &row[cs[0]] {
        Data::I64(v) => Some(*v),
        _ => None,
    }
}

/// A new group made from a row at a level, as a map: a copy of the row's
/// value for each key of the level, and no children.
fn make_node(names: &Vec<i64>, cs: &Vec<i64>, row: &Vec<Data>, sk: i64) -> (res: BTreeMap<i64, Data>)
    requires
        row@.len() == names@.len(),
        forall|c: int| 0 <= c < row@.len() ==> is_cell(#[trigger] row@[c]),
        level_ok(names@, true, cs@.map_values(|x: i64| x as int)),
        sk == sub_key(),
    ensures
        node_fields(res@, names@, cs@.map_values(|x: i64| x as int), row@),
        sub_of(Data::KeyMap(res), true) == Map::<i64, Data>::empty(),
        res@[sub_key()] is KeyMap,
{
    let ghost cv = cs@.map_values(|x: i64| x as int);
    let mut node: BTreeMap<i64, Data> = BTreeMap::new();
    let mut i: usize = 0;
    while i < cs.len()
        invariant
            i <= cs@.len(),
            cv == cs@.map_values(|x: i64| x as int),
            row@.len() == names@.len(),
            forall|c: int| 0 <= c < row@.len() ==> is_cell(#[trigger] row@[c]),
            level_ok(names@, true, cv),
            forall|k: i64| #[trigger] node@.contains_key(k) == cs@.subrange(0, i as int).contains(k),
            forall|k: i64| #[trigger] node@.contains_key(k) ==> copy_of(row@[col_of(names@, true, k as int)->0], node@[k]),
        decreases cs@.len() - i,
    {
        let k = cs[i];
        assert(col_of(names@, true, cv[i as int]) is Some);
        proof {
            lemma_last_col(names@, k);
        }
        let c = find_col(names, k).unwrap();
        let d = copy_cell(&row[c]);
        let ghost before = node@;
        node.insert(k, d);
        assert(node@ == before.insert(k, d));
        assert forall|k2: i64| #[trigger] node@.contains_key(k2) implies copy_of(row@[col_of(names@, true, k2 as int)->0], node@[k2]) by {
            if k2 != k {
                assert(before.contains_key(k2));
            }
        }
        assert(cs@.subrange(0, i + 1) =~= cs@.subrange(0, i as int).push(k));
        assert forall|k2: i64| #[trigger] node@.contains_key(k2) == cs@.subrange(0, i + 1).contains(k2) by {
            vstd::seq_lib::lemma_seq_contains_after_push(cs@.subrange(0, i as int), k, k2);
        }
        i = i + 1;
    }
    assert(cs@.subrange(0, cs@.len() as int) =~= cs@);
    let ghost fields = node@;
    node.insert(sk, Data::KeyMap(BTreeMap::new()));
    assert forall|k: i64| #[trigger] cs@.contains(k) == cv.contains(k as int) by {
        if cs@.contains(k) {
            let j = choose|j: int| 0 <= j < cs@.len() && cs@[j] == k;
            assert(cv[j] == k as int);
        }
        if cv.contains(k as int) {
            let j = choose|j: int| 0 <= j < cv.len() && cv[j] == k as int;
            assert(cs@[j] == k);
        }
    }
    assert forall|k: i64| k != sub_key() && #[trigger] cv.contains(k as int) implies copy_of(
        row@[col_of(names@, true, k as int)->0],
        node@[k],
    ) by {
        assert(cs@.contains(k));
        assert(fields.contains_key(k));
    }
    assert forall|k: i64| #[trigger] node@.contains_key(k) == (k == sub_key() || cv.contains(k as int)) by {
        assert(cs@.contains(k) == cv.contains(k as int));
    }
    node
}

/// A new group made from a row at a level, as a list: a copy of the row's
/// value in the column of each key of the level, then no children.
fn make_list_node(cs: &Vec<usize>, row: &Vec<Data>, Ghost(names): Ghost<Seq<i64>>) -> (res: Vec<Data>)
    requires
        row@.len() == names.len(),
        forall|c: int| 0 <= c < row@.len() ==> is_cell(#[trigger] row@[c]),
        level_ok(names, false, cs@.map_values(|x: usize| x as int)),
    ensures
        list_fields(res@, names, cs@.map_values(|x: usize| x as int), row@),
        sub_of(Data::Vec(res), false) == Map::<i64, Data>::empty(),
{
    let ghost cv = cs@.map_values(|x: usize| x as int);
    let mut node: Vec<Data> = Vec::new();
    let mut i: usize = 0;
    while i < cs.len()
        invariant
            i <= cs@.len(),
            cv == cs@.map_values(|x: usize| x as int),
            row@.len() == names.len(),
            forall|c: int| 0 <= c < row@.len() ==> is_cell(#[trigger] row@[c]),
            level_ok(names, false, cv),
            node@.len() == i,
            forall|j: int| 0 <= j < i ==> copy_of(row@[col_of(names, false, cv[j])->0], #[trigger] node@[j]),
        decreases cs@.len() - i,
    {
        assert(col_of(names, false, cv[i as int]) is Some);
        let d = copy_cell(&row[cs[i]]);
        node.push(d);
        i = i + 1;
    }
    node.push(Data::KeyMap(BTreeMap::new()));
    node
}

/// What holds of every group under `p` after a row that reaches `p` added
/// itself to the group `v` (the only one it reaches) and nothing else changed.
proof fn lemma_after_insert(
    old_m: Map<i64, Data>,
    new_m: Map<i64, Data>,
    names: Seq<i64>,
    assoc: bool,
    conds: Seq<Seq<int>>,
    rows: Seq<Seq<Data>>,
    row: Seq<Data>,
    p: Seq<i64>,
    v: i64,
)
    requires
        grouped(old_m, names, assoc, conds, rows, p),
        reaches(names, assoc, conds, row, p.push(v)),
        forall|w: i64| w != v ==> (#[trigger] new_m.contains_key(w) == old_m.contains_key(w)) && (new_m.contains_key(w) ==> new_m[w] == old_m[w]),
        new_m.contains_key(v),
        node_ok(new_m[v], names, assoc, conds, rows.push(row), p, v),
        p.len() + 1 < conds.len() ==> grouped(sub_of(new_m[v], assoc), names, assoc, conds, rows.push(row), p.push(v)),
        p.len() + 1 >= conds.len() ==> sub_of(new_m[v], assoc) == Map::<i64, Data>::empty(),
    ensures
        grouped(new_m, names, assoc, conds, rows.push(row), p),
{
    let r2 = rows.push(row);
    assert forall|w: i64| #![trigger new_m.contains_key(w)] #![trigger first_row(names, assoc, conds, r2, p.push(w))]
        (new_m.contains_key(w) == first_row(names, assoc, conds, r2, p.push(w)) is Some) && (new_m.contains_key(w)
            ==> node_ok(new_m[w], names, assoc, conds, r2, p, w) && if p.len() + 1 < conds.len() {
            grouped(sub_of(new_m[w], assoc), names, assoc, conds, r2, p.push(w))
        } else {
            sub_of(new_m[w], assoc) == Map::<i64, Data>::empty()
        }) by {
        lemma_first_row_push(names, assoc, conds, rows, row, p.push(w));
        if w != v {
            assert(p.push(w).drop_last() =~= p);
            assert(p.push(v).drop_last() =~= p);
            assert(!reaches(names, assoc, conds, row, p.push(w)));
            assert(new_m.contains_key(w) == old_m.contains_key(w));
            if new_m.contains_key(w) {
                assert(new_m[w] == old_m[w]);
                let i = first_row(names, assoc, conds, rows, p.push(w))->0;
                lemma_first_row_bound(names, assoc, conds, rows, p.push(w));
                assert(r2[i] == rows[i]);
                assert(node_ok(old_m[w], names, assoc, conds, rows, p, w));
                if p.len() + 1 < conds.len() {
                    assert forall|u: i64| !#[trigger] reaches(names, assoc, conds, row, p.push(w).push(u)) by {
                        lemma_reaches_prefix(names, assoc, conds, row, p.push(w), u);
                    }
                    lemma_frame(sub_of(old_m[w], assoc), names, assoc, conds, rows, row, p.push(w));
                }
            }
        }
    }
}

/// Adds a row to the groups under the path `p` (at level `j`), which the
/// row reaches; groups are maps.
fn insert_row(
    m: &mut BTreeMap<i64, Data>,
    names: &Vec<i64>,
    conds: &Vec<Vec<i64>>,
    row: &Vec<Data>,
    j: usize,
    sk: i64,
    Ghost(rows): Ghost<Seq<Seq<Data>>>,
    Ghost(p): Ghost<Seq<i64>>,
)
    requires
        p.len() == j,
        j <= conds@.len(),
        sk == sub_key(),
        row@.len() == names@.len(),
        forall|c: int| 0 <= c < row@.len() ==> is_cell(#[trigger] row@[c]),
        reaches(names@, true, conds_view(conds@), row@, p),
        grouped(old(m)@, names@, true, conds_view(conds@), rows, p),
    ensures
        grouped(final(m)@, names@, true, conds_view(conds@), rows.push(row@), p),
        j >= conds@.len() ==> final(m)@ == old(m)@,
    decreases conds@.len() - j,
{
    let ghost cv = conds_view(conds@);
    if j >= conds.len() {
        proof {
            assert forall|v: i64| !#[trigger] reaches(names@, true, cv, row@, p.push(v)) by {
                assert(p.push(v).len() - 1 == j);
            }
            lemma_frame(m@, names@, true, cv, rows, row@, p);
        }
        return;
    }
    assert(cv[j as int] == conds@[j as int]@.map_values(|x: i64| x as int));
    if !level_ok_exec(names, &conds[j]) {
        proof {
            assert forall|v: i64| !#[trigger] reaches(names@, true, cv, row@, p.push(v)) by {
                assert(p.push(v).drop_last() =~= p);
            }
            lemma_frame(m@, names@, true, cv, rows, row@, p);
        }
        return;
    }
    let v = match key_value_exec(names, &conds[j], row) {
        Some(v) => v,
        None => {
            proof {
                assert forall|w: i64| !#[trigger] reaches(names@, true, cv, row@, p.push(w)) by {
                    assert(p.push(w).drop_last() =~= p);
                }
                lemma_frame(m@, names@, true, cv, rows, row@, p);
            }
            return;
        },
    };
    let ghost q = p.push(v);
    let ghost r2 = rows.push(row@);
    let ghost old_m = m@;
    assert(q.drop_last() =~= p);
    assert(reaches(names@, true, cv, row@, q));
    proof {
        lemma_first_row_push(names@, true, cv, rows, row@, q);
        lemma_first_row_bound(names@, true, cv, rows, q);
    }
    let existed = m.contains_key(&v);
    let mut node: BTreeMap<i64, Data> = match m.remove(&v) {
        Some(Data::KeyMap(n)) => n,
        _ => make_node(names, &conds[j], row, sk),
    };
    let mut sub: BTreeMap<i64, Data> = match node.remove(&sk) {
        Some(Data::KeyMap(t)) => t,
        _ => BTreeMap::new(),
    };
    proof {
        if existed {
            assert(sub@ == sub_of(old_m[v], true));
            if j + 1 >= conds@.len() {
                lemma_grouped_empty(names@, true, cv, rows, q);
            }
        } else {
            assert(first_row(names@, true, cv, rows, q) is None);
            assert(sub@ == Map::<i64, Data>::empty());
            lemma_grouped_empty(names@, true, cv, rows, q);
        }
    }
    insert_row(&mut sub, names, conds, row, j + 1, sk, Ghost(rows), Ghost(q));
    let ghost fields = node@;
    node.insert(sk, Data::KeyMap(sub));
    m.insert(v, Data::KeyMap(node));
    proof {
        let i = first_row(names@, true, cv, r2, q)->0;
        if existed {
            assert(r2[i] == rows[i]);
        } else {
            assert(r2[i] == row@);
        }
        assert(node@ == fields.insert(sub_key(), Data::KeyMap(sub)));
        assert(sub_of(m@[v], true) == sub@);
        assert(node_ok(m@[v], names@, true, cv, r2, p, v));
        lemma_after_insert(old_m, m@, names@, true, cv, rows, row@, p, v);
    }
}

/// Adds a row to the groups under the path `p` (at level `j`), which the
/// row reaches; groups are lists.
fn insert_row_list(
    m: &mut BTreeMap<i64, Data>,
    conds: &Vec<Vec<usize>>,
    row: &Vec<Data>,
    j: usize,
    Ghost(names): Ghost<Seq<i64>>,
    Ghost(rows): Ghost<Seq<Seq<Data>>>,
    Ghost(p): Ghost<Seq<i64>>,
)
    requires
        p.len() == j,
        j <= conds@.len(),
        row@.len() == names.len(),
        forall|c: int| 0 <= c < row@.len() ==> is_cell(#[trigger] row@[c]),
        reaches(names, false, index_conds_view(conds@), row@, p),
        grouped(old(m)@, names, false, index_conds_view(conds@), rows, p),
    ensures
        grouped(final(m)@, names, false, index_conds_view(conds@), rows.push(row@), p),
        j >= conds@.len() ==> final(m)@ == old(m)@,
    decreases conds@.len() - j,
{
    let ghost cv = index_conds_view(conds@);
    if j >= conds.len() {
        proof {
            assert forall|v: i64| !#[trigger] reaches(names, false, cv, row@, p.push(v)) by {
                assert(p.push(v).len() - 1 == j);
            }
            lemma_frame(m@, names, false, cv, rows, row@, p);
        }
        return;
    }
    assert(cv[j as int] == conds@[j as int]@.map_values(|x: usize| x as int));
    if !level_ok_index_exec(row.len(), &conds[j], Ghost(names)) {
        proof {
            assert forall|v: i64| !#[trigger] reaches(names, false, cv, row@, p.push(v)) by {
                assert(p.push(v).drop_last() =~= p);
            }
            lemma_frame(m@, names, false, cv, rows, row@, p);
        }
        return;
    }
    let v = match key_value_index_exec(&conds[j], row, Ghost(names)) {
        Some(v) => v,
        None => {
            proof {
                assert forall|w: i64| !#[trigger] reaches(names, false, cv, row@, p.push(w)) by {
                    assert(p.push(w).drop_last() =~= p);
                }
                lemma_frame(m@, names, false, cv, rows, row@, p);
            }
            return;
        },
    };
    let ghost q = p.push(v);
    let ghost r2 = rows.push(row@);
    let ghost old_m = m@;
    assert(q.drop_last() =~= p);
    assert(reaches(names, false, cv, row@, q));
    proof {
        lemma_first_row_push(names, false, cv, rows, row@, q);
        lemma_first_row_bound(names, false, cv, rows, q);
    }
    let existed = m.contains_key(&v);
    let mut node: Vec<Data> = match m.remove(&v) {
        Some(Data::Vec(n)) => n,
        _ => make_list_node(&conds[j], row, Ghost(names)),
    };
    let ghost full = node@;
    let mut sub: BTreeMap<i64, Data> = match node.pop() {
        Some(Data::KeyMap(t)) => t,
        _ => BTreeMap::new(),
    };
    proof {
        if existed {
            assert(sub@ == sub_of(old_m[v], false));
            if j + 1 >= conds@.len() {
                lemma_grouped_empty(names, false, cv, rows, q);
            }
        } else {
            assert(first_row(names, false, cv, rows, q) is None);
            assert(sub@ == Map::<i64, Data>::empty());
            lemma_grouped_empty(names, false, cv, rows, q);
        }
    }
    insert_row_list(&mut sub, conds, row, j + 1, Ghost(names), Ghost(rows), Ghost(q));
    node.push(Data::KeyMap(sub));
    m.insert(v, Data::Vec(node));
    proof {
        let i = first_row(names, false, cv, r2, q)->0;
        if existed {
            assert(r2[i] == rows[i]);
        } else {
            assert(r2[i] == row@);
        }
        assert(node@ =~= full.drop_last().push(Data::KeyMap(sub)));
        assert forall|k: int| 0 <= k < cv[j as int].len() implies #[trigger] node@[k] == full[k] by {}
        assert(sub_of(m@[v], false) == sub@);
        assert(node_ok(m@[v], names, false, cv, r2, p, v));
        lemma_after_insert(old_m, m@, names, false, cv, rows, row@, p, v);
    }
}

/// Groups the rows of a query answer, each with one value per column, by
/// grouping keys, level by level (see `grouped`): under each value of a
/// level's first key, a group with the fields of the first row of that
/// value and the groups of the next level. With `assoc` the keys are
/// column names (by hash) and a group is a map holding its children under
/// `sub`; else the keys are column indices and a group is a list ending
/// with its children. A row stops at a level whose keys do not all name
/// columns, or where its first key's value is not a 64-bit integer. No keys
/// give `None`.
pub fn group(names: &Vec<i64>, rows: &Vec<Vec<Data>>, conds: &Vec<Vec<i64>>) -> (res: Option<Data>)
    requires
        forall|i: int| 0 <= i < rows@.len() ==> #[trigger] rows@[i]@.len() == names@.len(),
        forall|i: int, c: int| 0 <= i < rows@.len() && 0 <= c < rows@[i]@.len() ==> is_cell(#[trigger] rows@[i]@[c]),
    ensures
        conds@.len() == 0 ==> res is None,
        conds@.len() > 0 ==> (res matches Some(Data::KeyMap(m)) && grouped(
            m@,
            names@,
            true,
            conds_view(conds@),
            rows_view(rows@),
            Seq::empty(),
        )),
{
    if conds.len() == 0 {
        return None;
    }
    let ghost cv = conds_view(conds@);
    let ghost rv = rows_view(rows@);
    let sk = sub_key_exec();
    let mut m: BTreeMap<i64, Data> = BTreeMap::new();
    proof {
        assert(rv.subrange(0, 0) =~= Seq::<Seq<Data>>::empty());
        lemma_grouped_empty(names@, true, cv, rv.subrange(0, 0), Seq::empty());
    }
    let mut i: usize = 0;
    while i < rows.len()
        invariant
            i <= rows@.len(),
            rv == rows_view(rows@),
            cv == conds_view(conds@),
            sk == sub_key(),
            forall|i: int| 0 <= i < rows@.len() ==> #[trigger] rows@[i]@.len() == names@.len(),
            forall|i: int, c: int| 0 <= i < rows@.len() && 0 <= c < rows@[i]@.len() ==> is_cell(#[trigger] rows@[i]@[c]),
            grouped(m@, names@, true, cv, rv.subrange(0, i as int), Seq::empty()),
        decreases rows@.len() - i,
    {
        assert(rows@[i as int]@.len() == names@.len());
        assert(reaches(names@, true, cv, rows@[i as int]@, Seq::<i64>::empty()));
        insert_row(&mut m, names, conds, &rows[i], 0, sk, Ghost(rv.subrange(0, i as int)), Ghost(Seq::empty()));
        assert(rv.subrange(0, i as int).push(rows@[i as int]@) =~= rv.subrange(0, i + 1));
        i = i + 1;
    }
    assert(rv.subrange(0, rows@.len() as int) =~= rv);
    Some(Data::KeyMap(m))
}

/// `group` with the keys given as column indices: groups are lists (see
/// `group`). An index out of the columns names none.
pub fn group_list(names: &Vec<i64>, rows: &Vec<Vec<Data>>, conds: &Vec<Vec<usize>>) -> (res: Option<Data>)
    requires
        forall|i: int| 0 <= i < rows@.len() ==> #[trigger] rows@[i]@.len() == names@.len(),
        forall|i: int, c: int| 0 <= i < rows@.len() && 0 <= c < rows@[i]@.len() ==> is_cell(#[trigger] rows@[i]@[c]),
    ensures
        conds@.len() == 0 ==> res is None,
        conds@.len() > 0 ==> (res matches Some(Data::KeyMap(m)) && grouped(
            m@,
            names@,
            false,
            index_conds_view(conds@),
            rows_view(rows@),
            Seq::empty(),
        )),
{
    if conds.len() == 0 {
        return None;
    }
    let ghost cv = index_conds_view(conds@);
    let ghost rv = rows_view(rows@);
    let mut m: BTreeMap<i64, Data> = BTreeMap::new();
    proof {
        assert(rv.subrange(0, 0) =~= Seq::<Seq<Data>>::empty());
        lemma_grouped_empty(names@, false, cv, rv.subrange(0, 0), Seq::empty());
    }
    let mut i: usize = 0;
    while i < rows.len()
        invariant
            i <= rows@.len(),
            rv == rows_view(rows@),
            cv == index_conds_view(conds@),
            forall|i: int| 0 <= i < rows@.len() ==> #[trigger] rows@[i]@.len() == names@.len(),
            forall|i: int, c: int| 0 <= i < rows@.len() && 0 <= c < rows@[i]@.len() ==> is_cell(#[trigger] rows@[i]@[c]),
            grouped(m@, names@, false, cv, rv.subrange(0, i as int), Seq::empty()),
        decreases rows@.len() - i,
    {
        assert(rows@[i as int]@.len() == names@.len());
        assert(reaches(names@, false, cv, rows@[i as int]@, Seq::<i64>::empty()));
        insert_row_list(&mut m, conds, &rows[i], 0, Ghost(names@), Ghost(rv.subrange(0, i as int)), Ghost(Seq::empty()));
        assert(rv.subrange(0, i as int).push(rows@[i as int]@) =~= rv.subrange(0, i + 1));
        i = i + 1;
    }
    assert(rv.subrange(0, rows@.len() as int) =~= rv);
    Some(Data::KeyMap(m))
}


/// Every row whose value under the first level's first key is a 64-bit
/// integer `v` (the level's keys all naming columns) has a group under `v`
/// at the top, made from the first row with that value.
pub proof fn law_group_of_row(m: Map<i64, Data>, names: Seq<i64>, assoc: bool, conds: Seq<Seq<int>>, rows: Seq<Seq<Data>>, r: int, v: i64)
    requires
        grouped(m, names, assoc, conds, rows, Seq::empty()),
        0 <= r < rows.len(),
        conds.len() > 0,
        level_ok(names, assoc, conds[0]),
        key_value(names, assoc, conds[0], rows[r]) == Some(v),
    ensures
        m.contains_key(v),
        first_row(names, assoc, conds, rows, seq![v]) matches Some(f) && f <= r && key_value(
            names,
            assoc,
            conds[0],
            rows[f],
        ) == Some(v),
        node_ok(m[v], names, assoc, conds, rows, Seq::empty(), v),
{
    assert(Seq::<i64>::empty().push(v) =~= seq![v]);
    assert(seq![v].drop_last() =~= Seq::<i64>::empty());
    assert(seq![v].len() == 1 && seq![v].last() == v);
    assert(reaches(names, assoc, conds, rows[r], Seq::<i64>::empty()));
    assert(reaches(names, assoc, conds, rows[r], seq![v]));
    lemma_first_row_upto(names, assoc, conds, rows, seq![v], r);
    lemma_first_row_bound(names, assoc, conds, rows, seq![v]);
    assert(m.contains_key(v) == first_row(names, assoc, conds, rows, Seq::<i64>::empty().push(v)) is Some);
}

proof fn lemma_first_row_upto(names: Seq<i64>, assoc: bool, conds: Seq<Seq<int>>, rows: Seq<Seq<Data>>, q: Seq<i64>, r: int)
    requires
        0 <= r < rows.len(),
        reaches(names, assoc, conds, rows[r], q),
    ensures
        first_row(names, assoc, conds, rows, q) matches Some(f) && f <= r,
    decreases rows.len(),
{
    if r < rows.len() - 1 {
        assert(rows.drop_last()[r] == rows[r]);
        lemma_first_row_upto(names, assoc, conds, rows.drop_last(), q, r);
    } else {
        lemma_first_row_bound(names, assoc, conds, rows.drop_last(), q);
    }
}

} // verus!
