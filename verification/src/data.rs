//! Values passed between controllers, templates, the cache and the database.

use std::collections::BTreeMap;
use vstd::prelude::*;

use crate::action::Route;
use crate::response::Redirect;

verus! {

/// Data transferred between controllers, templates, markers, database and cache.
///
/// Floating-point values are carried by their IEEE-754 bit patterns and a date
/// by its Unix timestamp in seconds (UTC); a JSON value by its text.
#[derive(Debug)]
pub enum Data {
    /// No data transferred.
    Nothing,
    /// usize data.
    Usize(usize),
    /// i16 data.
    I16(i16),
    /// i32 data.
    I32(i32),
    /// i64 data.
    I64(i64),
    /// f32 data, by its bit pattern.
    F32(u32),
    /// f64 data, by its bit pattern.
    F64(u64),
    /// bool data.
    Bool(bool),
    /// String data.
    String(String),
    /// Date and time (UTC), as a Unix timestamp in seconds.
    Date(i64),
    /// JSON text.
    Json(String),
    /// List of `Data`.
    Vec(Vec<Data>),
    /// Raw data.
    Raw(Vec<u8>),
    /// Map of `Data`.
    KeyMap(BTreeMap<i64, Data>),
    /// Route data.
    Route(Route),
    /// Redirect data.
    Redirect(Redirect),
}

} // verus!
