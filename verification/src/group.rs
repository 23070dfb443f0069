//! Keys by which query rows are grouped.

use vstd::prelude::*;
use vstd::string::StringSliceAdditionalSpecFns;

use crate::{fnv1a_64, spec_fnv1a_64};

verus! {

/// A grouping key: a number, a name (by its hash) or a column index.
pub trait StrOrI64OrUSize {
    /// The number (a name's hash; 0 for an index).
    fn to_i64(&self) -> i64;
    /// The column index (always 0 for a number or a name).
    fn to_usize(&self) -> usize;
}

impl StrOrI64OrUSize for i64 {
    fn to_i64(&self) -> (res: i64)
        ensures
            res == *self,
    {
        *self
    }

    fn to_usize(&self) -> (res: usize)
        ensures
            res == 0,
    {
        0
    }
}

impl<'a> StrOrI64OrUSize for &'a str {
    fn to_i64(&self) -> (res: i64)
        ensures
            res == spec_fnv1a_64((**self).spec_bytes()),
    {
        fnv1a_64(self.as_bytes())
    }

    fn to_usize(&self) -> (res: usize)
        ensures
            res == 0,
    {
        0
    }
}

impl StrOrI64OrUSize for usize {
    fn to_i64(&self) -> (res: i64)
        ensures
            res == 0,
    {
        0
    }

    fn to_usize(&self) -> (res: usize)
        ensures
            res == *self,
    {
        *self
    }
}

} // verus!
