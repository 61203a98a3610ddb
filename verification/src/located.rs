//! A value together with the region of source text it was parsed from.

use crate::region::Region;
use vstd::prelude::*;
use vstd::std_specs::cmp::{PartialEqSpec, PartialEqSpecImpl};

verus! {

/// A parsed value and the region it covers. Two located values are equal
/// under `==` when their values are, wherever they sit; `strict_eq` also
/// compares the regions.
#[derive(Clone, Copy, Debug, Eq)]
pub struct Located<T> {
    pub value: T,
    pub region: Region,
}

impl<T: View> View for Located<T> {
    type V = Located<T::V>;

    /// The view of the value, in the same region.
    open spec fn view(&self) -> Located<T::V> {
        Located { value: self.value@, region: self.region }
    }
}

/// The views of a list of located values.
pub open spec fn located_views<T: View>(v: Seq<Located<T>>) -> Seq<Located<T::V>> {
    v.map_values(|x: Located<T>| x@)
}

impl<T> Located<T> {
    pub fn new(value: T, region: Region) -> (r: Located<T>)
        ensures
            r.value == value,
            r.region == region,
    {
        Located { value, region }
    }

    pub fn region(&self) -> (r: Region)
        ensures
            r == self.region,
    {
        self.region
    }

    pub fn as_inner(&self) -> (r: &T)
        ensures
            *r == self.value,
    {
        &self.value
    }

    pub fn into_inner(self) -> (r: T)
        ensures
            r == self.value,
    {
        self.value
    }

    /// The same region around a reference to the value.
    pub fn as_ref(&self) -> (r: Located<&T>)
        ensures
            *r.value == self.value,
            r.region == self.region,
    {
        Located { value: &self.value, region: self.region }
    }

    /// The value transformed by `f`, in the same region.
    pub fn map<U, F: FnOnce(T) -> U>(self, f: F) -> (r: Located<U>)
        requires
            f.requires((self.value,)),
        ensures
            f.ensures((self.value,), r.value),
            r.region == self.region,
    {
        Located { value: f(self.value), region: self.region }
    }

    /// Another value in the same region.
    pub fn replace<U>(self, value: U) -> (r: Located<U>)
        ensures
            r.value == value,
            r.region == self.region,
    {
        Located { value, region: self.region }
    }
}

impl<T: PartialEq> PartialEq for Located<T> {
    fn eq(&self, other: &Self) -> (r: bool)
    {
        self.value == other.value
    }
}

impl<T: PartialEq> PartialEqSpecImpl for Located<T> {
    open spec fn obeys_eq_spec() -> bool {
        T::obeys_eq_spec()
    }

    open spec fn eq_spec(&self, other: &Self) -> bool {
        self.value.eq_spec(&other.value)
    }
}

} // verus!
