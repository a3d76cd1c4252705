//! Relation wrapper that distinguishes "not loaded" from "loaded and empty".
use vstd::prelude::*;

verus! {

/// A relation field that may or may not have been loaded.
#[derive(Debug, Clone, PartialEq)]
pub enum Related<T> {
    /// Not requested in this query. Reading it is a programmer error.
    Absent,
    /// Loaded value.
    Loaded(T),
}

impl<T> Related<T> {
    /// The unloaded relation.
    pub fn absent() -> (r: Self)
        ensures
            r is Absent,
    {
        Related::Absent
    }

    /// Returns `true` if the relation was not loaded.
    pub fn is_absent(&self) -> (r: bool)
        ensures
            r == (*self is Absent),
    {
        matches!(self, Related::Absent)
    }

    /// Returns `true` if the relation was loaded.
    pub fn is_loaded(&self) -> (r: bool)
        ensures
            r == (*self is Loaded),
    {
        !self.is_absent()
    }

    /// Returns a reference to the loaded value; the relation must be loaded.
    pub fn get(&self) -> (r: &T)
        requires
            *self is Loaded,
        ensures
            *r == self->Loaded_0,
    {
        match self {
            Related::Loaded(v) => v,
            Related::Absent => unreached(),
        }
    }

    /// Returns the loaded value, if any.
    pub fn try_get(&self) -> (r: Option<&T>)
        ensures
            match *self {
                Related::Loaded(v) => r == Some(&v),
                Related::Absent => r is None,
            },
    {
        match self {
            Related::Loaded(v) => Some(v),
            Related::Absent => None,
        }
    }
}

impl<T> Default for Related<T> {
    fn default() -> (r: Self)
        ensures
            r is Absent,
    {
        Related::Absent
    }
}

} // verus!
