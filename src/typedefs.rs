//! The word types of the C interface and the verdicts a callback returns.
#![allow(non_camel_case_types)]
use vstd::prelude::*;

verus! {

/// A key or value word.
pub type st_data_t = usize;

/// A rank, count or size word.
pub type st_index_t = usize;

/// A hash word.
pub type st_hash_t = usize;

/// What a traversal or update callback asks for.
#[derive(Clone, Copy, Debug, PartialEq, Eq, Hash, Structural)]
pub enum st_retval {
    /// Go on.
    ST_CONTINUE,
    /// Stop at once.
    ST_STOP,
    /// Delete the current entry, then go on.
    ST_DELETE,
    /// Go on, as with `ST_CONTINUE`.
    ST_CHECK,
}

/// The verdict a callback's integer result stands for.
pub open spec fn spec_retval_of(code: i32) -> Option<st_retval> {
    if code == 0 {
        Some(st_retval::ST_CONTINUE)
    } else if code == 1 {
        Some(st_retval::ST_STOP)
    } else if code == 2 {
        Some(st_retval::ST_DELETE)
    } else if code == 3 {
        Some(st_retval::ST_CHECK)
    } else {
        None
    }
}

impl st_retval {
    /// The integer a callback returns for this verdict.
    pub fn code(self) -> (r: i32)
        ensures
            spec_retval_of(r) == Some(self),
    {
        match self {
            st_retval::ST_CONTINUE => 0,
            st_retval::ST_STOP => 1,
            st_retval::ST_DELETE => 2,
            st_retval::ST_CHECK => 3,
        }
    }

    /// The verdict for a callback's integer result, if it is one.
    pub fn from_code(code: i32) -> (r: Option<st_retval>)
        ensures
            r == spec_retval_of(code),
    {
        if code == 0 {
            Some(st_retval::ST_CONTINUE)
        } else if code == 1 {
            Some(st_retval::ST_STOP)
        } else if code == 2 {
            Some(st_retval::ST_DELETE)
        } else if code == 3 {
            Some(st_retval::ST_CHECK)
        } else {
            None
        }
    }
}

} // verus!
