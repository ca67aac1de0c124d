//! Whether a scanned token is well formed.
use vstd::prelude::*;

verus! {

#[derive(PartialEq, Eq, Structural, Debug, Clone, Copy)]
pub enum Number {
    Valid,
    Invalid,
}

#[derive(PartialEq, Eq, Structural, Debug, Clone, Copy)]
pub enum String {
    Valid,
    NotTerminated,
}

#[derive(PartialEq, Eq, Structural, Debug, Clone, Copy)]
pub enum Comment {
    Valid,
    NotTerminated,
}

} // verus!
