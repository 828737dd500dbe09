//! Ownership-analysis vocabulary.
use vstd::prelude::*;

verus! {

/// A group of data definitions analysed together by the ownership pass.
#[derive(Debug)]
pub struct DataGroup {
}

} // verus!
