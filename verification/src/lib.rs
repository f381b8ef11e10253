use vstd::prelude::*;

pub mod corpus;
pub mod cst;
pub mod mutate;
pub mod output;
pub mod random;
pub mod text;

verus! {

/// The ways a mutation run can fail: a mode selector outside the four
/// known strategies, a zero mutation count handed to a strategy that
/// needs a positive bound, or a source text the parser rejects.
#[derive(Clone, Copy, Debug, PartialEq, Eq, Structural)]
pub enum MutationError {
    InvalidMode,
    ZeroMutationCount,
    ParseFailed,
}

} // verus!
