//! The evaluation-budget ledger.
//!
//! Every operation that may compute a fitness value reports how many new
//! (non-cached) fitness computations it performed, so that callers can
//! subtract the cost from a global search budget.

use vstd::prelude::*;

verus! {

/// A result value paired with the number of fitness evaluations its
/// computation consumed.
pub struct FitnessEvaluationResult<T> {
    result: T,
    iterations_consumed: u32,
}

impl<T> FitnessEvaluationResult<T> {
    /// The value carried by the ledger entry.
    pub closed spec fn spec_result(&self) -> T {
        self.result
    }

    /// The evaluation cost carried by the ledger entry.
    pub closed spec fn spec_consumed(&self) -> u32 {
        self.iterations_consumed
    }

    pub fn new(result: T, iterations_consumed: u32) -> (r: Self)
        ensures
            r.spec_result() == result,
            r.spec_consumed() == iterations_consumed,
    {
        return Self { result, iterations_consumed };
    }

    pub fn get_result(&self) -> (r: &T)
        ensures
            r == self.spec_result(),
    {
        return &self.result;
    }

    pub fn get_iterations_consumed(&self) -> (r: u32)
        ensures
            r == self.spec_consumed(),
    {
        return self.iterations_consumed;
    }

    pub fn get_mut_result(&mut self) -> (r: &mut T)
        ensures
            *r == old(self).spec_result(),
            final(self).spec_result() == *final(r),
            final(self).spec_consumed() == old(self).spec_consumed(),
    {
        return &mut self.result;
    }

    pub fn get_mut_iterations_consumed(&mut self) -> (r: u32)
        ensures
            r == old(self).spec_consumed(),
            *final(self) == *old(self),
    {
        return self.iterations_consumed;
    }

    /// Splits the pair into the value and its cost.
    pub fn into_parts(self) -> (r: (T, u32))
        ensures
            r.0 == self.spec_result(),
            r.1 == self.spec_consumed(),
    {
        let Self { result, iterations_consumed } = self;
        return (result, iterations_consumed);
    }
}

} // verus!
