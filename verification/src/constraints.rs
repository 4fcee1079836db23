//! Symmetric pairwise constraints between data points.
//!
//! A constraint relates two distinct point indices and is either a must-link
//! (the points have to share a cluster) or a cannot-link (they must not).
//! Pairs are stored normalised as `(min, max)` and a pair holds at most one
//! relation; self-pairs are never stored.

use vstd::prelude::*;

verus! {

#[derive(Debug, Clone, Copy, PartialEq, Eq, Structural)]
pub enum ConstraintType {
    MustLink,
    CannotLink,
}

/// The pair `(a, b)` in ascending order.
pub open spec fn norm_pair(a: int, b: int) -> (int, int) {
    if a < b {
        (a, b)
    } else {
        (b, a)
    }
}

/// The set of pairwise constraints of one problem instance.
pub struct Constraints {
    data: Vec<(i32, i32, ConstraintType)>,
}

impl Constraints {
    /// The stored triples `(smaller index, larger index, relation)`.
    pub closed spec fn pairs(&self) -> Seq<(i32, i32, ConstraintType)> {
        self.data@
    }

    /// Well-formed: every pair ascending, no pair stored twice.
    pub open spec fn wf(&self) -> bool {
        &&& forall|i: int|
            0 <= i < self.pairs().len() ==> (#[trigger] self.pairs()[i]).0
                < self.pairs()[i].1
        &&& forall|i: int, j: int|
            0 <= i < self.pairs().len() && 0 <= j < self.pairs().len() && i != j
                ==> !((#[trigger] self.pairs()[i]).0 == (#[trigger] self.pairs()[j]).0
                && self.pairs()[i].1 == self.pairs()[j].1)
    }

    /// Some relation is stored between `a` and `b`, in either order.
    pub open spec fn spec_has(&self, a: int, b: int) -> bool {
        exists|i: int|
            0 <= i < self.pairs().len() && ((#[trigger] self.pairs()[i]).0 as int,
            self.pairs()[i].1 as int) == norm_pair(a, b)
    }

    /// The relation stored between `a` and `b`, if any.
    pub open spec fn spec_constraint(&self, a: int, b: int) -> Option<ConstraintType> {
        if self.spec_has(a, b) {
            let i = choose|i: int|
                0 <= i < self.pairs().len() && ((#[trigger] self.pairs()[i]).0 as int,
                self.pairs()[i].1 as int) == norm_pair(a, b);
            Some(self.pairs()[i].2)
        } else {
            None
        }
    }

    pub fn new() -> (r: Self)
        ensures
            r.wf(),
            r.pairs() =~= Seq::<(i32, i32, ConstraintType)>::empty(),
    {
        return Self { data: Vec::new() };
    }

    /// Number of stored constraints.
    pub fn len(&self) -> (r: usize)
        ensures
            r == self.pairs().len(),
    {
        return self.data.len();
    }

    fn order_pair(first: i32, second: i32) -> (r: (i32, i32))
        ensures
            (r.0 as int, r.1 as int) == norm_pair(first as int, second as int),
    {
        if first < second {
            return (first, second);
        } else {
            return (second, first);
        }
    }

    /// Stores a relation between two indices unless the indices are equal or
    /// some relation between them is already stored.
    pub fn add_constraint(&mut self, first_index: i32, second_index: i32, constraint_type: ConstraintType)
        requires
            old(self).wf(),
        ensures
            final(self).wf(),
            first_index == second_index ==> final(self).pairs() == old(self).pairs(),
            first_index != second_index && old(self).spec_has(first_index as int, second_index as int)
                ==> final(self).pairs() == old(self).pairs(),
            first_index != second_index && !old(self).spec_has(first_index as int, second_index as int)
                ==> {
                let p = norm_pair(first_index as int, second_index as int);
                final(self).pairs() =~= old(self).pairs().push((p.0 as i32, p.1 as i32, constraint_type))
            },
    {
        if first_index == second_index {
            return;
        }
        if self.has_element(first_index, second_index) == false {
            let (smaller, bigger) = Self::order_pair(first_index, second_index);
            self.data.push((smaller, bigger, constraint_type));
            proof {
                let oldp = old(self).pairs();
                assert(self.pairs() =~= oldp.push((smaller, bigger, constraint_type)));
                assert forall|i: int|
                    0 <= i < oldp.len() implies !((#[trigger] oldp[i]).0 == smaller && oldp[i].1
                    == bigger) by {
                    if oldp[i].0 == smaller && oldp[i].1 == bigger {
                        assert(old(self).spec_has(first_index as int, second_index as int));
                    }
                }
            }
        }
    }

    /// Whether some relation is stored between the two indices, in either order.
    pub fn has_element(&self, first_index: i32, second_index: i32) -> (r: bool)
        requires
            self.wf(),
        ensures
            r == self.spec_has(first_index as int, second_index as int),
    {
        let n = self.data.len();
        let mut i: usize = 0;
        while i < n
            invariant
                self.wf(),
                n == self.pairs().len(),
                i <= n,
                forall|j: int|
                    0 <= j < i ==> ((#[trigger] self.pairs()[j]).0 as int,
                    self.pairs()[j].1 as int) != norm_pair(
                        first_index as int,
                        second_index as int,
                    ),
            decreases n - i,
        {
            let entry = self.data[i];
            if (entry.0 == first_index && entry.1 == second_index) || (entry.0 == second_index
                && entry.1 == first_index) {
                return true;
            }
            i = i + 1;
        }
        return false;
    }

    /// Looks the pair up in either order and returns its relation, if any.
    pub fn get_constraint(&self, first_index: i32, second_index: i32) -> (r: Option<ConstraintType>)
        requires
            self.wf(),
        ensures
            r == self.spec_constraint(first_index as int, second_index as int),
    {
        let n = self.data.len();
        let mut i: usize = 0;
        while i < n
            invariant
                self.wf(),
                n == self.pairs().len(),
                i <= n,
                forall|j: int|
                    0 <= j < i ==> ((#[trigger] self.pairs()[j]).0 as int,
                    self.pairs()[j].1 as int) != norm_pair(
                        first_index as int,
                        second_index as int,
                    ),
            decreases n - i,
        {
            let entry = self.data[i];
            if (entry.0 == first_index && entry.1 == second_index) || (entry.0 == second_index
                && entry.1 == first_index) {
                proof {
                    assert(self.spec_has(first_index as int, second_index as int));
                }
                return Some(entry.2);
            }
            i = i + 1;
        }
        return None;
    }

    /// The stored triples, for iteration.
    pub fn get_data(&self) -> (r: &Vec<(i32, i32, ConstraintType)>)
        ensures
            r@ == self.pairs(),
    {
        return &self.data;
    }
}

} // verus!
