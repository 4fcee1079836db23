//! Compact description of a move: one point reassigned to one cluster.
//!
//! The full neighbourhood of a solution is the cross product of all point
//! indices and all cluster ids.

use vstd::prelude::*;
use vstd::arithmetic::div_mod::lemma_fundamental_div_mod_converse;

verus! {

/// One move of the neighbourhood: assign point `element_index` to cluster
/// `new_cluster`.
#[derive(Debug, Clone, Copy, PartialEq, Eq, Structural)]
pub struct NeighbourGenerator {
    element_index: i32,
    new_cluster: u32,
}

impl NeighbourGenerator {
    /// The point that the move reassigns.
    pub closed spec fn spec_element_index(&self) -> int {
        self.element_index as int
    }

    /// The cluster that the move assigns the point to.
    pub closed spec fn spec_new_cluster(&self) -> u32 {
        self.new_cluster
    }

    pub fn new(element_index: i32, new_cluster: u32) -> (r: Self)
        ensures
            r.spec_element_index() == element_index as int,
            r.spec_new_cluster() == new_cluster,
    {
        return Self { element_index, new_cluster };
    }

    pub fn get_element_index(&self) -> (r: i32)
        ensures
            r as int == self.spec_element_index(),
    {
        return self.element_index;
    }

    pub fn get_new_cluster(&self) -> (r: u32)
        ensures
            r == self.spec_new_cluster(),
    {
        return self.new_cluster;
    }

    /// Generates every move over `number_of_elements` points and
    /// `number_of_clusters` clusters, valid or not, grouped by point: the
    /// move at position `idx` reassigns point `idx / number_of_clusters` to
    /// cluster `idx % number_of_clusters`.
    pub fn generate_all_neighbours(number_of_elements: i32, number_of_clusters: i32) -> (r: Vec<
        Self,
    >)
        requires
            0 <= number_of_elements,
            0 <= number_of_clusters,
            number_of_elements * number_of_clusters <= usize::MAX,
        ensures
            r@.len() == number_of_elements * number_of_clusters,
            forall|idx: int|
                0 <= idx < r@.len() ==> (#[trigger] r@[idx]).spec_element_index() == idx
                    / (number_of_clusters as int) && r@[idx].spec_new_cluster() as int == idx % (
                number_of_clusters as int),
    {
        let mut neighbours: Vec<Self> = Vec::new();
        let ghost n = number_of_elements as int;
        let ghost k = number_of_clusters as int;
        let mut current_element: i32 = 0;
        while current_element < number_of_elements
            invariant
                0 <= current_element <= number_of_elements,
                0 <= k,
                n == number_of_elements as int,
                k == number_of_clusters as int,
                n * k <= usize::MAX,
                neighbours@.len() == current_element * k,
                forall|idx: int|
                    0 <= idx < neighbours@.len() ==> (#[trigger] neighbours@[idx]).spec_element_index()
                        == idx / k && neighbours@[idx].spec_new_cluster() as int == idx % k,
            decreases number_of_elements - current_element,
        {
            let ghost i = current_element as int;
            proof {
                assert(0 <= i * k && i * k + k == (i + 1) * k && (i + 1) * k <= n * k)
                    by (nonlinear_arith)
                    requires 0 <= i, i < n, 0 <= k;
            }
            let mut current_cluster: i32 = 0;
            while current_cluster < number_of_clusters
                invariant
                    0 <= current_cluster <= number_of_clusters,
                    0 <= k,
                    i == current_element as int,
                    k == number_of_clusters as int,
                    0 <= i,
                    i * k + k <= usize::MAX,
                    neighbours@.len() == i * k + current_cluster,
                    forall|idx: int|
                        0 <= idx < neighbours@.len() ==> (
                        #[trigger] neighbours@[idx]).spec_element_index() == idx / k
                            && neighbours@[idx].spec_new_cluster() as int == idx % k,
                decreases number_of_clusters - current_cluster,
            {
                let ghost c = current_cluster as int;
                neighbours.push(NeighbourGenerator {
                    element_index: current_element,
                    new_cluster: current_cluster as u32,
                });
                proof {
                    lemma_fundamental_div_mod_converse(i * k + c, k, i, c);
                }
                current_cluster = current_cluster + 1;
            }
            proof {
                assert(i * k + k == (i + 1) * k) by (nonlinear_arith);
            }
            current_element = current_element + 1;
        }
        return neighbours;
    }
}

} // verus!
