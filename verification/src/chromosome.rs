//! An ordered sequence of real-valued genes.

use vstd::prelude::*;

use crate::fixed::Real;

verus! {

/// One candidate solution: genes in a fixed order. Crossover and
/// mutation preserve the length exactly.
#[derive(Clone, Debug, PartialEq)]
pub struct Chromosome {
    genes: Vec<Real>,
}

impl View for Chromosome {
    type V = Seq<Real>;

    closed spec fn view(&self) -> Seq<Real> {
        self.genes@
    }
}

impl Chromosome {
    /// Wrap a gene vector in order.
    pub fn from_genes(genes: Vec<Real>) -> (r: Chromosome)
        ensures
            r@ == genes@,
    {
        Chromosome { genes }
    }

    /// How many genes there are.
    pub fn len(&self) -> (r: usize)
        ensures
            r == self@.len(),
    {
        self.genes.len()
    }

    /// Whether there are no genes at all.
    pub fn is_empty(&self) -> (r: bool)
        ensures
            r == (self@.len() == 0),
    {
        self.genes.len() == 0
    }

    /// The gene at `index`.
    pub fn gene(&self, index: usize) -> (r: Real)
        requires
            index < self@.len(),
        ensures
            r == self@[index as int],
    {
        self.genes[index]
    }

    /// Replace the gene at `index`.
    pub fn set_gene(&mut self, index: usize, value: Real)
        requires
            index < old(self)@.len(),
        ensures
            final(self)@ == old(self)@.update(index as int, value),
    {
        self.genes.set(index, value);
    }

    /// The genes, still in order, as a borrowed vector.
    pub fn genes(&self) -> (r: &Vec<Real>)
        ensures
            r@ == self@,
    {
        &self.genes
    }

    /// The genes, still in order, as an owned vector.
    pub fn into_genes(self) -> (r: Vec<Real>)
        ensures
            r@ == self@,
    {
        self.genes
    }
}

} // verus!
