//! Placing genes into the periods of a timetable.

use crate::datatypes::{Gene, Individual};
use crate::random::random_below;
use crate::rows::lemma_bag_push;
use rand::rngs::ThreadRng;
use vstd::prelude::*;

verus! {

/// Those of the first `upto` genes whose slot is the period `c`, in order.
pub open spec fn assigned(genes: Seq<Gene>, slots: Seq<usize>, c: int, upto: nat) -> Seq<Gene>
    decreases upto,
{
    if upto == 0 {
        Seq::empty()
    } else {
        let before = assigned(genes, slots, c, (upto - 1) as nat);
        if slots[upto - 1] == c {
            before.push(genes[upto - 1])
        } else {
            before
        }
    }
}

/// Every slot names one of `periods` periods.
pub open spec fn slots_fit(slots: Seq<usize>, periods: nat) -> bool {
    forall|k: int| 0 <= k < slots.len() ==> (#[trigger] slots[k]) < periods
}

/// Draws one period for each of `count` genes, one after the other.
pub fn random_slots(rng: &mut ThreadRng, count: usize, periods: usize) -> (slots: Vec<usize>)
    requires
        count > 0 ==> periods > 0,
    ensures
        slots@.len() == count,
        slots_fit(slots@, periods as nat),
{
    let mut slots: Vec<usize> = Vec::with_capacity(count);
    for k in 0..count
        invariant
            count > 0 ==> periods > 0,
            slots@.len() == k,
            slots_fit(slots@, periods as nat),
    {
        let slot = random_below(rng, periods);
        slots.push(slot);
    }
    slots
}

impl Individual {
    /// Appends each gene to the period that its slot names, gene by gene.
    ///
    /// Every period keeps what it held and gains, in order, the genes sent
    /// to it; the timetable as a whole gains each gene exactly once.
    pub fn place_genes(&mut self, genes: &Vec<Gene>, slots: &Vec<usize>)
        requires
            genes@.len() == slots@.len(),
            slots_fit(slots@, old(self).chromosomes@.len()),
        ensures
            final(self).adaptation == old(self).adaptation,
            final(self).chromosomes@.len() == old(self).chromosomes@.len(),
            forall|c: int|
                0 <= c < old(self).chromosomes@.len() ==> {
                    &&& (#[trigger] final(self).chromosomes@[c]).id == old(self).chromosomes@[c].id
                    &&& final(self).chromosomes@[c].genes@ == old(self).chromosomes@[c].genes@
                        + assigned(genes@, slots@, c, genes@.len())
                },
            final(self).gene_bag() == old(self).gene_bag().add(genes@.to_multiset()),
    {
        broadcast use {vstd::seq_lib::group_to_multiset_ensures, vstd::multiset::group_multiset_axioms};

        let count = genes.len();
        assert(genes@.take(0) =~= Seq::<Gene>::empty());
        assert(self.gene_bag() =~= old(self).gene_bag().add(genes@.take(0).to_multiset()));
        for k in 0..count
            invariant
                count == genes@.len(),
                genes@.len() == slots@.len(),
                slots_fit(slots@, old(self).chromosomes@.len()),
                self.adaptation == old(self).adaptation,
                self.chromosomes@.len() == old(self).chromosomes@.len(),
                forall|c: int|
                    0 <= c < old(self).chromosomes@.len() ==> {
                        &&& (#[trigger] self.chromosomes@[c]).id == old(self).chromosomes@[c].id
                        &&& self.chromosomes@[c].genes@ == old(self).chromosomes@[c].genes@
                            + assigned(genes@, slots@, c, k as nat)
                    },
                self.gene_bag() == old(self).gene_bag().add(genes@.take(k as int).to_multiset()),
        {
            let slot = slots[k];
            let gene = genes[k];
            let ghost before = self.rows();
            self.chromosomes[slot].genes.push(gene);
            proof {
                lemma_bag_push(before, slot as int, gene);
                assert(self.rows() =~= before.update(slot as int, before[slot as int].push(gene)));
                assert(genes@.take(k + 1) =~= genes@.take(k as int).push(gene));
                vstd::seq_lib::to_multiset_build(genes@.take(k as int), gene);
                assert(self.gene_bag() =~= old(self).gene_bag().add(
                    genes@.take(k + 1).to_multiset(),
                ));
            }
        }
        assert(genes@.take(count as int) =~= genes@);
    }
}

} // verus!
