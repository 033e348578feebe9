//! The mathematics of genomes: sequences of characters, how well one matches
//! a target, and how two are crossed.

use vstd::prelude::*;

verus! {

/// The lowest character code a drawn gene may have (a space).
pub const FIRST_PRINTABLE: u8 = 32;

/// The highest character code a drawn gene may have (a tilde).
pub const LAST_PRINTABLE: u8 = 126;

/// A character is printable when its code lies between a space and a tilde.
pub open spec fn is_printable(c: char) -> bool {
    FIRST_PRINTABLE <= c as u32 <= LAST_PRINTABLE
}

/// Every gene of `genome` is printable.
pub open spec fn all_printable(genome: Seq<char>) -> bool {
    forall|i: int| 0 <= i < genome.len() ==> is_printable(#[trigger] genome[i])
}

/// The number of positions below `upto` at which `genome` and `target` hold
/// the same character.
pub open spec fn matches_below(genome: Seq<char>, target: Seq<char>, upto: nat) -> nat
    decreases upto,
{
    if upto == 0 {
        0
    } else {
        let before = matches_below(genome, target, (upto - 1) as nat);
        if genome[upto - 1] == target[upto - 1] {
            before + 1
        } else {
            before
        }
    }
}

/// The number of positions of `target` at which `genome` holds the same
/// character. Fitness is this count divided by the length of the target.
pub open spec fn match_count(genome: Seq<char>, target: Seq<char>) -> nat {
    matches_below(genome, target, target.len())
}

/// The fixed midpoint at which two genomes of length `len` are crossed.
pub open spec fn midpoint(len: nat) -> nat {
    len / 2
}

/// The child of `first` and `second`: the genes of `first` before the
/// midpoint, then the genes of `second` from the midpoint on.
pub open spec fn crossover(first: Seq<char>, second: Seq<char>) -> Seq<char> {
    let len = first.len();
    first.subrange(0, midpoint(len) as int) + second.subrange(midpoint(len) as int, len as int)
}

/// Two genomes agree on every position below `upto`.
pub open spec fn agree_below(genome: Seq<char>, target: Seq<char>, upto: nat) -> bool {
    forall|i: int| 0 <= i < upto ==> genome[i] == target[i]
}

/// A count of matches never exceeds the number of positions counted.
pub proof fn lemma_matches_below_bounded(genome: Seq<char>, target: Seq<char>, upto: nat)
    ensures
        matches_below(genome, target, upto) <= upto,
    decreases upto,
{
    if upto > 0 {
        lemma_matches_below_bounded(genome, target, (upto - 1) as nat);
    }
}

/// Every counted position matches exactly when the two genomes agree on all of
/// them.
pub proof fn lemma_matches_below_full(genome: Seq<char>, target: Seq<char>, upto: nat)
    ensures
        matches_below(genome, target, upto) == upto <==> agree_below(genome, target, upto),
    decreases upto,
{
    if upto > 0 {
        let before = (upto - 1) as nat;
        lemma_matches_below_full(genome, target, before);
        lemma_matches_below_bounded(genome, target, before);
        if agree_below(genome, target, upto) {
            assert(agree_below(genome, target, before));
            assert(genome[upto - 1] == target[upto - 1]);
        }
        if matches_below(genome, target, upto) == upto {
            assert(agree_below(genome, target, before));
            assert forall|i: int| 0 <= i < upto implies genome[i] == target[i] by {
                if i < before {
                    assert(genome[i] == target[i]);
                }
            }
        }
    }
}

/// Fitness lies in the unit interval, and is one exactly for the target
/// itself: of a genome as long as the target, between none and all positions
/// match, and all of them match if and only if the genome equals the target
/// character for character.
pub proof fn lemma_fitness_range(genome: Seq<char>, target: Seq<char>)
    requires
        genome.len() == target.len(),
    ensures
        0 <= match_count(genome, target) <= target.len(),
        match_count(genome, target) == target.len() <==> genome == target,
{
    lemma_matches_below_bounded(genome, target, target.len());
    lemma_matches_below_full(genome, target, target.len());
    if agree_below(genome, target, target.len()) {
        assert(genome =~= target);
    }
}

/// A child has the length of its first parent, wherever the second parent is at
/// least as long.
pub proof fn lemma_crossover_len(first: Seq<char>, second: Seq<char>)
    requires
        first.len() <= second.len(),
    ensures
        crossover(first, second).len() == first.len(),
{
}

/// Gene by gene: a child takes each position before the midpoint from its
/// first parent and every other position from its second.
pub proof fn lemma_crossover_genes(first: Seq<char>, second: Seq<char>, i: int)
    requires
        first.len() == second.len(),
        0 <= i < first.len(),
    ensures
        crossover(first, second)[i] == if i < midpoint(first.len()) {
            first[i]
        } else {
            second[i]
        },
{
}

} // verus!
