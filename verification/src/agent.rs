//! A single candidate solution: a genome and the score it had when it was last
//! evaluated.

use crate::chance::{rand_char, rand_int};
use crate::fitness::Fitness;
use crate::genome::{all_printable, crossover, is_printable, match_count, matches_below};
use vstd::prelude::*;

verus! {

/// One point mutation: the gene at `index` is overwritten with `gene`.
#[derive(Clone, Copy, Debug, PartialEq, Eq, Structural)]
pub struct Mutation {
    /// The position that is overwritten.
    pub index: usize,
    /// The character written there.
    pub gene: char,
}

impl Mutation {
    /// The mutation falls inside a genome of `len` genes.
    pub open spec fn fits(self, len: nat) -> bool {
        self.index < len
    }

    /// The mutation is one that a random draw for a genome of `len` genes can
    /// give: it falls inside the genome and writes a printable character.
    pub open spec fn drawn_for(self, len: nat) -> bool {
        self.fits(len) && is_printable(self.gene)
    }

    /// A mutation drawn for a genome of `len` genes: a position uniform over
    /// the genome, then a character uniform over the printable ones.
    pub fn random(len: usize) -> (mutation: Mutation)
        requires
            len > 0,
        ensures
            mutation.drawn_for(len as nat),
    {
        let index: usize = rand_int(len);
        let gene: char = rand_char();
        Mutation { index, gene }
    }
}

/// What an agent is, mathematically.
pub struct AgentView {
    /// The genes, in order.
    pub genome: Seq<char>,
    /// The number of matching positions found when the agent was last
    /// evaluated; zero for an agent that never was.
    pub matches: nat,
}

impl AgentView {
    /// An agent with the given genome that has not been evaluated.
    pub open spec fn fresh(genome: Seq<char>) -> AgentView {
        AgentView { genome, matches: 0 }
    }

    /// The agent after its fitness has been evaluated against `target`.
    pub open spec fn evaluated(self, target: Seq<char>) -> AgentView {
        AgentView { genome: self.genome, matches: match_count(self.genome, target) }
    }

    /// The agent after `mutation`: one gene overwritten, the cached score left
    /// as it was.
    pub open spec fn mutated(self, mutation: Mutation) -> AgentView {
        AgentView {
            genome: self.genome.update(mutation.index as int, mutation.gene),
            matches: self.matches,
        }
    }

    /// The child of this agent and `other`.
    pub open spec fn bred_with(self, other: AgentView) -> AgentView {
        AgentView::fresh(crossover(self.genome, other.genome))
    }
}

/// Evaluating an agent twice against the same target gives what evaluating
/// it once gives: the score depends on the genome and the target alone, and
/// evaluation leaves the genome as it is.
pub proof fn lemma_evaluation_repeats(agent: AgentView, target: Seq<char>)
    ensures
        agent.evaluated(target).evaluated(target) == agent.evaluated(target),
        agent.evaluated(target).genome == agent.genome,
{
}

/// A mutation overwrites exactly one position: the genome keeps its length,
/// holds the mutation's character at the mutation's position, and holds at
/// every other position what it held before.
pub proof fn lemma_mutation_is_local(agent: AgentView, mutation: Mutation)
    requires
        mutation.fits(agent.genome.len()),
    ensures
        agent.mutated(mutation).genome.len() == agent.genome.len(),
        agent.mutated(mutation).genome[mutation.index as int] == mutation.gene,
        forall|i: int|
            0 <= i < agent.genome.len() && i != mutation.index ==> agent.mutated(
                mutation,
            ).genome[i] == agent.genome[i],
{
}

/// A candidate solution.
pub struct Agent {
    matches: usize,
    genes: Vec<char>,
}

impl View for Agent {
    type V = AgentView;

    closed spec fn view(&self) -> AgentView {
        AgentView { genome: self.genes@, matches: self.matches as nat }
    }
}

/// `String::push` appends one character to the end of the string.
pub assume_specification[ String::push ](text: &mut String, ch: char)
    ensures
        final(text)@ == old(text)@.push(ch),
;

impl Agent {
    #[verifier::type_invariant]
    spec fn score_in_range(self) -> bool {
        self.matches <= self.genes.len()
    }

    /// An agent with the given genes and a fitness of zero.
    pub fn new(genes: Vec<char>) -> (agent: Agent)
        ensures
            agent@ == AgentView::fresh(genes@),
    {
        Agent { matches: 0, genes }
    }

    /// An agent of `num_genes` genes, each drawn uniformly from the printable
    /// characters, with a fitness of zero.
    pub fn random(num_genes: usize) -> (agent: Agent)
        ensures
            agent@.genome.len() == num_genes,
            all_printable(agent@.genome),
            agent@.matches == 0,
    {
        let mut genes: Vec<char> = Vec::new();
        let mut i: usize = 0;
        while i < num_genes
            invariant
                i <= num_genes,
                genes@.len() == i,
                all_printable(genes@),
            decreases num_genes - i,
        {
            let gene: char = rand_char();
            genes.push(gene);
            i += 1;
        }
        Agent::new(genes)
    }

    /// The child of this agent and `other`: this agent's genes before the
    /// midpoint, the other's from the midpoint on, and a fitness of zero.
    /// Neither parent changes.
    pub fn breed(&self, other: &Agent) -> (child: Agent)
        requires
            self@.genome.len() == other@.genome.len(),
        ensures
            child@ == self@.bred_with(other@),
    {
        let num_genes: usize = self.genes.len();
        let half: usize = num_genes / 2;
        let mut genes: Vec<char> = Vec::new();
        let mut i: usize = 0;
        while i < num_genes
            invariant
                i <= num_genes,
                num_genes == self.genes@.len(),
                num_genes == other.genes@.len(),
                half == num_genes / 2,
                genes@ == crossover(self.genes@, other.genes@).take(i as int),
            decreases num_genes - i,
        {
            let gene: char = if i < half {
                self.genes[i]
            } else {
                other.genes[i]
            };
            genes.push(gene);
            i += 1;
            assert(genes@ =~= crossover(self.genes@, other.genes@).take(i as int));
        }
        assert(genes@ =~= crossover(self.genes@, other.genes@));
        Agent::new(genes)
    }

    /// Overwrites the gene at the mutation's position with the mutation's
    /// character. The cached fitness is left as it was.
    pub fn mutate_with(&mut self, mutation: Mutation)
        requires
            mutation.fits(old(self)@.genome.len()),
        ensures
            final(self)@ == old(self)@.mutated(mutation),
    {
        proof {
            use_type_invariant(&*self);
        }
        self.genes[mutation.index] = mutation.gene;
    }

    /// Overwrites one gene, at a position drawn uniformly from the genome,
    /// with a character drawn uniformly from the printable ones. Every other
    /// gene, and the cached fitness, are left as they were.
    pub fn mutate(&mut self)
        requires
            old(self)@.genome.len() > 0,
        ensures
            exists|mutation: Mutation| #[trigger]
                mutation.drawn_for(old(self)@.genome.len()) && final(self)@ == old(self)@.mutated(
                    mutation,
                ),
    {
        let mutation = Mutation::random(self.genes.len());
        self.mutate_with(mutation);
    }

    /// Evaluates the agent against `target` and caches the result: the
    /// number of positions at which the genome holds the target's character,
    /// over the length of the target. The genome does not change.
    pub fn calc_fitness(&mut self, target: &str)
        requires
            target@.len() > 0,
            old(self)@.genome.len() == target@.len(),
        ensures
            final(self)@ == old(self)@.evaluated(target@),
    {
        let mut matched: usize = 0;
        let mut i: usize = 0;
        for c in it: target.chars()
            invariant
                it.seq() == target@,
                i == it.index(),
                self.genes.len() == target@.len(),
                matched == matches_below(self.genes@, target@, i as nat),
                matched <= i,
        {
            if self.genes[i] == c {
                matched += 1;
            }
            i += 1;
        }
        self.matches = matched;
    }

    /// The fitness found when the agent was last evaluated; zero for an agent
    /// that never was.
    pub fn fitness(&self) -> (fitness: Fitness)
        ensures
            fitness.matches == self@.matches,
            fitness.positions == self@.genome.len(),
            fitness.matches <= fitness.positions,
    {
        proof {
            use_type_invariant(self);
        }
        Fitness { matches: self.matches, positions: self.genes.len() }
    }

    /// The genome as text: its characters, in order.
    pub fn to_string(&self) -> (text: String)
        ensures
            text@ == self@.genome,
    {
        let mut text = String::new();
        let mut i: usize = 0;
        while i < self.genes.len()
            invariant
                i <= self.genes@.len(),
                text@ == self.genes@.take(i as int),
            decreases self.genes@.len() - i,
        {
            text.push(self.genes[i]);
            i += 1;
            assert(text@ =~= self.genes@.take(i as int));
        }
        assert(text@ =~= self.genes@);
        text
    }
}

} // verus!
