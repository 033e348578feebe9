//! A ranked collection of agents, and the two phases of a generation:
//! selection and breeding.

use crate::agent::{Agent, AgentView, Mutation};
use crate::chance::strikes;
use crate::fitness::Fitness;
use crate::genome::{all_printable, lemma_fitness_range, match_count};
use crate::ranking::{lemma_ranking_is_determined, lemma_rearranged_keeps};
use crate::ranking::{rank, ranking_of, views};
use crate::rate::MutationRate;
use vstd::prelude::*;
use vstd::string::StrSliceExecFns;

verus! {

/// The smallest population that the search accepts.
pub const MIN_AGENTS: usize = 4;

/// The number of children bred in one generation by a population of `size`
/// members: one for each slot of the lower half, the middle slot counted with
/// it where `size` is odd.
pub open spec fn offspring(size: nat) -> nat {
    size / 2 + size % 2
}

/// The child that is written into slot `size / 2 + i`: bred from the members
/// in slots `i` and `i + 1`, then mutated where the plan says so.
pub open spec fn child(members: Seq<AgentView>, i: int, mutation: Option<Mutation>) -> AgentView {
    let bred = members[i].bred_with(members[i + 1]);
    match mutation {
        Some(m) => bred.mutated(m),
        None => bred,
    }
}

/// What a population is, mathematically.
pub struct PopulationView {
    /// The string that the search is after.
    pub target: Seq<char>,
    /// The probability with which a child is mutated.
    pub rate: MutationRate,
    /// The agents, in order.
    pub members: Seq<AgentView>,
    /// The number of breeding passes so far.
    pub generation: nat,
    /// The number of matching positions of the top-ranked member at the most
    /// recent selection; zero before the first.
    pub best: nat,
    /// Whether a selection has taken place.
    pub has_selected: bool,
}

impl PopulationView {
    /// What holds of every population: the target is not empty, there are at
    /// least four members, every genome is as long as the target, and once a
    /// selection has taken place the first member carries its true score,
    /// which is the best score on record.
    pub open spec fn well_formed(self) -> bool {
        &&& self.target.len() > 0
        &&& self.members.len() >= MIN_AGENTS
        &&& forall|i: int|
            0 <= i < self.members.len() ==> (#[trigger] self.members[i]).genome.len()
                == self.target.len()
        &&& self.best <= self.target.len()
        &&& self.has_selected ==> self.members[0] == self.members[0].evaluated(self.target)
            && self.best == self.members[0].matches
        &&& !self.has_selected ==> self.best == 0
    }

    /// The members, each evaluated against the target.
    pub open spec fn evaluated_members(self) -> Seq<AgentView> {
        Seq::new(self.members.len(), |i: int| self.members[i].evaluated(self.target))
    }

    /// `after` is this population after a selection: the same agents, each
    /// with its true score, in rank order, the best score on record that of
    /// the first. Agents of equal score stand in the order in which they
    /// stood before.
    pub open spec fn selects_to(self, after: PopulationView) -> bool {
        &&& after.target == self.target
        &&& after.rate == self.rate
        &&& after.generation == self.generation
        &&& after.has_selected
        &&& ranking_of(self.evaluated_members(), after.members)
        &&& after.best == after.members[0].matches
    }

    /// `plan` can direct one breeding pass of this population: it holds one
    /// entry for each child, and every mutation in it falls inside a genome.
    pub open spec fn accepts(self, plan: Seq<Option<Mutation>>) -> bool {
        &&& plan.len() == offspring(self.members.len())
        &&& forall|i: int|
            0 <= i < plan.len() ==> ((#[trigger] plan[i]) matches Some(m) ==> m.fits(
                self.target.len(),
            ))
    }

    /// `plan` is one that the random draws of a breeding pass can give: it
    /// holds one entry for each child, every mutation in it falls inside a
    /// genome and writes a printable character, and at a certain rate every
    /// child is mutated.
    pub open spec fn draws(self, plan: Seq<Option<Mutation>>) -> bool {
        &&& plan.len() == offspring(self.members.len())
        &&& forall|i: int|
            0 <= i < plan.len() ==> ((#[trigger] plan[i]) matches Some(m) ==> m.drawn_for(
                self.target.len(),
            ))
        &&& self.rate.certain() ==> forall|i: int|
            0 <= i < plan.len() ==> (#[trigger] plan[i]) is Some
    }

    /// `after` is this population after a breeding pass directed by `plan`.
    /// The upper half is untouched. Slot `k` of the lower half holds the
    /// child of the two members that `after` holds in slots `i` and `i + 1`,
    /// where `i` counts `k` from the start of the lower half; both slots come
    /// before the child's own. The generation counter has gone up by one.
    pub open spec fn breeds_to(self, after: PopulationView, plan: Seq<Option<Mutation>>) -> bool {
        let half = self.members.len() / 2;
        &&& after.target == self.target
        &&& after.rate == self.rate
        &&& after.generation == self.generation + 1
        &&& after.best == self.best
        &&& after.has_selected == self.has_selected
        &&& after.members.len() == self.members.len()
        &&& forall|k: int| 0 <= k < half ==> #[trigger] after.members[k] == self.members[k]
        &&& forall|k: int|
            half <= k < after.members.len() ==> #[trigger] after.members[k] == child(
                after.members,
                k - half,
                plan[k - half],
            )
    }
}

/// A population of agents that evolves toward a target string.
pub struct Population<'a> {
    target: &'a str,
    mut_chance: MutationRate,
    agents: Vec<Agent>,
    generation: usize,
    max_matches: usize,
    has_selected: bool,
}

impl<'a> View for Population<'a> {
    type V = PopulationView;

    closed spec fn view(&self) -> PopulationView {
        PopulationView {
            target: self.target@,
            rate: self.mut_chance,
            members: views(self.agents@),
            generation: self.generation as nat,
            best: self.max_matches as nat,
            has_selected: self.has_selected,
        }
    }
}

impl<'a> Population<'a> {
    /// A population of the given agents, in the given order, before any
    /// selection.
    pub fn new(target: &'a str, agents: Vec<Agent>, mut_chance: MutationRate) -> (population:
        Self)
        requires
            target@.len() > 0,
            agents@.len() >= MIN_AGENTS,
            forall|i: int|
                0 <= i < agents@.len() ==> (#[trigger] agents@[i])@.genome.len() == target@.len(),
        ensures
            population@.well_formed(),
            population@ == (PopulationView {
                target: target@,
                rate: mut_chance,
                members: views(agents@),
                generation: 0,
                best: 0,
                has_selected: false,
            }),
    {
        Population { target, mut_chance, agents, generation: 0, max_matches: 0, has_selected: false }
    }

    /// A population of `num_agents` random agents, each as long as `target`,
    /// before any selection.
    pub fn random(target: &'a str, num_agents: usize, mut_chance: MutationRate) -> (population:
        Self)
        requires
            target@.len() > 0,
            num_agents >= MIN_AGENTS,
        ensures
            population@.well_formed(),
            population@.target == target@,
            population@.rate == mut_chance,
            population@.members.len() == num_agents,
            forall|i: int|
                0 <= i < num_agents ==> all_printable((#[trigger] population@.members[i]).genome)
                    && population@.members[i].matches == 0,
            population@.generation == 0,
            population@.best == 0,
            !population@.has_selected,
    {
        let num_genes: usize = target.unicode_len();
        let mut agents: Vec<Agent> = Vec::new();
        let mut i: usize = 0;
        while i < num_agents
            invariant
                i <= num_agents,
                agents@.len() == i,
                num_genes == target@.len(),
                forall|k: int|
                    0 <= k < i ==> (#[trigger] agents@[k])@.genome.len() == num_genes
                        && all_printable(agents@[k]@.genome) && agents@[k]@.matches == 0,
            decreases num_agents - i,
        {
            let agent = Agent::random(num_genes);
            agents.push(agent);
            i += 1;
        }
        Population::new(target, agents, mut_chance)
    }

    /// The selection phase: evaluates every agent against the target, then
    /// sorts the agents by fitness, best first, and records the fitness of
    /// the first.
    pub fn select(&mut self)
        requires
            old(self)@.well_formed(),
        ensures
            final(self)@.well_formed(),
            old(self)@.selects_to(final(self)@),
    {
        let target = self.target;
        let n: usize = self.agents.len();
        let ghost before = self@;
        let mut i: usize = 0;
        while i < n
            invariant
                i <= n,
                before.well_formed(),
                before.members.len() == n,
                self.agents@.len() == n,
                target@ == before.target,
                self@.target == before.target,
                self@.rate == before.rate,
                self@.generation == before.generation,
                forall|k: int|
                    0 <= k < i ==> (#[trigger] self.agents@[k])@ == before.members[k].evaluated(
                        target@,
                    ),
                forall|k: int| i <= k < n ==> (#[trigger] self.agents@[k])@ == before.members[k],
            decreases n - i,
        {
            self.agents[i].calc_fitness(target);
            i += 1;
        }
        let ghost scored = views(self.agents@);
        assert(scored =~= before.evaluated_members());
        rank(&mut self.agents);
        let ghost sound = |a: AgentView|
            a.genome.len() == before.target.len() && a == a.evaluated(before.target);
        proof {
            assert forall|k: int| 0 <= k < scored.len() implies sound(#[trigger] scored[k]) by {
                assert(scored[k] == before.members[k].evaluated(before.target));
            }
            lemma_rearranged_keeps(scored, views(self.agents@), sound);
            assert(sound(views(self.agents@)[0]));
            lemma_fitness_range(views(self.agents@)[0].genome, before.target);
        }
        self.max_matches = self.agents[0].fitness().matches;
        self.has_selected = true;
        assert forall|k: int| 0 <= k < self@.members.len() implies (
        #[trigger] self@.members[k]).genome.len() == self@.target.len() by {
            assert(sound(views(self.agents@)[k]));
        }
    }

    /// The breeding phase, with the mutations given: for each slot of the
    /// lower half, counted by `i` from its start, the agents in slots `i` and
    /// `i + 1` are crossed, the child is mutated as `plan[i]` says, and the
    /// child replaces the agent in that slot. The upper half survives
    /// untouched. Then the generation counter goes up by one.
    pub fn breed_with(&mut self, plan: &Vec<Option<Mutation>>)
        requires
            old(self)@.well_formed(),
            old(self)@.generation < usize::MAX,
            old(self)@.accepts(plan@),
        ensures
            final(self)@.well_formed(),
            old(self)@.breeds_to(final(self)@, plan@),
    {
        let n: usize = self.agents.len();
        let half: usize = n / 2;
        let count: usize = half + n % 2;
        let ghost before = self@;
        assert forall|k: int| 0 <= k < n implies (#[trigger] self.agents@[k])@.genome.len()
            == before.target.len() by {
            assert(before.members[k] == self.agents@[k]@);
        }
        let mut i: usize = 0;
        while i < count
            invariant
                i <= count,
                n >= MIN_AGENTS,
                half == n / 2,
                count == half + n % 2,
                self.agents@.len() == n,
                before.members.len() == n,
                before.well_formed(),
                before.accepts(plan@),
                self@.target == before.target,
                self@.rate == before.rate,
                self@.generation == before.generation,
                self@.best == before.best,
                self@.has_selected == before.has_selected,
                forall|k: int|
                    0 <= k < n ==> (#[trigger] self.agents@[k])@.genome.len()
                        == before.target.len(),
                forall|k: int| 0 <= k < half ==> (#[trigger] self.agents@[k])@ == before.members[k],
                forall|k: int|
                    half <= k < half + i ==> (#[trigger] self.agents@[k])@ == child(
                        views(self.agents@),
                        k - half,
                        plan@[k - half],
                    ),
            decreases count - i,
        {
            let ghost earlier = views(self.agents@);
            let mut bred = self.agents[i].breed(&self.agents[i + 1]);
            match plan[i] {
                Some(mutation) => {
                    bred.mutate_with(mutation);
                },
                None => {},
            }
            self.agents[half + i] = bred;
            proof {
                let now = views(self.agents@);
                assert forall|k: int| half <= k <= half + i implies (#[trigger] self.agents@[k])@
                    == child(now, k - half, plan@[k - half]) by {
                    let j = k - half;
                    assert(now[j] == earlier[j]);
                    assert(now[j + 1] == earlier[j + 1]);
                    if j < i {
                        assert(now[k] == earlier[k]);
                    }
                }
            }
            i += 1;
        }
        self.generation += 1;
    }

    /// The mutations of one breeding pass, drawn in the order of the children:
    /// for each child whether a mutation strikes, at the population's rate,
    /// and where one does, its position and then its character.
    fn draw_plan(&self) -> (plan: Vec<Option<Mutation>>)
        requires
            self@.well_formed(),
        ensures
            self@.draws(plan@),
    {
        let n: usize = self.agents.len();
        let count: usize = n / 2 + n % 2;
        let num_genes: usize = self.target.unicode_len();
        let mut plan: Vec<Option<Mutation>> = Vec::new();
        let mut i: usize = 0;
        while i < count
            invariant
                i <= count,
                plan@.len() == i,
                num_genes == self@.target.len(),
                num_genes > 0,
                forall|k: int|
                    0 <= k < i ==> ((#[trigger] plan@[k]) matches Some(m) ==> m.drawn_for(
                        num_genes as nat,
                    )),
                self.mut_chance.certain() ==> forall|k: int|
                    0 <= k < i ==> (#[trigger] plan@[k]) is Some,
            decreases count - i,
        {
            let entry: Option<Mutation> = if strikes(self.mut_chance) {
                Some(Mutation::random(num_genes))
            } else {
                None
            };
            plan.push(entry);
            i += 1;
        }
        plan
    }

    /// The breeding phase: for each slot of the lower half, counted by `i`
    /// from its start, the agents in slots `i` and `i + 1` are crossed, the
    /// child is mutated with the population's mutation rate, and the child
    /// replaces the agent in that slot. The upper half survives untouched.
    /// Then the generation counter goes up by one.
    pub fn breed(&mut self)
        requires
            old(self)@.well_formed(),
            old(self)@.generation < usize::MAX,
        ensures
            final(self)@.well_formed(),
            exists|plan: Seq<Option<Mutation>>| #[trigger]
                old(self)@.draws(plan) && old(self)@.breeds_to(final(self)@, plan),
    {
        let plan = self.draw_plan();
        self.breed_with(&plan);
    }

    /// The number of breeding passes so far.
    pub fn generation(&self) -> (generation: usize)
        ensures
            generation == self@.generation,
    {
        self.generation
    }

    /// The fitness of the top-ranked agent at the most recent selection; zero
    /// before the first.
    pub fn max_fitness(&self) -> (fitness: Fitness)
        requires
            self@.well_formed(),
        ensures
            fitness.matches == self@.best,
            fitness.positions == self@.target.len(),
            fitness.in_unit_interval(),
    {
        Fitness { matches: self.max_matches, positions: self.target.unicode_len() }
    }

    /// The top-ranked agent, once a selection has taken place; `None` before.
    pub fn fittest(&self) -> (fittest: Option<&Agent>)
        requires
            self@.well_formed(),
        ensures
            fittest is Some <==> self@.has_selected,
            fittest matches Some(agent) ==> agent@ == self@.members[0],
    {
        if self.has_selected {
            Some(&self.agents[0])
        } else {
            None
        }
    }

    /// The agents, in their present order.
    pub fn agents(&self) -> (agents: &Vec<Agent>)
        ensures
            views(agents@) == self@.members,
    {
        &self.agents
    }
}

/// Breeding keeps every genome as long as the target: each member of `after`
/// below `upto` is.
proof fn lemma_bred_lengths_below(
    before: PopulationView,
    after: PopulationView,
    plan: Seq<Option<Mutation>>,
    upto: int,
)
    requires
        before.well_formed(),
        before.accepts(plan),
        before.breeds_to(after, plan),
        0 <= upto <= after.members.len(),
    ensures
        forall|k: int|
            0 <= k < upto ==> (#[trigger] after.members[k]).genome.len() == before.target.len(),
    decreases upto,
{
    if upto > 0 {
        lemma_bred_lengths_below(before, after, plan, upto - 1);
        let half = before.members.len() / 2;
        let k = upto - 1;
        if k < half {
            assert(after.members[k] == before.members[k]);
        } else {
            let i = k - half;
            assert(after.members[k] == child(after.members, i, plan[i]));
            assert(after.members[i].genome.len() == before.target.len());
            assert(after.members[i + 1].genome.len() == before.target.len());
        }
    }
}

/// Two populations bred from one population by one plan hold the same
/// members below `upto`.
proof fn lemma_bred_members_agree_below(
    before: PopulationView,
    first: PopulationView,
    second: PopulationView,
    plan: Seq<Option<Mutation>>,
    upto: int,
)
    requires
        before.members.len() >= MIN_AGENTS,
        plan.len() == offspring(before.members.len()),
        before.breeds_to(first, plan),
        before.breeds_to(second, plan),
        0 <= upto <= before.members.len(),
    ensures
        forall|k: int| 0 <= k < upto ==> #[trigger] first.members[k] == second.members[k],
    decreases upto,
{
    if upto > 0 {
        lemma_bred_members_agree_below(before, first, second, plan, upto - 1);
        let half = before.members.len() / 2;
        let k = upto - 1;
        if k < half {
            assert(first.members[k] == before.members[k]);
            assert(second.members[k] == before.members[k]);
        } else {
            let i = k - half;
            assert(first.members[k] == child(first.members, i, plan[i]));
            assert(second.members[k] == child(second.members, i, plan[i]));
            assert(first.members[i] == second.members[i]);
            assert(first.members[i + 1] == second.members[i + 1]);
        }
    }
}

/// Elitism: a breeding pass leaves the upper half of the population as it
/// was, agent for agent, and fills the lower half with children whose genomes
/// are as long as the target.
pub proof fn lemma_breeding_keeps_elite(
    before: PopulationView,
    after: PopulationView,
    plan: Seq<Option<Mutation>>,
)
    requires
        before.well_formed(),
        before.accepts(plan),
        before.breeds_to(after, plan),
    ensures
        after.members.len() == before.members.len(),
        forall|k: int|
            0 <= k < before.members.len() / 2 ==> #[trigger] after.members[k] == before.members[k],
        forall|k: int|
            0 <= k < after.members.len() ==> (#[trigger] after.members[k]).genome.len()
                == before.target.len(),
        forall|i: int|
            0 <= i < offspring(before.members.len()) ==> after.members[before.members.len() / 2
                + i] == child(after.members, i, #[trigger] plan[i]),
{
    let half = before.members.len() / 2;
    assert forall|i: int| 0 <= i < offspring(before.members.len()) implies after.members[half + i]
        == child(after.members, i, #[trigger] plan[i]) by {
        let k = half + i;
        assert(after.members[k] == child(after.members, k - half, plan[k - half]));
    }
    lemma_bred_lengths_below(before, after, plan, after.members.len() as int);
}

/// A breeding pass is determined by the population and the plan: there is
/// one population, and no other, that a given plan breeds from a given one.
pub proof fn lemma_breeding_is_determined(
    before: PopulationView,
    first: PopulationView,
    second: PopulationView,
    plan: Seq<Option<Mutation>>,
)
    requires
        before.members.len() >= MIN_AGENTS,
        plan.len() == offspring(before.members.len()),
        before.breeds_to(first, plan),
        before.breeds_to(second, plan),
    ensures
        first == second,
{
    lemma_bred_members_agree_below(before, first, second, plan, before.members.len() as int);
    assert(first.members =~= second.members);
}

/// Selection is determined by the population: there is one population, and
/// no other, that selection makes of a given one.
pub proof fn lemma_selection_is_determined(
    before: PopulationView,
    first: PopulationView,
    second: PopulationView,
)
    requires
        before.selects_to(first),
        before.selects_to(second),
    ensures
        first == second,
{
    lemma_ranking_is_determined(before.evaluated_members(), first.members, second.members);
}

/// Once a selection has taken place, the best fitness on record is one if
/// and only if the top-ranked agent's genome is the target, character for
/// character.
pub proof fn lemma_best_is_one_iff_target_found(population: PopulationView)
    requires
        population.well_formed(),
        population.has_selected,
    ensures
        population.best == population.target.len() <==> population.members[0].genome
            == population.target,
{
    lemma_fitness_range(population.members[0].genome, population.target);
}

/// Selection ranks the population: of two adjacent agents the first has at
/// least the fitness of the second, and so of any two agents the one that
/// comes first. No agent is lost or made up, and every score is the true one.
pub proof fn lemma_selection_ranks(before: PopulationView, after: PopulationView)
    requires
        before.well_formed(),
        before.selects_to(after),
    ensures
        after.members.len() == before.members.len(),
        forall|i: int|
            0 <= i < after.members.len() - 1 ==> (#[trigger] after.members[i]).matches
                >= after.members[i + 1].matches,
        forall|i: int|
            0 <= i < after.members.len() ==> (#[trigger] after.members[i]).matches == match_count(
                after.members[i].genome,
                after.target,
            ) && after.members[i].genome.len() == after.target.len(),
        forall|i: int|
            0 <= i < after.members.len() ==> after.best >= (#[trigger] after.members[i]).matches,
{
    let scored = before.evaluated_members();
    let sound = |a: AgentView|
        a.genome.len() == before.target.len() && a.matches == match_count(a.genome, before.target);
    assert forall|k: int| 0 <= k < scored.len() implies sound(#[trigger] scored[k]) by {
        assert(scored[k] == before.members[k].evaluated(before.target));
    }
    lemma_rearranged_keeps(scored, after.members, sound);
    assert forall|i: int| 0 <= i < after.members.len() implies (
    #[trigger] after.members[i]).matches == match_count(after.members[i].genome, after.target)
        && after.members[i].genome.len() == after.target.len() by {
        assert(sound(after.members[i]));
    }
    assert forall|i: int| 0 <= i < after.members.len() - 1 implies (
    #[trigger] after.members[i]).matches >= after.members[i + 1].matches by {
        let next = after.members[i + 1];
    }
}

/// Selecting twice gives what selecting once gives: a population that has
/// just been through selection is left as it is by another.
pub proof fn lemma_selection_settles(
    before: PopulationView,
    once: PopulationView,
    twice: PopulationView,
)
    requires
        before.well_formed(),
        before.selects_to(once),
        once.selects_to(twice),
    ensures
        twice == once,
{
    lemma_selection_ranks(before, once);
    assert(once.evaluated_members() =~= once.members);
    assert(once.selects_to(once));
    lemma_selection_is_determined(once, once, twice);
}

/// Elitism keeps what was found: after a breeding pass and the selection
/// that follows it, the best fitness on record is no lower than it was.
pub proof fn lemma_best_never_falls(
    before: PopulationView,
    bred: PopulationView,
    after: PopulationView,
    plan: Seq<Option<Mutation>>,
)
    requires
        before.well_formed(),
        before.has_selected,
        before.breeds_to(bred, plan),
        bred.selects_to(after),
    ensures
        after.best >= before.best,
{
    let scored = bred.evaluated_members();
    let top = before.members[0];
    assert(bred.members[0] == top);
    assert(scored[0] == top);
    scored.to_multiset_ensures();
    after.members.to_multiset_ensures();
    assert(scored.contains(top));
    assert(scored.to_multiset().count(top) > 0);
    assert(after.members.to_multiset().count(top) > 0);
    assert(after.members.contains(top));
    let j = choose|j: int| 0 <= j < after.members.len() && after.members[j] == top;
    assert(after.members[0].matches >= after.members[j].matches);
}

} // verus!
