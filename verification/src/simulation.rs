//! The generational loop, one generation at a time.
//!
//! A [`Simulation`] holds a population and the best fitness last reported.
//! Its caller repeats [`Simulation::step`] until [`Simulation::finished`]
//! and shows each report that a step hands back; the library neither prints
//! nor measures time.

use crate::agent::Mutation;
use crate::fitness::Fitness;
use crate::population::{Population, PopulationView, MIN_AGENTS};
use crate::rate::MutationRate;
use vstd::prelude::*;

verus! {

/// What is reported of a generation: its number, the genome of its fittest
/// agent, and that agent's fitness.
pub struct Progress {
    /// The number of breeding passes before this generation was ranked.
    pub generation: usize,
    /// The genome of the top-ranked agent, as text.
    pub fittest: String,
    /// The fitness of the top-ranked agent.
    pub fitness: Fitness,
}

/// The best fitness on record in `population`.
pub open spec fn best_fitness(population: PopulationView) -> Fitness {
    Fitness { matches: population.best as usize, positions: population.target.len() as usize }
}

impl Progress {
    /// This report is the one that describes `ranked`, a population that has
    /// just been through selection.
    pub open spec fn describes(self, ranked: PopulationView) -> bool {
        &&& self.generation == ranked.generation
        &&& self.fittest@ == ranked.members[0].genome
        &&& self.fitness == best_fitness(ranked)
    }
}

/// What a simulation is, mathematically.
pub struct SimulationView {
    /// The population as it stands.
    pub population: PopulationView,
    /// The best fitness that was last reported, if any was.
    pub reported: Option<Fitness>,
}

impl SimulationView {
    /// The search is over: the best fitness on record is one.
    pub open spec fn finished(self) -> bool {
        self.population.best == self.population.target.len()
    }

    /// `after` and `report` are what one generation makes of this
    /// simulation, where selection gave `ranked` and the random draws of
    /// breeding gave `plan`. The best fitness found by selection is reported
    /// if and only if it differs from the one last reported, and is then the
    /// one on record as reported; the population is bred from `ranked`.
    pub open spec fn steps_to(
        self,
        ranked: PopulationView,
        plan: Seq<Option<Mutation>>,
        after: SimulationView,
        report: Option<Progress>,
    ) -> bool {
        &&& self.population.selects_to(ranked)
        &&& ranked.well_formed()
        &&& ranked.draws(plan)
        &&& ranked.breeds_to(after.population, plan)
        &&& after.reported == Some(best_fitness(ranked))
        &&& report is Some <==> self.reported != Some(best_fitness(ranked))
        &&& report matches Some(progress) ==> progress.describes(ranked)
    }
}

/// A population on its way to the target, and what was last reported of it.
pub struct Simulation<'a> {
    population: Population<'a>,
    last_fitness: Option<Fitness>,
}

impl<'a> View for Simulation<'a> {
    type V = SimulationView;

    closed spec fn view(&self) -> SimulationView {
        SimulationView { population: self.population@, reported: self.last_fitness }
    }
}

impl<'a> Simulation<'a> {
    /// A simulation that starts from `population`, with nothing reported yet.
    pub fn new(population: Population<'a>) -> (simulation: Self)
        ensures
            simulation@ == (SimulationView { population: population@, reported: None }),
    {
        Simulation { population, last_fitness: None }
    }

    /// A simulation that starts from a random population of `num_agents`
    /// agents, with nothing reported yet.
    pub fn start(target: &'a str, num_agents: usize, mut_chance: MutationRate) -> (simulation:
        Self)
        requires
            target@.len() > 0,
            num_agents >= MIN_AGENTS,
        ensures
            simulation@.population.well_formed(),
            simulation@.population.target == target@,
            simulation@.population.rate == mut_chance,
            simulation@.population.members.len() == num_agents,
            simulation@.population.generation == 0,
            !simulation@.population.has_selected,
            !simulation@.finished(),
            simulation@.reported is None,
    {
        Simulation::new(Population::random(target, num_agents, mut_chance))
    }

    /// Whether the search is over: the best fitness on record is one.
    pub fn finished(&self) -> (finished: bool)
        requires
            self@.population.well_formed(),
        ensures
            finished == self@.finished(),
    {
        self.population.max_fitness().is_perfect()
    }

    /// One generation: selection, then a report of the fittest agent where the
    /// best fitness differs from the one last reported, then breeding.
    pub fn step(&mut self) -> (report: Option<Progress>)
        requires
            old(self)@.population.well_formed(),
            old(self)@.population.generation < usize::MAX,
        ensures
            final(self)@.population.well_formed(),
            exists|ranked: PopulationView, plan: Seq<Option<Mutation>>| #[trigger]
                old(self)@.steps_to(ranked, plan, final(self)@, report),
    {
        self.population.select();
        let ghost ranked = self.population@;
        let fitness = self.population.max_fitness();
        let changed: bool = match self.last_fitness {
            Some(last) => last.matches != fitness.matches || last.positions != fitness.positions,
            None => true,
        };
        let report: Option<Progress> = if changed {
            let fittest = self.population.fittest().unwrap().to_string();
            Some(Progress { generation: self.population.generation(), fittest, fitness })
        } else {
            None
        };
        self.last_fitness = Some(fitness);
        self.population.breed();
        proof {
            let plan = choose|plan: Seq<Option<Mutation>>| #[trigger]
                ranked.draws(plan) && ranked.breeds_to(self.population@, plan);
            assert(old(self)@.steps_to(ranked, plan, self@, report));
        }
        report
    }

    /// The population as it stands.
    pub fn population(&self) -> (population: &Population<'a>)
        ensures
            population@ == self@.population,
    {
        &self.population
    }
}

} // verus!
