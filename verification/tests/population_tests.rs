use rand::rngs::StdRng;
use rand::{Rng, SeedableRng};
use rust_genetic_algorithm::agent::{Agent, Mutation};
use rust_genetic_algorithm::fitness::Fitness;
use rust_genetic_algorithm::population::Population;
use rust_genetic_algorithm::rate::MutationRate;

fn agent(genes: &str) -> Agent {
    Agent::new(genes.chars().collect())
}

fn population<'a>(target: &'a str, genomes: &[&str]) -> Population<'a> {
    let agents = genomes.iter().map(|g| agent(g)).collect();
    Population::new(target, agents, MutationRate::always())
}

fn genomes(population: &Population) -> Vec<String> {
    population.agents().iter().map(|a| a.to_string()).collect()
}

fn scores(population: &Population) -> Vec<usize> {
    population.agents().iter().map(|a| a.fitness().matches).collect()
}

fn is_printable(c: char) -> bool {
    (32..=126).contains(&(c as u32))
}

#[test]
fn random_population_has_the_requested_shape() {
    let p = Population::random("To be", 7, MutationRate::always());
    assert_eq!(p.agents().len(), 7);
    assert_eq!(p.generation(), 0);
    for a in p.agents() {
        assert_eq!(a.to_string().chars().count(), 5);
        assert!(a.to_string().chars().all(is_printable));
        assert_eq!(a.fitness(), Fitness { matches: 0, positions: 5 });
    }
}

#[test]
fn fittest_is_unavailable_before_the_first_selection() {
    let p = Population::random("AB", 4, MutationRate::always());
    assert!(p.fittest().is_none());
    assert_eq!(p.max_fitness(), Fitness { matches: 0, positions: 2 });
}

#[test]
fn new_population_keeps_the_given_order() {
    let p = population("abcd", &["zzzz", "abcd", "abzz", "azzz"]);
    assert_eq!(genomes(&p), ["zzzz", "abcd", "abzz", "azzz"]);
    assert_eq!(p.generation(), 0);
    assert!(p.fittest().is_none());
}

#[test]
fn select_ranks_by_fitness_descending() {
    let mut p = population("abcd", &["zzzz", "abcd", "azzz", "abcz", "abzz"]);
    p.select();
    assert_eq!(genomes(&p), ["abcd", "abcz", "abzz", "azzz", "zzzz"]);
    assert_eq!(scores(&p), [4, 3, 2, 1, 0]);
}

#[test]
fn select_keeps_agents_of_equal_fitness_in_order() {
    let mut p = population("abcd", &["zzzz", "azzz", "zbzz", "abzz", "zzcz", "yyyy", "abzd"]);
    p.select();
    assert_eq!(genomes(&p), ["abzd", "abzz", "azzz", "zbzz", "zzcz", "zzzz", "yyyy"]);
    assert_eq!(scores(&p), [3, 2, 1, 1, 1, 0, 0]);
}

#[test]
fn select_of_equal_agents_changes_no_order() {
    let mut p = population("abcd", &["zzzz", "yyyy", "xxxx", "wwww"]);
    p.select();
    assert_eq!(genomes(&p), ["zzzz", "yyyy", "xxxx", "wwww"]);
    assert_eq!(p.max_fitness(), Fitness { matches: 0, positions: 4 });
    assert_eq!(p.fittest().unwrap().to_string(), "zzzz");
}

#[test]
fn select_orders_every_adjacent_pair() {
    let mut p = Population::random("genetic algorithm", 60, MutationRate::always());
    p.select();
    let s = scores(&p);
    for pair in s.windows(2) {
        assert!(pair[0] >= pair[1]);
    }
    assert_eq!(p.max_fitness().matches, s[0]);
}

#[test]
fn select_evaluates_every_agent() {
    let target = "abcd";
    let mut p = population(target, &["azzz", "zbzd", "zzzz", "abcd"]);
    p.select();
    for a in p.agents() {
        let expected = a.to_string().chars().zip(target.chars()).filter(|(g, t)| g == t).count();
        assert_eq!(a.fitness(), Fitness { matches: expected, positions: 4 });
    }
}

#[test]
fn select_keeps_the_same_agents() {
    let mut p = population("abcd", &["zzzz", "abzz", "zzzz", "abcd", "abzz", "qqqq"]);
    p.select();
    let mut after = genomes(&p);
    after.sort();
    assert_eq!(after, ["abcd", "abzz", "abzz", "qqqq", "zzzz", "zzzz"]);
}

#[test]
fn select_records_the_best_fitness_and_the_fittest() {
    let mut p = population("abcd", &["zzzz", "azzz", "abcz", "abzz"]);
    p.select();
    assert_eq!(p.max_fitness(), Fitness { matches: 3, positions: 4 });
    assert_eq!(p.max_fitness().matches as f64 / p.max_fitness().positions as f64, 0.75);
    let fittest = p.fittest().unwrap();
    assert_eq!(fittest.to_string(), "abcz");
    assert_eq!(fittest.fitness(), Fitness { matches: 3, positions: 4 });
    assert_eq!(p.generation(), 0);
}

#[test]
fn select_twice_changes_nothing() {
    let mut p = population("abcd", &["zzzz", "azzz", "abcz", "abzz"]);
    p.select();
    let once = genomes(&p);
    p.select();
    assert_eq!(genomes(&p), once);
    assert_eq!(p.max_fitness().matches, 3);
}

#[test]
fn breeding_four_agents_fills_the_lower_half() {
    let mut p = population("abcd", &["abcd", "efgh", "ijkl", "mnop"]);
    p.breed_with(&vec![None, None]);
    assert_eq!(genomes(&p), ["abcd", "efgh", "abgh", "efgh"]);
    assert_eq!(p.generation(), 1);
}

#[test]
fn breeding_five_agents_slides_across_the_middle() {
    let mut p = population("abcd", &["abcd", "efgh", "ijkl", "mnop", "qrst"]);
    p.breed_with(&vec![None, None, None]);
    assert_eq!(genomes(&p), ["abcd", "efgh", "abgh", "efgh", "abgh"]);
    assert_eq!(p.generation(), 1);
}

#[test]
fn breeding_applies_the_given_mutations() {
    let mut p = population("abcd", &["abcd", "efgh", "ijkl", "mnop"]);
    p.breed_with(&vec![Some(Mutation { index: 1, gene: 'x' }), None]);
    assert_eq!(genomes(&p), ["abcd", "efgh", "axgh", "efgh"]);

    let mut q = population("abcd", &["abcd", "efgh", "ijkl", "mnop", "qrst"]);
    q.breed_with(&vec![
        None,
        Some(Mutation { index: 0, gene: 'Z' }),
        Some(Mutation { index: 3, gene: '!' }),
    ]);
    assert_eq!(genomes(&q), ["abcd", "efgh", "abgh", "Zfgh", "abg!"]);
}

#[test]
fn breeding_reads_the_children_already_written() {
    // The second child of four has the first child as its second parent.
    let mut p = population("abcd", &["abcd", "efgh", "ijkl", "mnop"]);
    p.breed_with(&vec![Some(Mutation { index: 3, gene: '#' }), None]);
    assert_eq!(genomes(&p), ["abcd", "efgh", "abg#", "efg#"]);
}

#[test]
fn breeding_six_agents() {
    let mut p = population("ab", &["ab", "cd", "ef", "gh", "ij", "kl"]);
    p.breed_with(&vec![None, None, None]);
    assert_eq!(genomes(&p), ["ab", "cd", "ef", "ad", "cf", "ed"]);
}

#[test]
fn breeding_keeps_the_upper_half_and_its_scores() {
    let mut p = population("abcd", &["zzzz", "abcd", "azzz", "abcz", "abzz"]);
    p.select();
    let before = genomes(&p);
    p.breed();
    let after = genomes(&p);
    assert_eq!(after[..2], before[..2]);
    assert_eq!(scores(&p)[..2], [4, 3]);
    assert_eq!(scores(&p)[2..], [0, 0, 0]);
    assert_eq!(p.max_fitness(), Fitness { matches: 4, positions: 4 });
    assert_eq!(p.fittest().unwrap().to_string(), "abcd");
}

#[test]
fn breeding_gives_children_of_the_right_length() {
    for n in [4usize, 5, 6, 7, 10, 101] {
        let mut p = Population::random("To be or not to be", n, MutationRate::always());
        p.select();
        let elite = genomes(&p)[..n / 2].to_vec();
        p.breed();
        assert_eq!(p.agents().len(), n);
        assert_eq!(genomes(&p)[..n / 2], elite[..]);
        for a in p.agents() {
            assert_eq!(a.to_string().chars().count(), 18);
        }
        assert_eq!(p.generation(), 1);
    }
}

#[test]
fn breeding_counts_generations() {
    let mut p = Population::random("AB", 4, MutationRate::new(1, 2).unwrap());
    for expected in 1..=25usize {
        p.select();
        p.breed();
        assert_eq!(p.generation(), expected);
    }
}

#[test]
fn certain_rate_mutates_every_child() {
    // Unprintable parents: a mutated child shows exactly one printable gene.
    let blank = "\u{1}\u{1}\u{1}\u{1}";
    for _ in 0..100 {
        let mut p = population("abcd", &[blank, blank, blank, blank]);
        p.breed();
        let after = genomes(&p);
        assert_eq!(after[0], blank);
        assert_eq!(after[1], blank);
        let fresh = after[2].chars().filter(|c| is_printable(*c)).count();
        assert_eq!(fresh, 1);
        assert_eq!(after[2].chars().filter(|c| *c == '\u{1}').count(), 3);
        // The second child inherits from the first and is mutated itself.
        let second = after[3].chars().filter(|c| is_printable(*c)).count();
        assert!(second == 1 || second == 2);
    }
}

#[test]
fn low_rate_leaves_most_children_alone() {
    let blank = "\u{1}\u{1}\u{1}\u{1}";
    let rate = MutationRate::new(1, 1_000_000).unwrap();
    let mut mutated = 0;
    for _ in 0..200 {
        let agents = (0..4).map(|_| agent(blank)).collect();
        let mut p = Population::new("abcd", agents, rate);
        p.breed();
        mutated += genomes(&p).iter().filter(|g| g.as_str() != blank).count();
    }
    assert!(mutated < 20);
}

#[test]
fn half_rate_mutates_some_children_and_not_others() {
    let blank = "\u{1}\u{1}\u{1}\u{1}";
    let rate = MutationRate::new(1, 2).unwrap();
    let mut mutated = 0;
    let mut untouched = 0;
    for _ in 0..200 {
        let agents = (0..4).map(|_| agent(blank)).collect();
        let mut p = Population::new("abcd", agents, rate);
        p.breed();
        if genomes(&p)[2] == blank {
            untouched += 1;
        } else {
            mutated += 1;
        }
    }
    assert!(mutated > 0);
    assert!(untouched > 0);
}

#[test]
fn minimum_population_survives_many_generations() {
    for n in [4usize, 5] {
        let mut p = Population::random("boundary", n, MutationRate::always());
        for _ in 0..200 {
            p.select();
            p.breed();
            assert_eq!(p.agents().len(), n);
        }
        assert_eq!(p.generation(), 200);
    }
}

#[test]
fn best_fitness_never_falls() {
    let mut p = Population::random("elitism", 9, MutationRate::always());
    let mut best = 0;
    for _ in 0..300 {
        p.select();
        assert!(p.max_fitness().matches >= best);
        best = p.max_fitness().matches;
        p.breed();
    }
}

fn evolve(target: &str, num_agents: usize, rate: MutationRate, limit: usize) -> Option<(usize, String)> {
    let mut p = Population::random(target, num_agents, rate);
    while !p.max_fitness().is_perfect() {
        if p.generation() >= limit {
            return None;
        }
        p.select();
        p.breed();
    }
    Some((p.generation(), p.fittest().unwrap().to_string()))
}

#[test]
fn two_character_target_is_found() {
    let (generations, fittest) = evolve("AB", 4, MutationRate::always(), 1_000_000).unwrap();
    assert_eq!(fittest, "AB");
    assert!(generations >= 1);
}

#[test]
fn found_target_has_fitness_one() {
    let mut p = Population::random("AB", 4, MutationRate::always());
    let mut rounds = 0;
    while !p.max_fitness().is_perfect() {
        assert!(rounds < 1_000_000);
        p.select();
        p.breed();
        rounds += 1;
    }
    assert_eq!(p.max_fitness(), Fitness { matches: 2, positions: 2 });
    assert_eq!(p.max_fitness().matches as f64 / p.max_fitness().positions as f64, 1.0);
    assert_eq!(p.fittest().unwrap().to_string(), "AB");
}

#[test]
fn single_character_target_is_found() {
    let (_, fittest) = evolve("X", 4, MutationRate::always(), 1_000_000).unwrap();
    assert_eq!(fittest, "X");
}

#[test]
fn longer_target_is_found_by_a_larger_population() {
    let (_, fittest) = evolve("To be", 100, MutationRate::new(1, 2).unwrap(), 1_000_000).unwrap();
    assert_eq!(fittest, "To be");
}

fn seeded_agent(rng: &mut StdRng, len: usize) -> Agent {
    Agent::new((0..len).map(|_| rng.gen_range(32u8..=126) as char).collect())
}

/// The search with every draw taken from a seeded generator: the number of
/// generations until the target is found, within `limit`.
fn seeded_search(target: &str, num_agents: usize, seed: u64, limit: usize) -> Option<usize> {
    let mut rng = StdRng::seed_from_u64(seed);
    let len = target.chars().count();
    let agents = (0..num_agents).map(|_| seeded_agent(&mut rng, len)).collect();
    let mut p = Population::new(target, agents, MutationRate::always());
    loop {
        p.select();
        if p.max_fitness().is_perfect() {
            assert_eq!(p.fittest().unwrap().to_string(), target);
            return Some(p.generation());
        }
        if p.generation() >= limit {
            return None;
        }
        let children = num_agents / 2 + num_agents % 2;
        let plan = (0..children)
            .map(|_| {
                let index = rng.gen_range(0..len);
                let gene = rng.gen_range(32u8..=126) as char;
                Some(Mutation { index, gene })
            })
            .collect();
        p.breed_with(&plan);
    }
}

#[test]
fn seeded_search_for_two_characters_terminates() {
    let generations = seeded_search("AB", 4, 42, 100_000);
    assert!(generations.is_some());
}

#[test]
fn seeded_search_is_reproducible() {
    let first = seeded_search("AB", 4, 7, 100_000);
    let second = seeded_search("AB", 4, 7, 100_000);
    assert!(first.is_some());
    assert_eq!(first, second);
}

#[test]
fn seeded_search_for_one_character_terminates() {
    for seed in 0..10u64 {
        assert!(seeded_search("X", 4, seed, 100_000).is_some());
    }
}

#[test]
fn seeded_search_with_odd_population_terminates() {
    assert!(seeded_search("odd", 5, 3, 1_000_000).is_some());
}
