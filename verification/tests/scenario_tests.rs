use ga_engine::domain::{ConfigError, Domain, DomainCategory};
use ga_engine::engine::{FatalSelectionError, GAOptimizer, sample_chromosome};
use ga_engine::fitness::{ConstFitness, FitnessFn, KnapsackFitness, SumFitness};

#[test]
fn one_generation_best_is_max_sum_of_initial_population() {
    // three genes over [0, 10), population of four, fitness = sum of genes,
    // one generation: the best record must equal the maximum per-gene sum
    // observed in the recorded initial population
    let domains = vec![
        Domain::new(DomainCategory::Reals, Some(vec![0, 10])).unwrap(),
        Domain::new(DomainCategory::Reals, Some(vec![0, 10])).unwrap(),
        Domain::new(DomainCategory::Reals, Some(vec![0, 10])).unwrap(),
    ];
    let mut opt = GAOptimizer::new(3, domains, 1, 4, 1, 4, SumFitness).unwrap();
    opt.initialize_population();
    let initial = opt.population_matrix.clone();
    let max_sum = initial
        .iter()
        .map(|c| c.iter().sum::<i64>())
        .max()
        .unwrap();
    assert!((0..30).contains(&max_sum));

    // one full generation: evaluate, then reproduce
    let mut fv: Vec<u64> = Vec::new();
    opt.compute_population_fitness(&mut fv);
    opt.roulette_wheel_selection(&fv).unwrap();

    assert_eq!(opt.best_solution_fitness, max_sum);
    let recorded_sum: i64 = opt.best_solution.iter().sum();
    assert_eq!(recorded_sum, max_sum);
    assert!(initial.contains(&opt.best_solution));
}

#[test]
fn zero_generations_leave_best_record_unset() {
    // a single-gene population cannot be bred (crossover needs two genes),
    // but domain-constrained sampling itself works for one gene
    let single = vec![Domain::new(DomainCategory::DiscreteSet, Some(vec![1, 2, 3])).unwrap()];
    for _ in 0..10 {
        let c = sample_chromosome(&single);
        assert_eq!(c.len(), 1);
        assert!(c[0] == 1 || c[0] == 2 || c[0] == 3);
    }

    // a zero-generation run evaluates nothing: population exists, record unset
    let domains = vec![
        Domain::new(DomainCategory::DiscreteSet, Some(vec![1, 2, 3])).unwrap(),
        Domain::new(DomainCategory::DiscreteSet, Some(vec![1, 2, 3])).unwrap(),
    ];
    let mut opt = GAOptimizer::new(2, domains, 0, 10, 1, 2, SumFitness).unwrap();
    opt.run().unwrap();
    assert_eq!(opt.population_matrix.len(), 10);
    for c in opt.population_matrix.iter() {
        assert_eq!(c.len(), 2);
        assert!(c.iter().all(|v| *v == 1 || *v == 2 || *v == 3));
    }
    assert!(opt.best_solution.is_empty());
    assert_eq!(opt.best_solution_fitness, i64::MIN);
}

#[test]
fn single_gene_configuration_is_rejected() {
    let domains = vec![Domain::new(DomainCategory::DiscreteSet, Some(vec![1, 2, 3])).unwrap()];
    let r = GAOptimizer::new(1, domains, 5, 10, 1, 2, SumFitness);
    assert_eq!(r.err().unwrap(), ConfigError::TooFewGenes);
}

#[test]
fn run_returns_best_with_its_own_score() {
    let domains = vec![
        Domain::new(DomainCategory::Integers, Some(vec![0, 100])).unwrap(),
        Domain::new(DomainCategory::Integers, Some(vec![0, 100])).unwrap(),
    ];
    // odd population size: reproduction truncates back to exactly nine
    let mut opt = GAOptimizer::new(2, domains, 3, 9, 1, 4, SumFitness).unwrap();
    opt.run().unwrap();
    assert_eq!(opt.population_matrix.len(), 9);
    assert_eq!(opt.best_solution.len(), 2);
    assert!(opt.best_solution.iter().all(|v| (0..100).contains(v)));
    let sum: i64 = opt.best_solution.iter().sum();
    assert_eq!(opt.best_solution_fitness, sum);
}

#[test]
fn constant_fitness_population_does_not_crash() {
    // every chromosome scores the same, the roulette wheel degenerates, and
    // the uniform fallback must keep the run alive
    let domains = vec![
        Domain::new(DomainCategory::Integers, Some(vec![0, 10])).unwrap(),
        Domain::new(DomainCategory::Integers, Some(vec![0, 10])).unwrap(),
    ];
    let mut opt = GAOptimizer::new(2, domains, 5, 8, 1, 2, ConstFitness { value: 42 }).unwrap();
    opt.run().unwrap();
    assert_eq!(opt.best_solution_fitness, 42);
    assert_eq!(opt.population_matrix.len(), 8);
}

#[test]
fn empty_population_is_a_fatal_selection_error() {
    let domains = vec![
        Domain::new(DomainCategory::Integers, Some(vec![0, 10])).unwrap(),
        Domain::new(DomainCategory::Integers, Some(vec![0, 10])).unwrap(),
    ];
    let mut opt = GAOptimizer::new(2, domains, 1, 0, 1, 2, SumFitness).unwrap();
    assert_eq!(opt.run().unwrap_err(), FatalSelectionError);
}

#[test]
fn knapsack_scorer_scores_exactly() {
    let k = KnapsackFitness { weights: vec![2, 3], profits: vec![10, 1], weight_limit: 100 };
    // weight runs 2*4 = 8 then 8 + 3*5 = 23; profit is 23 + 5*1 = 28
    assert_eq!(k.score(&vec![4, 5]), 28);
    // over the limit: weight 2*60 = 120 > 100, so the score is -120
    assert_eq!(k.score(&vec![60, 0]), -120);
}

#[test]
fn knapsack_scorer_drives_the_search() {
    let domains = vec![
        Domain::new(DomainCategory::Integers, Some(vec![0, 10])).unwrap(),
        Domain::new(DomainCategory::Integers, Some(vec![0, 10])).unwrap(),
    ];
    let scorer = KnapsackFitness { weights: vec![4, 3], profits: vec![12, 1], weight_limit: 100 };
    let mut opt = GAOptimizer::new(2, domains, 4, 12, 1, 2, scorer).unwrap();
    opt.run().unwrap();
    let check = KnapsackFitness { weights: vec![4, 3], profits: vec![12, 1], weight_limit: 100 };
    assert_eq!(opt.best_solution_fitness, check.score(&opt.best_solution));
}
