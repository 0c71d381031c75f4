use ga_engine::domain::{ConfigError, Domain, DomainCategory};
use ga_engine::engine::{GAOptimizer, build_cdf, crossover_at, select_index, select_parent};
use ga_engine::fitness::SumFitness;

#[test]
fn new_rejects_domain_count_mismatch() {
    let domains = vec![Domain::new(DomainCategory::Integers, Some(vec![0, 10])).unwrap()];
    let r = GAOptimizer::new(2, domains, 1, 4, 1, 2, SumFitness);
    assert_eq!(r.err().unwrap(), ConfigError::DomainCountMismatch);
}

#[test]
fn new_rejects_bad_mutation_rate() {
    let domains = vec![
        Domain::new(DomainCategory::Integers, Some(vec![0, 10])).unwrap(),
        Domain::new(DomainCategory::Integers, Some(vec![0, 10])).unwrap(),
    ];
    let r = GAOptimizer::new(2, domains, 1, 4, 1, 0, SumFitness);
    assert_eq!(r.err().unwrap(), ConfigError::InvalidMutationRate);
    let domains = vec![
        Domain::new(DomainCategory::Integers, Some(vec![0, 10])).unwrap(),
        Domain::new(DomainCategory::Integers, Some(vec![0, 10])).unwrap(),
    ];
    let r = GAOptimizer::new(2, domains, 1, 4, 3, 2, SumFitness);
    assert_eq!(r.err().unwrap(), ConfigError::InvalidMutationRate);
}

#[test]
fn new_rejects_malformed_domain() {
    let domains = vec![
        Domain::new(DomainCategory::Integers, Some(vec![0, 10])).unwrap(),
        Domain { category: DomainCategory::DiscreteSet, values: vec![] },
    ];
    let r = GAOptimizer::new(2, domains, 1, 4, 1, 2, SumFitness);
    assert_eq!(r.err().unwrap(), ConfigError::MalformedDomain);
}

#[test]
fn crossover_at_exchanges_tails() {
    let p1 = vec![1, 2, 3, 4];
    let p2 = vec![5, 6, 7, 8];
    let (o1, o2) = crossover_at(&p1, &p2, 2);
    assert_eq!(o1, vec![1, 2, 7, 8]);
    assert_eq!(o2, vec![5, 6, 3, 4]);
}

#[test]
fn crossover_is_a_partition_at_every_split() {
    let p1 = vec![10, 20, 30, 40, 50];
    let p2 = vec![-1, -2, -3, -4, -5];
    for split in 1..5 {
        let (o1, o2) = crossover_at(&p1, &p2, split);
        for j in 0..5 {
            let offspring = [o1[j], o2[j]];
            let parents = [p1[j], p2[j]];
            let swapped = [p2[j], p1[j]];
            assert!(offspring == parents || offspring == swapped);
        }
    }
}

#[test]
fn build_cdf_is_prefix_sums() {
    let cdf = build_cdf(&vec![2, 0, 3]);
    assert_eq!(cdf, vec![2, 2, 5]);
    let cdf = build_cdf(&vec![]);
    assert!(cdf.is_empty());
}

#[test]
fn select_index_finds_first_strictly_greater() {
    let cdf = vec![2, 2, 5];
    assert_eq!(select_index(&cdf, 0), 0);
    assert_eq!(select_index(&cdf, 1), 0);
    assert_eq!(select_index(&cdf, 2), 2);
    assert_eq!(select_index(&cdf, 4), 2);
}

#[test]
fn selection_never_picks_zero_weight() {
    let weights = vec![0, 5, 0, 7];
    let cdf = build_cdf(&weights);
    for _ in 0..300 {
        let idx = select_parent(&weights, &cdf);
        assert!(idx == 1 || idx == 3);
    }
}

#[test]
fn selection_with_all_zero_weights_is_uniform() {
    // A constant fitness vector rescales to all-zero weights; selection must
    // fall back to a uniform draw instead of crashing.
    let weights = vec![0u64; 10];
    let cdf = build_cdf(&weights);
    let mut counts = [0usize; 10];
    let trials = 20000;
    for _ in 0..trials {
        let idx = select_parent(&weights, &cdf);
        counts[idx] += 1;
    }
    for &c in counts.iter() {
        // expectation is 2000 per slot; allow a generous tolerance
        assert!(c > 1300 && c < 2700, "uniform fallback looks biased: {:?}", counts);
    }
}

#[test]
fn selection_with_equal_positive_weights_is_uniform() {
    let weights = vec![5u64; 8];
    let cdf = build_cdf(&weights);
    let mut counts = [0usize; 8];
    let trials = 16000;
    for _ in 0..trials {
        let idx = select_parent(&weights, &cdf);
        counts[idx] += 1;
    }
    for &c in counts.iter() {
        assert!(c > 1300 && c < 2700, "roulette over equal weights looks biased: {:?}", counts);
    }
}

#[test]
fn mutate_changes_at_most_the_rate_share() {
    let domains = vec![
        Domain::new(DomainCategory::Integers, Some(vec![0, 1000])).unwrap(),
        Domain::new(DomainCategory::Integers, Some(vec![0, 1000])).unwrap(),
        Domain::new(DomainCategory::Integers, Some(vec![0, 1000])).unwrap(),
        Domain::new(DomainCategory::Integers, Some(vec![0, 1000])).unwrap(),
    ];
    // rate 1/2 over four genes: at most two positions may change
    let opt = GAOptimizer::new(4, domains, 1, 2, 1, 2, SumFitness).unwrap();
    for _ in 0..100 {
        let mut c = vec![1, 2, 3, 4];
        opt.mutate(&mut c);
        assert_eq!(c.len(), 4);
        let changed = c
            .iter()
            .zip([1i64, 2, 3, 4].iter())
            .filter(|(a, b)| a != b)
            .count();
        assert!(changed <= 2);
        for v in c.iter() {
            assert!((0..1000).contains(v));
        }
    }
}

#[test]
fn mutate_with_zero_rate_changes_nothing() {
    let domains = vec![
        Domain::new(DomainCategory::Integers, Some(vec![0, 1000])).unwrap(),
        Domain::new(DomainCategory::Integers, Some(vec![0, 1000])).unwrap(),
    ];
    let opt = GAOptimizer::new(2, domains, 1, 2, 0, 1, SumFitness).unwrap();
    let mut c = vec![17, 23];
    opt.mutate(&mut c);
    assert_eq!(c, vec![17, 23]);
}

#[test]
fn initialize_population_respects_domains() {
    let domains = vec![
        Domain::new(DomainCategory::Integers, Some(vec![0, 10])).unwrap(),
        Domain::new(DomainCategory::Reals, Some(vec![-3, 3])).unwrap(),
        Domain::new(DomainCategory::DiscreteSet, Some(vec![7, 9])).unwrap(),
    ];
    let mut opt = GAOptimizer::new(3, domains, 1, 7, 1, 2, SumFitness).unwrap();
    opt.initialize_population();
    assert_eq!(opt.population_matrix.len(), 7);
    for c in opt.population_matrix.iter() {
        assert_eq!(c.len(), 3);
        assert!((0..10).contains(&c[0]));
        assert!((-3..3).contains(&c[1]));
        assert!(c[2] == 7 || c[2] == 9);
    }
}

#[test]
fn fitness_vector_is_index_aligned_and_rescaled() {
    // Single-valued discrete domains make the population deterministic.
    let domains = vec![
        Domain::new(DomainCategory::DiscreteSet, Some(vec![2])).unwrap(),
        Domain::new(DomainCategory::DiscreteSet, Some(vec![3])).unwrap(),
    ];
    let mut opt = GAOptimizer::new(2, domains, 1, 4, 0, 1, SumFitness).unwrap();
    opt.initialize_population();
    let mut fv: Vec<u64> = Vec::new();
    opt.compute_population_fitness(&mut fv);
    // every chromosome is [2, 3], so every raw score is 5 and rescaling
    // by the minimum leaves an all-zero, index-aligned vector
    assert_eq!(fv, vec![0, 0, 0, 0]);
    assert_eq!(opt.best_solution_fitness, 5);
    assert_eq!(opt.best_solution, vec![2, 3]);
}

#[test]
fn best_fitness_never_decreases_across_generations() {
    let domains = vec![
        Domain::new(DomainCategory::Integers, Some(vec![0, 50])).unwrap(),
        Domain::new(DomainCategory::Integers, Some(vec![0, 50])).unwrap(),
    ];
    let mut opt = GAOptimizer::new(2, domains, 1, 6, 1, 4, SumFitness).unwrap();
    opt.initialize_population();
    let mut fv: Vec<u64> = Vec::new();
    let mut last_best = i64::MIN;
    for _ in 0..10 {
        opt.compute_population_fitness(&mut fv);
        assert!(opt.best_solution_fitness >= last_best);
        last_best = opt.best_solution_fitness;
        opt.roulette_wheel_selection(&fv).unwrap();
    }
}
