use vstd::prelude::*;
use vstd::multiset::Multiset;
use crate::domain::{ConfigError, Domain, sample_gene};
use crate::fitness::FitnessFn;
use crate::rng::{rand_u128_range, rand_usize_range, shuffle_usizes};

verus! {

/// The fallback for a degenerate roulette wheel is uniform selection; only an
/// empty population leaves no valid selection at all, which is fatal.
#[derive(Clone, Copy, PartialEq, Eq, Structural, Debug)]
pub struct FatalSelectionError;

/// The genetic-algorithm engine: an immutable run configuration, the current
/// population, and the best solution observed so far.
///
/// The mutation rate is the exact fraction `mutation_num / mutation_den`
/// of gene positions (rounded down) resampled per offspring.
pub struct GAOptimizer<F: FitnessFn> {
    pub genes: usize,
    pub gene_domains: Vec<Domain>,
    pub generations: usize,
    pub population_size: usize,
    pub mutation_num: u64,
    pub mutation_den: u64,
    pub fitness_function: F,
    pub best_solution_fitness: i64,
    pub best_solution: Vec<i64>,
    pub population_matrix: Vec<Vec<i64>>,
}

impl<F: FitnessFn> GAOptimizer<F> {
    /// The configuration invariant, established by `new` and kept for the
    /// whole run.
    pub open spec fn wf(&self) -> bool {
        &&& self.genes >= 2
        &&& self.gene_domains@.len() == self.genes
        &&& forall|i: int| 0 <= i < self.gene_domains@.len() ==> (#[trigger] self.gene_domains@[i]).wf()
        &&& self.mutation_den >= 1
        &&& self.mutation_num <= self.mutation_den
    }

    /// A legal candidate solution: one gene value per position, each inside
    /// its declared domain.
    pub open spec fn chromosome_wf(&self, c: Seq<i64>) -> bool {
        &&& c.len() == self.genes
        &&& forall|j: int| 0 <= j < c.len() ==> self.gene_domains@[j].contains_value(#[trigger] c[j])
    }

    /// The population invariant: exactly `population_size` legal chromosomes.
    pub open spec fn population_wf(&self) -> bool {
        &&& self.population_matrix@.len() == self.population_size
        &&& forall|i: int| 0 <= i < self.population_matrix@.len()
            ==> self.chromosome_wf((#[trigger] self.population_matrix@[i])@)
    }

    /// The run configuration of `other`, unchanged in `self`.
    pub open spec fn same_config(&self, other: &Self) -> bool {
        &&& self.genes == other.genes
        &&& self.gene_domains == other.gene_domains
        &&& self.generations == other.generations
        &&& self.population_size == other.population_size
        &&& self.mutation_num == other.mutation_num
        &&& self.mutation_den == other.mutation_den
        &&& self.fitness_function == other.fitness_function
    }

    /// How many gene positions one mutation pass resamples:
    /// `floor(genes * mutation_num / mutation_den)`.
    pub open spec fn mutation_count(&self) -> int {
        (self.genes as int * self.mutation_num as int) / self.mutation_den as int
    }

    /// The raw fitness score of every current population member, index by
    /// index.
    pub open spec fn scores(&self) -> Seq<i64> {
        Seq::new(self.population_matrix@.len(), |i: int| self.fitness_function.score_spec(self.population_matrix@[i]@))
    }

    /// Builds an optimizer after validating the configuration: at least two
    /// genes (single-point crossover needs both sides non-empty), one
    /// well-formed domain per gene, and a mutation rate
    /// `mutation_num / mutation_den` inside `[0, 1]`.
    ///
    /// The best-solution record starts unset: lowest representable fitness
    /// and an empty chromosome.
    pub fn new(
        genes: usize,
        gene_domains: Vec<Domain>,
        generations: usize,
        population_size: usize,
        mutation_num: u64,
        mutation_den: u64,
        fitness_function: F,
    ) -> (r: Result<GAOptimizer<F>, ConfigError>)
        ensures
            r matches Err(e) && e == ConfigError::TooFewGenes <==> genes < 2,
            r matches Err(e) && e == ConfigError::DomainCountMismatch
                <==> genes >= 2 && gene_domains@.len() != genes,
            r matches Err(e) && e == ConfigError::InvalidMutationRate
                <==> genes >= 2 && gene_domains@.len() == genes
                    && (mutation_den == 0 || mutation_num > mutation_den),
            r matches Err(e) && e == ConfigError::MalformedDomain
                <==> genes >= 2 && gene_domains@.len() == genes
                    && mutation_den >= 1 && mutation_num <= mutation_den
                    && !(forall|i: int| 0 <= i < gene_domains@.len()
                        ==> (#[trigger] gene_domains@[i]).wf()),
            r matches Ok(o) ==> o.wf()
                && o.genes == genes
                && o.gene_domains == gene_domains
                && o.generations == generations
                && o.population_size == population_size
                && o.mutation_num == mutation_num
                && o.mutation_den == mutation_den
                && o.fitness_function == fitness_function
                && o.best_solution_fitness == i64::MIN
                && o.best_solution@ =~= Seq::<i64>::empty()
                && o.population_matrix@ =~= Seq::<Vec<i64>>::empty(),
            r is Ok <==> genes >= 2 && gene_domains@.len() == genes
                && mutation_den >= 1 && mutation_num <= mutation_den
                && (forall|i: int| 0 <= i < gene_domains@.len()
                    ==> (#[trigger] gene_domains@[i]).wf()),
    {
        if genes < 2 {
            return Err(ConfigError::TooFewGenes);
        }
        if gene_domains.len() != genes {
            return Err(ConfigError::DomainCountMismatch);
        }
        if mutation_den == 0 || mutation_num > mutation_den {
            return Err(ConfigError::InvalidMutationRate);
        }
        let mut i: usize = 0;
        while i < gene_domains.len()
            invariant
                i <= gene_domains@.len(),
                genes >= 2,
                gene_domains@.len() == genes,
                mutation_den >= 1,
                mutation_num <= mutation_den,
                forall|j: int| 0 <= j < i ==> (#[trigger] gene_domains@[j]).wf(),
            decreases gene_domains@.len() - i,
        {
            if !gene_domains[i].is_wf() {
                return Err(ConfigError::MalformedDomain);
            }
            i = i + 1;
        }
        Ok(GAOptimizer {
            genes,
            gene_domains,
            generations,
            population_size,
            mutation_num,
            mutation_den,
            fitness_function,
            best_solution_fitness: i64::MIN,
            best_solution: Vec::new(),
            population_matrix: Vec::new(),
        })
    }
}

/// Builds one chromosome by sampling every gene position independently from
/// its domain.
pub fn sample_chromosome(domains: &Vec<Domain>) -> (c: Vec<i64>)
    requires
        forall|i: int| 0 <= i < domains@.len() ==> (#[trigger] domains@[i]).wf(),
    ensures
        c@.len() == domains@.len(),
        forall|i: int| 0 <= i < c@.len() ==> domains@[i].contains_value(#[trigger] c@[i]),
{
    let mut c: Vec<i64> = Vec::new();
    let mut i: usize = 0;
    while i < domains.len()
        invariant
            i <= domains@.len(),
            c@.len() == i,
            forall|k: int| 0 <= k < domains@.len() ==> (#[trigger] domains@[k]).wf(),
            forall|k: int| 0 <= k < i ==> domains@[k].contains_value(#[trigger] c@[k]),
        decreases domains@.len() - i,
    {
        let g = sample_gene(&domains[i]);
        c.push(g);
        i = i + 1;
    }
    c
}

impl<F: FitnessFn> GAOptimizer<F> {
    /// Replaces the population with `population_size` freshly sampled
    /// chromosomes, each gene drawn independently from its domain.
    pub fn initialize_population(&mut self)
        requires
            old(self).wf(),
        ensures
            final(self).wf(),
            final(self).population_wf(),
            final(self).same_config(old(self)),
            final(self).best_solution_fitness == old(self).best_solution_fitness,
            final(self).best_solution == old(self).best_solution,
    {
        let mut pop: Vec<Vec<i64>> = Vec::new();
        let mut i: usize = 0;
        while i < self.population_size
            invariant
                i <= self.population_size,
                pop@.len() == i,
                self.wf(),
                forall|k: int| 0 <= k < i ==> self.chromosome_wf((#[trigger] pop@[k])@),
            decreases self.population_size - i,
        {
            let c = sample_chromosome(&self.gene_domains);
            pop.push(c);
            i = i + 1;
        }
        self.population_matrix = pop;
    }
}

} // verus!

verus! {

/// Exact single-point recombination at split `s`: up to `s` each offspring
/// copies its own parent, from `s` on the parents are exchanged.
pub open spec fn is_crossover(p1: Seq<i64>, p2: Seq<i64>, o1: Seq<i64>, o2: Seq<i64>, s: int) -> bool {
    &&& p2.len() == p1.len()
    &&& o1.len() == p1.len()
    &&& o2.len() == p1.len()
    &&& forall|j: int| #![trigger o1[j]] #![trigger o2[j]]
        0 <= j < s && j < p1.len() ==> o1[j] == p1[j] && o2[j] == p2[j]
    &&& forall|j: int| #![trigger o1[j]] #![trigger o2[j]]
        s <= j < p1.len() ==> o1[j] == p2[j] && o2[j] == p1[j]
}

/// Single-point crossover of two equal-length parents at a given split.
pub fn crossover_at(parent1: &Vec<i64>, parent2: &Vec<i64>, split: usize) -> (off: (Vec<i64>, Vec<i64>))
    requires
        parent1@.len() == parent2@.len(),
        1 <= split < parent1@.len(),
    ensures
        is_crossover(parent1@, parent2@, off.0@, off.1@, split as int),
{
    let n = parent1.len();
    let mut o1: Vec<i64> = Vec::new();
    let mut o2: Vec<i64> = Vec::new();
    let mut j: usize = 0;
    while j < n
        invariant
            j <= n,
            n == parent1@.len(),
            n == parent2@.len(),
            o1@.len() == j,
            o2@.len() == j,
            forall|t: int| #![trigger o1@[t]] #![trigger o2@[t]]
                0 <= t < j && t < split ==> o1@[t] == parent1@[t] && o2@[t] == parent2@[t],
            forall|t: int| #![trigger o1@[t]] #![trigger o2@[t]]
                split <= t < j ==> o1@[t] == parent2@[t] && o2@[t] == parent1@[t],
        decreases n - j,
    {
        let ghost old_o1 = o1@;
        let ghost old_o2 = o2@;
        if j < split {
            o1.push(parent1[j]);
            o2.push(parent2[j]);
            proof {
                assert(o1@[j as int] == parent1@[j as int]);
                assert(o2@[j as int] == parent2@[j as int]);
                assert(forall|t: int| #![trigger o1@[t]] #![trigger o2@[t]]
                    0 <= t < j ==> o1@[t] == old_o1[t] && o2@[t] == old_o2[t]);
            }
        } else {
            o1.push(parent2[j]);
            o2.push(parent1[j]);
            proof {
                assert(o1@[j as int] == parent2@[j as int]);
                assert(o2@[j as int] == parent1@[j as int]);
                assert(forall|t: int| #![trigger o1@[t]] #![trigger o2@[t]]
                    0 <= t < j ==> o1@[t] == old_o1[t] && o2@[t] == old_o2[t]);
            }
        }
        j = j + 1;
    }
    (o1, o2)
}

/// The (position, value) pairs of a chromosome, in order.
pub open spec fn position_pairs_seq(c: Seq<i64>) -> Seq<(int, i64)> {
    Seq::new(c.len(), |i: int| (i, c[i]))
}

/// The multiset of (position, value) pairs of a chromosome.
pub open spec fn position_pairs(c: Seq<i64>) -> Multiset<(int, i64)> {
    position_pairs_seq(c).to_multiset()
}

proof fn lemma_pairs_prefix(p1: Seq<i64>, p2: Seq<i64>, o1: Seq<i64>, o2: Seq<i64>, s: int, n: int)
    requires
        is_crossover(p1, p2, o1, o2, s),
        0 <= n <= p1.len(),
    ensures
        position_pairs_seq(o1).take(n).to_multiset().add(position_pairs_seq(o2).take(n).to_multiset())
            =~= position_pairs_seq(p1).take(n).to_multiset().add(position_pairs_seq(p2).take(n).to_multiset()),
    decreases n,
{
    broadcast use vstd::seq_lib::to_multiset_build;
    broadcast use vstd::multiset::group_multiset_axioms;

    if n > 0 {
        lemma_pairs_prefix(p1, p2, o1, o2, s, n - 1);
        let a = position_pairs_seq(o1);
        let b = position_pairs_seq(o2);
        let c = position_pairs_seq(p1);
        let d = position_pairs_seq(p2);
        assert(a.take(n) =~= a.take(n - 1).push((n - 1, o1[n - 1])));
        assert(b.take(n) =~= b.take(n - 1).push((n - 1, o2[n - 1])));
        assert(c.take(n) =~= c.take(n - 1).push((n - 1, p1[n - 1])));
        assert(d.take(n) =~= d.take(n - 1).push((n - 1, p2[n - 1])));
        assert(a.take(n - 1).push((n - 1, o1[n - 1])).to_multiset()
            =~= a.take(n - 1).to_multiset().insert((n - 1, o1[n - 1])));
        assert(b.take(n - 1).push((n - 1, o2[n - 1])).to_multiset()
            =~= b.take(n - 1).to_multiset().insert((n - 1, o2[n - 1])));
        assert(c.take(n - 1).push((n - 1, p1[n - 1])).to_multiset()
            =~= c.take(n - 1).to_multiset().insert((n - 1, p1[n - 1])));
        assert(d.take(n - 1).push((n - 1, p2[n - 1])).to_multiset()
            =~= d.take(n - 1).to_multiset().insert((n - 1, p2[n - 1])));
        if n - 1 < s {
            assert(o1[n - 1] == p1[n - 1] && o2[n - 1] == p2[n - 1]);
        } else {
            assert(o1[n - 1] == p2[n - 1] && o2[n - 1] == p1[n - 1]);
        }
        let x1 = (n - 1, o1[n - 1]);
        let x2 = (n - 1, o2[n - 1]);
        let y1 = (n - 1, p1[n - 1]);
        let y2 = (n - 1, p2[n - 1]);
        assert(a.take(n).to_multiset() == a.take(n - 1).to_multiset().insert(x1));
        assert(b.take(n).to_multiset() == b.take(n - 1).to_multiset().insert(x2));
        assert(c.take(n).to_multiset() == c.take(n - 1).to_multiset().insert(y1));
        assert(d.take(n).to_multiset() == d.take(n - 1).to_multiset().insert(y2));
        assert forall|e: (int, i64)|
            a.take(n).to_multiset().add(b.take(n).to_multiset()).count(e)
                == c.take(n).to_multiset().add(d.take(n).to_multiset()).count(e) by {
            broadcast use vstd::multiset::group_multiset_axioms;

            assert(a.take(n - 1).to_multiset().add(b.take(n - 1).to_multiset()).count(e)
                == c.take(n - 1).to_multiset().add(d.take(n - 1).to_multiset()).count(e));
            assert(a.take(n).to_multiset().count(e)
                == a.take(n - 1).to_multiset().count(e) + Multiset::singleton(x1).count(e));
            assert(b.take(n).to_multiset().count(e)
                == b.take(n - 1).to_multiset().count(e) + Multiset::singleton(x2).count(e));
            assert(c.take(n).to_multiset().count(e)
                == c.take(n - 1).to_multiset().count(e) + Multiset::singleton(y1).count(e));
            assert(d.take(n).to_multiset().count(e)
                == d.take(n - 1).to_multiset().count(e) + Multiset::singleton(y2).count(e));
        }
        assert(a.take(n).to_multiset().add(b.take(n).to_multiset())
            =~= c.take(n).to_multiset().add(d.take(n).to_multiset()));
    } else {
        let a = position_pairs_seq(o1);
        let b = position_pairs_seq(o2);
        let c = position_pairs_seq(p1);
        let d = position_pairs_seq(p2);
        assert(a.take(0) =~= b.take(0));
        assert(a.take(0) =~= c.take(0));
        assert(a.take(0) =~= d.take(0));
    }
}

/// Law: single-point crossover is a partition of the parents' genes. For any
/// two equal-length parents and any split, the two offspring together hold
/// exactly the same multiset of (position, value) pairs as the two parents.
pub proof fn lemma_crossover_partition(p1: Seq<i64>, p2: Seq<i64>, o1: Seq<i64>, o2: Seq<i64>, s: int)
    requires
        is_crossover(p1, p2, o1, o2, s),
    ensures
        position_pairs(o1).add(position_pairs(o2)) =~= position_pairs(p1).add(position_pairs(p2)),
{
    let n = p1.len() as int;
    lemma_pairs_prefix(p1, p2, o1, o2, s, n);
    assert(position_pairs_seq(o1).take(n) =~= position_pairs_seq(o1));
    assert(position_pairs_seq(o2).take(n) =~= position_pairs_seq(o2));
    assert(position_pairs_seq(p1).take(n) =~= position_pairs_seq(p1));
    assert(position_pairs_seq(p2).take(n) =~= position_pairs_seq(p2));
}

} // verus!

verus! {

impl<F: FitnessFn> GAOptimizer<F> {
    /// Computes `floor(genes * mutation_num / mutation_den)`, the number of
    /// gene positions one mutation pass resamples.
    pub fn mutation_positions(&self) -> (k: usize)
        requires
            self.wf(),
        ensures
            k as int == self.mutation_count(),
            k <= self.genes,
    {
        let g: u128 = self.genes as u128;
        let n: u128 = self.mutation_num as u128;
        let d: u128 = self.mutation_den as u128;
        proof {
            vstd::arithmetic::mul::lemma_mul_upper_bound(
                g as int, u64::MAX as int, n as int, u64::MAX as int);
            assert(g as int * n as int <= g as int * d as int) by {
                vstd::arithmetic::mul::lemma_mul_inequality(n as int, d as int, g as int);
                vstd::arithmetic::mul::lemma_mul_is_commutative(n as int, g as int);
                vstd::arithmetic::mul::lemma_mul_is_commutative(d as int, g as int);
            }
            assert((g as int * n as int) / (d as int) <= (g as int * d as int) / (d as int)) by {
                vstd::arithmetic::div_mod::lemma_div_is_ordered(
                    g as int * n as int, g as int * d as int, d as int);
            }
            assert((g as int * d as int) / (d as int) == g as int) by {
                vstd::arithmetic::div_mod::lemma_div_multiples_vanish(g as int, d as int);
            }
        }
        let k: u128 = (g * n) / d;
        k as usize
    }

    /// `c` is `m` after one mutation pass: at most `mutation_count()`
    /// positions differ, and every position of `c` that differs from `m`
    /// holds a value of its domain.
    pub open spec fn mutated_from(&self, m: Seq<i64>, c: Seq<i64>) -> bool {
        &&& c.len() == m.len()
        &&& (forall|j: int| 0 <= j < c.len()
            ==> (#[trigger] c[j]) == m[j] || self.gene_domains@[j].contains_value(c[j]))
        &&& exists|touched: Set<int>| touched.finite()
            && touched.len() <= self.mutation_count()
            && (forall|j: int| 0 <= j < c.len() && !touched.contains(j)
                ==> (#[trigger] c[j]) == m[j])
    }

    /// Resamples `floor(genes * mutation_rate)` distinct gene positions,
    /// chosen uniformly without replacement, from their domains. Every other
    /// position keeps its value, and every resampled position stays inside
    /// its domain.
    pub fn mutate(&self, chromosome: &mut Vec<i64>)
        requires
            self.wf(),
            old(chromosome)@.len() == self.genes,
        ensures
            final(chromosome)@.len() == self.genes,
            self.mutated_from(old(chromosome)@, final(chromosome)@),
    {
        broadcast use vstd::set::group_set_axioms;

        let k = self.mutation_positions();
        let mut indices: Vec<usize> = Vec::new();
        let mut i: usize = 0;
        while i < self.genes
            invariant
                i <= self.genes,
                indices@.len() == i,
                forall|t: int| 0 <= t < i ==> (#[trigger] indices@[t]) == t,
            decreases self.genes - i,
        {
            indices.push(i);
            i = i + 1;
        }
        shuffle_usizes(&mut indices);
        proof {
            broadcast use vstd::seq_lib::group_to_multiset_ensures;

            assert forall|t: int| 0 <= t < indices@.len()
                implies (#[trigger] indices@[t]) < self.genes by {
                let x = indices@[t];
                assert(indices@.contains(x));
                assert(indices@.to_multiset().count(x) > 0);
            }
        }
        let ghost orig = chromosome@;
        let ghost mut touched: Set<int> = Set::empty();
        let mut t: usize = 0;
        while t < k
            invariant
                t <= k,
                self.wf(),
                k <= self.genes,
                indices@.len() == self.genes,
                forall|u: int| 0 <= u < indices@.len() ==> (#[trigger] indices@[u]) < self.genes,
                chromosome@.len() == self.genes,
                orig.len() == self.genes,
                touched.finite(),
                touched.len() <= t,
                forall|j: int| 0 <= j < self.genes && !touched.contains(j)
                    ==> (#[trigger] chromosome@[j]) == orig[j],
                forall|j: int| 0 <= j < self.genes
                    ==> (#[trigger] chromosome@[j]) == orig[j]
                        || self.gene_domains@[j].contains_value(chromosome@[j]),
            decreases k - t,
        {
            broadcast use vstd::set::group_set_axioms;

            let g = indices[t];
            let v = sample_gene(&self.gene_domains[g]);
            chromosome.set(g, v);
            proof {
                touched = touched.insert(g as int);
            }
            t = t + 1;
        }
        proof {
            assert(touched.len() <= k as int);
            assert(touched.finite() && touched.len() <= self.mutation_count()
                && (forall|j: int| 0 <= j < chromosome@.len() && !touched.contains(j)
                    ==> (#[trigger] chromosome@[j]) == orig[j]));
            assert(self.mutated_from(orig, chromosome@));
        }
    }
}

} // verus!

verus! {

/// The sum of the first `n` weights.
pub open spec fn weight_sum(s: Seq<u64>, n: int) -> int
    decreases n,
{
    if n <= 0 {
        0
    } else {
        weight_sum(s, n - 1) + s[n - 1]
    }
}

/// Builds the cumulative distribution of a weight vector: entry `i` is the
/// sum of the weights up to and including index `i`.
pub fn build_cdf(weights: &Vec<u64>) -> (cdf: Vec<u128>)
    ensures
        cdf@.len() == weights@.len(),
        forall|i: int| 0 <= i < cdf@.len()
            ==> (#[trigger] cdf@[i]) as int == weight_sum(weights@, i + 1),
{
    let mut cdf: Vec<u128> = Vec::new();
    let mut acc: u128 = 0;
    let mut i: usize = 0;
    while i < weights.len()
        invariant
            i <= weights@.len(),
            cdf@.len() == i,
            acc as int == weight_sum(weights@, i as int),
            acc as int <= (i as int) * (u64::MAX as int),
            forall|j: int| 0 <= j < i
                ==> (#[trigger] cdf@[j]) as int == weight_sum(weights@, j + 1),
        decreases weights@.len() - i,
    {
        proof {
            assert(usize::MAX as int <= u64::MAX as int);
            assert((i as int) * (u64::MAX as int) <= (u64::MAX as int) * (u64::MAX as int))
                by (nonlinear_arith)
                requires 0 <= i as int <= u64::MAX as int,
            ;
            assert((u64::MAX as int) * (u64::MAX as int) + (u64::MAX as int) <= u128::MAX as int);
        }
        acc = acc + (weights[i] as u128);
        cdf.push(acc);
        proof {
            assert((i + 1) as int * (u64::MAX as int) == (i as int) * (u64::MAX as int) + (u64::MAX as int))
                by (nonlinear_arith);
        }
        i = i + 1;
    }
    cdf
}

/// Standard roulette-wheel lookup: the least index whose cumulative weight
/// exceeds the drawn value `r`.
pub fn select_index(cdf: &Vec<u128>, r: u128) -> (idx: usize)
    requires
        exists|j: int| 0 <= j < cdf@.len() && (#[trigger] cdf@[j]) > r,
    ensures
        idx < cdf@.len(),
        cdf@[idx as int] > r,
        forall|j: int| 0 <= j < idx ==> (#[trigger] cdf@[j]) <= r,
{
    let n = cdf.len();
    let mut i: usize = 0;
    while cdf[i] <= r
        invariant
            n == cdf@.len(),
            i < n,
            forall|j: int| 0 <= j < i ==> (#[trigger] cdf@[j]) <= r,
            exists|j: int| i <= j < cdf@.len() && (#[trigger] cdf@[j]) > r,
        decreases cdf@.len() - i,
    {
        proof {
            let j0 = choose|j: int| i <= j < cdf@.len() && (#[trigger] cdf@[j]) > r;
            assert(j0 >= i + 1);
        }
        i = i + 1;
    }
    i
}

/// One roulette-wheel draw over rescaled fitness weights; `cdf` must be the
/// cumulative distribution of `weights`. An index is drawn with probability
/// proportional to its weight, so an index with zero weight is never
/// selected while any weight is positive. When every weight is zero (a fully
/// homogeneous generation) the draw falls back to uniform selection instead
/// of failing.
pub fn select_parent(weights: &Vec<u64>, cdf: &Vec<u128>) -> (idx: usize)
    requires
        weights@.len() > 0,
        cdf@.len() == weights@.len(),
        forall|i: int| 0 <= i < cdf@.len()
            ==> (#[trigger] cdf@[i]) as int == weight_sum(weights@, i + 1),
    ensures
        idx < weights@.len(),
        weight_sum(weights@, weights@.len() as int) > 0 ==> weights@[idx as int] > 0,
{
    let n = weights.len();
    let total = cdf[n - 1];
    if total == 0 {
        rand_usize_range(0, n)
    } else {
        let r = rand_u128_range(0, total);
        let idx = select_index(cdf, r);
        proof {
            if idx == 0 {
                assert(weight_sum(weights@, 0) == 0);
                assert(weight_sum(weights@, 1) == weights@[0]);
            } else {
                assert(cdf@[idx - 1] <= r);
                assert(weight_sum(weights@, idx as int + 1)
                    == weight_sum(weights@, idx as int) + weights@[idx as int]);
            }
        }
        idx
    }
}

/// Copies a chromosome element by element.
pub fn copy_chromosome(c: &Vec<i64>) -> (r: Vec<i64>)
    ensures
        r@ == c@,
{
    let mut r: Vec<i64> = Vec::new();
    let mut i: usize = 0;
    while i < c.len()
        invariant
            i <= c@.len(),
            r@ =~= c@.take(i as int),
        decreases c@.len() - i,
    {
        r.push(c[i]);
        proof {
            assert(r@ =~= c@.take(i + 1));
        }
        i = i + 1;
    }
    proof {
        assert(c@.take(c@.len() as int) =~= c@);
    }
    r
}

} // verus!

verus! {

/// The maximum of a score sequence; the lowest representable score when the
/// sequence is empty.
pub open spec fn seq_max(s: Seq<i64>) -> int
    decreases s.len(),
{
    if s.len() == 0 {
        i64::MIN as int
    } else {
        let m = seq_max(s.drop_last());
        if s.last() as int > m {
            s.last() as int
        } else {
            m
        }
    }
}

/// The minimum of a score sequence; the highest representable score when the
/// sequence is empty.
pub open spec fn seq_min(s: Seq<i64>) -> int
    decreases s.len(),
{
    if s.len() == 0 {
        i64::MAX as int
    } else {
        let m = seq_min(s.drop_last());
        if (s.last() as int) < m {
            s.last() as int
        } else {
            m
        }
    }
}

/// The least index holding the maximum of a non-empty score sequence.
pub open spec fn first_max_index(s: Seq<i64>) -> int
    decreases s.len(),
{
    if s.len() <= 1 {
        0
    } else {
        let t = first_max_index(s.drop_last());
        if s.last() as int > s[t] as int {
            s.len() - 1
        } else {
            t
        }
    }
}

/// The minimum of a non-empty sequence is one of its entries, and below all
/// of them.
pub proof fn lemma_seq_min_le(s: Seq<i64>, i: int)
    requires
        0 <= i < s.len(),
    ensures
        seq_min(s) <= s[i],
        i64::MIN <= seq_min(s) <= i64::MAX,
    decreases s.len(),
{
    assert(seq_min(Seq::<i64>::empty()) == i64::MAX as int);
    if i == s.len() - 1 {
        if s.len() > 1 {
            lemma_seq_min_le(s.drop_last(), 0);
        } else {
            assert(s.drop_last() =~= Seq::<i64>::empty());
        }
    } else {
        lemma_seq_min_le(s.drop_last(), i);
    }
}

/// The maximum of a non-empty sequence is one of its entries, and above all
/// of them.
pub proof fn lemma_seq_max_ge(s: Seq<i64>, i: int)
    requires
        0 <= i < s.len(),
    ensures
        seq_max(s) >= s[i],
        i64::MIN <= seq_max(s) <= i64::MAX,
    decreases s.len(),
{
    assert(seq_max(Seq::<i64>::empty()) == i64::MIN as int);
    if i == s.len() - 1 {
        if s.len() > 1 {
            lemma_seq_max_ge(s.drop_last(), 0);
        } else {
            assert(s.drop_last() =~= Seq::<i64>::empty());
        }
    } else {
        lemma_seq_max_ge(s.drop_last(), i);
    }
}

/// The least index of the maximum is in range and attains the maximum.
pub proof fn lemma_first_max_bounds(s: Seq<i64>)
    requires
        s.len() > 0,
    ensures
        0 <= first_max_index(s) < s.len(),
        s[first_max_index(s)] as int == seq_max(s),
    decreases s.len(),
{
    assert(seq_max(Seq::<i64>::empty()) == i64::MIN as int);
    if s.len() == 1 {
        assert(s.drop_last() =~= Seq::<i64>::empty());
    } else {
        lemma_first_max_bounds(s.drop_last());
        let t = first_max_index(s.drop_last());
        assert(s.drop_last()[t] == s[t]);
    }
}

impl<F: FitnessFn> GAOptimizer<F> {
    /// Scores every population member, updates the best-solution record on
    /// each strict improvement using the raw score, and then rescales the
    /// fitness vector by subtracting its minimum, leaving index-aligned
    /// non-negative roulette weights.
    ///
    /// The best fitness never decreases; when this generation improves on
    /// it, the record holds the earliest chromosome attaining the
    /// generation's maximum raw score.
    pub fn compute_population_fitness(&mut self, fitness_values: &mut Vec<u64>)
        requires
            old(self).wf(),
            old(self).population_wf(),
        ensures
            final(self).wf(),
            final(self).population_wf(),
            final(self).same_config(old(self)),
            final(self).population_matrix == old(self).population_matrix,
            final(fitness_values)@.len() == old(self).population_matrix@.len(),
            forall|i: int| 0 <= i < final(fitness_values)@.len()
                ==> (#[trigger] final(fitness_values)@[i]) as int
                    == old(self).scores()[i] - seq_min(old(self).scores()),
            final(self).best_solution_fitness as int
                == vstd::math::max(old(self).best_solution_fitness as int, seq_max(old(self).scores())),
            seq_max(old(self).scores()) > old(self).best_solution_fitness ==> {
                &&& final(self).best_solution@
                    == (old(self).population_matrix@[first_max_index(old(self).scores())])@
                &&& final(self).best_solution_fitness
                    == old(self).scores()[first_max_index(old(self).scores())]
            },
            seq_max(old(self).scores()) <= old(self).best_solution_fitness ==> {
                &&& final(self).best_solution == old(self).best_solution
                &&& final(self).best_solution_fitness == old(self).best_solution_fitness
            },
    {
        let ghost sc = self.scores();
        let ghost old_best = self.best_solution_fitness;
        let ghost old_sol = self.best_solution;
        let n = self.population_matrix.len();
        let mut raw: Vec<i64> = Vec::new();
        let mut i: usize = 0;
        while i < n
            invariant
                self.wf(),
                self.population_wf(),
                n == self.population_matrix@.len(),
                i <= n,
                sc == self.scores(),
                sc.len() == n,
                raw@.len() == i,
                forall|j: int| 0 <= j < i ==> (#[trigger] raw@[j]) == sc[j],
                self.genes == old(self).genes,
                self.gene_domains == old(self).gene_domains,
                self.generations == old(self).generations,
                self.population_size == old(self).population_size,
                self.mutation_num == old(self).mutation_num,
                self.mutation_den == old(self).mutation_den,
                self.fitness_function == old(self).fitness_function,
                self.population_matrix == old(self).population_matrix,
                old_best == old(self).best_solution_fitness,
                old_sol == old(self).best_solution,
                self.best_solution_fitness as int
                    == vstd::math::max(old_best as int, seq_max(sc.take(i as int))),
                seq_max(sc.take(i as int)) > old_best ==> {
                    &&& self.best_solution@
                        == (self.population_matrix@[first_max_index(sc.take(i as int))])@
                    &&& self.best_solution_fitness
                        == sc[first_max_index(sc.take(i as int))]
                },
                seq_max(sc.take(i as int)) <= old_best ==> {
                    &&& self.best_solution == old_sol
                    &&& self.best_solution_fitness == old_best
                },
            decreases n - i,
        {
            let s = self.fitness_function.score(&self.population_matrix[i]);
            proof {
                assert(sc[i as int] == self.fitness_function.score_spec(self.population_matrix@[i as int]@));
                assert(sc.take(i + 1).drop_last() =~= sc.take(i as int));
                assert(sc.take(i + 1).last() == sc[i as int]);
                if i > 0 {
                    assert(sc.take(i + 1).len() > 1);
                }
                lemma_seq_max_ge(sc.take(i + 1), i as int);
            }
            raw.push(s);
            if s > self.best_solution_fitness {
                self.best_solution_fitness = s;
                let b = copy_chromosome(&self.population_matrix[i]);
                self.best_solution = b;
                proof {
                    if i > 0 {
                        lemma_first_max_bounds(sc.take(i as int));
                        let t = first_max_index(sc.take(i as int));
                        assert(sc.take(i as int)[t] == sc[t]);
                        assert(sc.take(i + 1)[t] == sc[t]);
                        assert(sc.take(i + 1).last() as int > sc.take(i + 1)[t] as int);
                        assert(first_max_index(sc.take(i + 1)) == i as int);
                    } else {
                        assert(sc.take(1).len() <= 1);
                        assert(first_max_index(sc.take(1)) == 0);
                    }
                }
            } else {
                proof {
                    if seq_max(sc.take(i as int)) > old_best {
                        lemma_first_max_bounds(sc.take(i as int));
                        let t = first_max_index(sc.take(i as int));
                        assert(sc.take(i as int)[t] == sc[t]);
                        assert(sc.take(i + 1)[t] == sc[t]);
                        assert(!(sc.take(i + 1).last() as int > sc.take(i + 1)[t] as int));
                        assert(first_max_index(sc.take(i + 1)) == first_max_index(sc.take(i as int)));
                    }
                }
            }
            i = i + 1;
        }
        proof {
            assert(sc.take(n as int) =~= sc);
        }
        fitness_values.clear();
        if n == 0 {
            return;
        }
        let mut mn: i64 = raw[0];
        proof {
            assert(raw@.take(1).drop_last() =~= Seq::<i64>::empty());
            assert(seq_min(Seq::<i64>::empty()) == i64::MAX as int);
            assert(raw@.take(1).last() == raw@[0]);
            assert(mn as int == seq_min(raw@.take(1)));
        }
        let mut i: usize = 1;
        while i < n
            invariant
                1 <= i <= n,
                n == raw@.len(),
                forall|j: int| 0 <= j < n ==> (#[trigger] raw@[j]) == sc[j],
                sc.len() == n,
                mn as int == seq_min(raw@.take(i as int)),
            decreases n - i,
        {
            proof {
                assert(raw@.take(i + 1).drop_last() =~= raw@.take(i as int));
                assert(raw@.take(i + 1).last() == raw@[i as int]);
            }
            if raw[i] < mn {
                mn = raw[i];
            }
            i = i + 1;
        }
        proof {
            assert(raw@.take(n as int) =~= raw@);
            assert(raw@ =~= sc);
            assert(mn as int == seq_min(sc));
        }
        let mut i: usize = 0;
        while i < n
            invariant
                i <= n,
                n == raw@.len(),
                sc.len() == n,
                forall|j: int| 0 <= j < n ==> (#[trigger] raw@[j]) == sc[j],
                mn as int == seq_min(sc),
                fitness_values@.len() == i,
                forall|j: int| 0 <= j < i
                    ==> (#[trigger] fitness_values@[j]) as int == sc[j] - seq_min(sc),
            decreases n - i,
        {
            proof {
                lemma_seq_min_le(sc, i as int);
            }
            let w: u64 = ((raw[i] as i128) - (mn as i128)) as u64;
            fitness_values.push(w);
            i = i + 1;
        }
    }
}

} // verus!

verus! {

impl<F: FitnessFn> GAOptimizer<F> {
    /// Single-point crossover of two parents at a split drawn uniformly from
    /// `1..genes` (both offspring inherit at least one gene from each
    /// parent).
    pub fn single_point_crossover(&self, parent1: Vec<i64>, parent2: Vec<i64>) -> (off: (
        Vec<i64>,
        Vec<i64>,
    ))
        requires
            self.wf(),
            parent1@.len() == self.genes,
            parent2@.len() == self.genes,
        ensures
            exists|s: int|
                1 <= s <= self.genes - 1 && is_crossover(parent1@, parent2@, off.0@, off.1@, s),
    {
        let split = rand_usize_range(1, self.genes);
        let off = crossover_at(&parent1, &parent2, split);
        proof {
            assert(is_crossover(parent1@, parent2@, off.0@, off.1@, split as int));
        }
        off
    }

    /// The witness that `c` descends from `pop` in one reproduction step:
    /// parents at `i1` and `i2` (each carrying positive weight while any
    /// weight is positive), a single-point crossover at `s` producing the
    /// pair `m1`, `m2`, and one mutation pass over one of the two.
    pub open spec fn offspring_step(
        &self,
        pop: Seq<Vec<i64>>,
        weights: Seq<u64>,
        c: Seq<i64>,
        i1: int,
        i2: int,
        s: int,
        m1: Seq<i64>,
        m2: Seq<i64>,
    ) -> bool {
        &&& 0 <= i1 < pop.len()
        &&& 0 <= i2 < pop.len()
        &&& (weight_sum(weights, weights.len() as int) > 0 ==> weights[i1] > 0 && weights[i2] > 0)
        &&& 1 <= s <= self.genes - 1
        &&& is_crossover(pop[i1]@, pop[i2]@, m1, m2, s)
        &&& (self.mutated_from(m1, c) || self.mutated_from(m2, c))
    }

    /// `c` is a chromosome the reproduction step can store: the offspring of
    /// a roulette-drawn parent pair from `pop`, bred by single-point
    /// crossover and one mutation pass.
    pub open spec fn offspring_wf(&self, pop: Seq<Vec<i64>>, weights: Seq<u64>, c: Seq<i64>) -> bool {
        exists|i1: int, i2: int, s: int, m1: Seq<i64>, m2: Seq<i64>|
            self.offspring_step(pop, weights, c, i1, i2, s, m1, m2)
    }

    /// Builds the next generation: repeatedly draws two parents by
    /// roulette-wheel selection over the rescaled fitness vector (uniformly
    /// when every weight is zero), crosses them over, mutates both offspring
    /// and appends them, then truncates to exactly `population_size`. Every
    /// stored chromosome is such an offspring of the old population.
    /// Fails only when the population is empty, which leaves no valid
    /// selection.
    pub fn roulette_wheel_selection(&mut self, population_fitness: &Vec<u64>) -> (r: Result<
        (),
        FatalSelectionError,
    >)
        requires
            old(self).wf(),
            old(self).population_wf(),
            population_fitness@.len() == old(self).population_matrix@.len(),
        ensures
            final(self).wf(),
            final(self).population_wf(),
            final(self).same_config(old(self)),
            final(self).best_solution_fitness == old(self).best_solution_fitness,
            final(self).best_solution == old(self).best_solution,
            r is Ok <==> old(self).population_size > 0,
            r is Ok ==> forall|t: int| 0 <= t < final(self).population_matrix@.len()
                ==> old(self).offspring_wf(old(self).population_matrix@, population_fitness@,
                    (#[trigger] final(self).population_matrix@[t])@),
            r is Err ==> final(self).population_matrix == old(self).population_matrix,
    {
        if self.population_size == 0 {
            return Err(FatalSelectionError);
        }
        let cdf = build_cdf(population_fitness);
        let mut new_population: Vec<Vec<i64>> = Vec::new();
        while new_population.len() < self.population_size
            invariant
                self.wf(),
                self.population_wf(),
                self == old(self),
                self.population_size > 0,
                population_fitness@.len() == self.population_matrix@.len(),
                cdf@.len() == population_fitness@.len(),
                forall|i: int| 0 <= i < cdf@.len()
                    ==> (#[trigger] cdf@[i]) as int == weight_sum(population_fitness@, i + 1),
                new_population@.len() <= self.population_size + 1,
                forall|t: int| 0 <= t < new_population@.len()
                    ==> self.chromosome_wf((#[trigger] new_population@[t])@),
                forall|t: int| 0 <= t < new_population@.len()
                    ==> self.offspring_wf(self.population_matrix@, population_fitness@,
                        (#[trigger] new_population@[t])@),
            decreases self.population_size + 1 - new_population.len(),
        {
            let i1 = select_parent(population_fitness, &cdf);
            let i2 = select_parent(population_fitness, &cdf);
            let p1 = copy_chromosome(&self.population_matrix[i1]);
            let p2 = copy_chromosome(&self.population_matrix[i2]);
            let ghost p1v = p1@;
            let ghost p2v = p2@;
            let (mut o1, mut o2) = self.single_point_crossover(p1, p2);
            let ghost s = choose|s: int|
                1 <= s <= self.genes - 1 && is_crossover(p1v, p2v, o1@, o2@, s);
            let ghost m1 = o1@;
            let ghost m2 = o2@;
            proof {
                assert(exists|s2: int|
                    1 <= s2 <= self.genes - 1 && is_crossover(p1v, p2v, o1@, o2@, s2));
                assert(is_crossover(p1v, p2v, o1@, o2@, s));
                assert forall|j: int| 0 <= j < o1@.len()
                    implies self.gene_domains@[j].contains_value(#[trigger] o1@[j]) by {
                    if j < s {
                        assert(o1@[j] == p1v[j]);
                    } else {
                        assert(o1@[j] == p2v[j]);
                    }
                }
                assert forall|j: int| 0 <= j < o2@.len()
                    implies self.gene_domains@[j].contains_value(#[trigger] o2@[j]) by {
                    if j < s {
                        assert(o2@[j] == p2v[j]);
                    } else {
                        assert(o2@[j] == p1v[j]);
                    }
                }
                assert(self.chromosome_wf(o1@));
                assert(self.chromosome_wf(o2@));
            }
            self.mutate(&mut o1);
            self.mutate(&mut o2);
            proof {
                assert(self.population_matrix@[i1 as int]@ == p1v);
                assert(self.population_matrix@[i2 as int]@ == p2v);
                assert(self.offspring_step(self.population_matrix@, population_fitness@, o1@,
                    i1 as int, i2 as int, s, m1, m2));
                assert(self.offspring_wf(self.population_matrix@, population_fitness@, o1@));
                assert(self.offspring_step(self.population_matrix@, population_fitness@, o2@,
                    i1 as int, i2 as int, s, m1, m2));
                assert(self.offspring_wf(self.population_matrix@, population_fitness@, o2@));
            }
            new_population.push(o1);
            new_population.push(o2);
        }
        if new_population.len() > self.population_size {
            new_population.pop();
        }
        self.population_matrix = new_population;
        Ok(())
    }

    /// Runs the whole evolution: one initialization, then exactly
    /// `generations` evaluate/reproduce cycles, never stopping early. The
    /// best-solution record only ever improves; with zero generations it is
    /// left untouched (nothing is evaluated), and whenever it has improved it
    /// holds a legal chromosome together with exactly that chromosome's
    /// score.
    pub fn run(&mut self) -> (r: Result<(), FatalSelectionError>)
        requires
            old(self).wf(),
        ensures
            final(self).wf(),
            final(self).population_wf(),
            final(self).same_config(old(self)),
            r is Ok <==> (old(self).generations == 0 || old(self).population_size > 0),
            final(self).best_solution_fitness >= old(self).best_solution_fitness,
            old(self).generations == 0
                ==> final(self).best_solution_fitness == old(self).best_solution_fitness
                    && final(self).best_solution == old(self).best_solution,
            final(self).best_solution_fitness > old(self).best_solution_fitness
                ==> final(self).chromosome_wf(final(self).best_solution@)
                    && final(self).best_solution_fitness
                        == final(self).fitness_function.score_spec(final(self).best_solution@),
            final(self).best_solution_fitness == old(self).best_solution_fitness
                ==> final(self).best_solution == old(self).best_solution,
    {
        self.initialize_population();
        let mut fitness_values: Vec<u64> = Vec::new();
        let mut generation: usize = 0;
        while generation < self.generations
            invariant
                self.wf(),
                self.population_wf(),
                self.same_config(old(self)),
                generation <= self.generations,
                generation > 0 ==> self.population_size > 0,
                self.best_solution_fitness >= old(self).best_solution_fitness,
                self.best_solution_fitness > old(self).best_solution_fitness
                    ==> self.chromosome_wf(self.best_solution@) && self.best_solution_fitness
                        == self.fitness_function.score_spec(self.best_solution@),
                self.best_solution_fitness == old(self).best_solution_fitness
                    ==> self.best_solution == old(self).best_solution,
                self.generations == 0
                    ==> self.best_solution_fitness == old(self).best_solution_fitness
                        && self.best_solution == old(self).best_solution,
            decreases self.generations - generation,
        {
            let ghost pre = *self;
            self.compute_population_fitness(&mut fitness_values);
            proof {
                if seq_max(pre.scores()) > pre.best_solution_fitness {
                    lemma_first_max_bounds(pre.scores());
                    let t = first_max_index(pre.scores());
                    assert(pre.chromosome_wf((pre.population_matrix@[t])@));
                }
            }
            match self.roulette_wheel_selection(&fitness_values) {
                Ok(()) => {},
                Err(e) => {
                    return Err(e);
                },
            }
            generation = generation + 1;
        }
        Ok(())
    }
}

} // verus!

verus! {

impl<F: FitnessFn> GAOptimizer<F> {
    /// Draws one gene value for position `gene_index`, respecting that
    /// position's domain.
    pub fn extract_gene_value(&self, gene_index: usize) -> (r: i64)
        requires
            self.wf(),
            gene_index < self.genes,
        ensures
            self.gene_domains@[gene_index as int].contains_value(r),
    {
        sample_gene(&self.gene_domains[gene_index])
    }
}

} // verus!
