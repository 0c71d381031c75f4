use vstd::prelude::*;

verus! {

/// The caller-supplied scorer: a chromosome (a sequence of fixed-point gene
/// values) is mapped to a fixed-point fitness score. `score_spec` is the
/// mathematical meaning of the scorer; `score` must return exactly it, so a
/// scorer is a pure function of the chromosome.
pub trait FitnessFn: Sized {
    spec fn score_spec(&self, c: Seq<i64>) -> i64;

    fn score(&self, c: &Vec<i64>) -> (r: i64)
        ensures
            r == self.score_spec(c@),
    ;
}

/// Addition on `i64` values clamped to the representable range.
pub open spec fn sat_add(a: int, b: int) -> int {
    if a + b > i64::MAX {
        i64::MAX as int
    } else if a + b < i64::MIN {
        i64::MIN as int
    } else {
        a + b
    }
}

/// The saturating sum of a sequence of `i64` values, folded left to right.
pub open spec fn sat_sum(s: Seq<i64>) -> int
    decreases s.len(),
{
    if s.len() == 0 {
        0
    } else {
        sat_add(sat_sum(s.drop_last()), s.last() as int)
    }
}

/// A scorer that adds up all gene values, saturating at the `i64` range.
pub struct SumFitness;

impl FitnessFn for SumFitness {
    open spec fn score_spec(&self, c: Seq<i64>) -> i64 {
        sat_sum(c) as i64
    }

    fn score(&self, c: &Vec<i64>) -> (r: i64) {
        let mut acc: i64 = 0;
        let mut i: usize = 0;
        while i < c.len()
            invariant
                i <= c@.len(),
                acc == sat_sum(c@.take(i as int)),
                i64::MIN <= sat_sum(c@.take(i as int)) <= i64::MAX,
            decreases c@.len() - i,
        {
            let x = c[i];
            proof {
                assert(c@.take(i + 1).drop_last() =~= c@.take(i as int));
                assert(c@.take(i + 1).last() == c@[i as int]);
            }
            if x >= 0 {
                if acc > i64::MAX - x {
                    acc = i64::MAX;
                } else {
                    acc = acc + x;
                }
            } else {
                if acc < i64::MIN - x {
                    acc = i64::MIN;
                } else {
                    acc = acc + x;
                }
            }
            i = i + 1;
        }
        proof {
            assert(c@.take(c@.len() as int) =~= c@);
        }
        acc
    }
}

/// A scorer that gives every chromosome the same fixed score.
pub struct ConstFitness {
    pub value: i64,
}

impl FitnessFn for ConstFitness {
    open spec fn score_spec(&self, c: Seq<i64>) -> i64 {
        self.value
    }

    fn score(&self, _c: &Vec<i64>) -> (r: i64) {
        self.value
    }
}

} // verus!

verus! {

/// An integer clamped into the representable `i64` range.
pub open spec fn clamp_i64(v: int) -> int {
    if v > i64::MAX {
        i64::MAX as int
    } else if v < i64::MIN {
        i64::MIN as int
    } else {
        v
    }
}

/// The clamped running weight of the first `n` items: each step adds
/// `genes[i] * weights[i]`.
pub open spec fn running_weight(genes: Seq<i64>, weights: Seq<i64>, n: int) -> int
    decreases n,
{
    if n <= 0 {
        0
    } else {
        clamp_i64(running_weight(genes, weights, n - 1) + genes[n - 1] * weights[n - 1])
    }
}

/// The clamped running profit after `n` items: the running weight plus
/// `genes[n-1] * profits[n-1]`.
pub open spec fn running_profit(genes: Seq<i64>, weights: Seq<i64>, profits: Seq<i64>, n: int) -> int
    decreases n,
{
    if n <= 0 {
        0
    } else {
        clamp_i64(running_weight(genes, weights, n) + genes[n - 1] * profits[n - 1])
    }
}

/// The number of items a knapsack scorer reads from a chromosome: every
/// position that has both a weight and a profit.
pub open spec fn knapsack_items(k: KnapsackFitness, c: Seq<i64>) -> int {
    vstd::math::min(c.len() as int, vstd::math::min(k.weights@.len() as int, k.profits@.len() as int))
}

/// The knapsack score of a chromosome: the final running profit, or the
/// negated running weight once it exceeds the limit.
pub open spec fn knapsack_score(k: KnapsackFitness, c: Seq<i64>) -> int {
    let n = knapsack_items(k, c);
    let w = running_weight(c, k.weights@, n);
    if w > k.weight_limit {
        -w
    } else {
        running_profit(c, k.weights@, k.profits@, n)
    }
}

proof fn lemma_i64_mul_bounds(a: int, b: int)
    requires
        i64::MIN <= a <= i64::MAX,
        i64::MIN <= b <= i64::MAX,
    ensures
        -0x4000_0000_0000_0000_0000_0000_0000_0000 <= a * b
            <= 0x4000_0000_0000_0000_0000_0000_0000_0000,
{
    assert(-0x4000_0000_0000_0000_0000_0000_0000_0000 <= a * b
        <= 0x4000_0000_0000_0000_0000_0000_0000_0000) by (nonlinear_arith)
        requires
            -0x8000_0000_0000_0000 <= a <= 0x7fff_ffff_ffff_ffff,
            -0x8000_0000_0000_0000 <= b <= 0x7fff_ffff_ffff_ffff,
    ;
}

/// A weighted scorer with a capacity penalty. A running weight accumulates
/// `gene * weight` item by item, while the profit value is overwritten at
/// each step with the running weight plus that one item's `gene * profit`.
/// The score is the last such profit value, or the negated final weight
/// once it exceeds the limit. Every sum clamps at the `i64` range.
pub struct KnapsackFitness {
    pub weights: Vec<i64>,
    pub profits: Vec<i64>,
    pub weight_limit: i64,
}

impl FitnessFn for KnapsackFitness {
    open spec fn score_spec(&self, c: Seq<i64>) -> i64 {
        knapsack_score(*self, c) as i64
    }

    fn score(&self, c: &Vec<i64>) -> (r: i64) {
        let mut n: usize = c.len();
        if self.weights.len() < n {
            n = self.weights.len();
        }
        if self.profits.len() < n {
            n = self.profits.len();
        }
        proof {
            assert(n as int == knapsack_items(*self, c@));
        }
        let mut w: i64 = 0;
        let mut p: i64 = 0;
        let mut i: usize = 0;
        while i < n
            invariant
                i <= n,
                n <= c@.len(),
                n <= self.weights@.len(),
                n <= self.profits@.len(),
                w as int == running_weight(c@, self.weights@, i as int),
                p as int == running_profit(c@, self.weights@, self.profits@, i as int),
            decreases n - i,
        {
            let x = c[i];
            proof {
                lemma_i64_mul_bounds(x as int, self.weights@[i as int] as int);
                lemma_i64_mul_bounds(x as int, self.profits@[i as int] as int);
            }
            let wprod: i128 = (x as i128) * (self.weights[i] as i128);
            let wsum: i128 = (w as i128) + wprod;
            w = if wsum > i64::MAX as i128 {
                i64::MAX
            } else if wsum < i64::MIN as i128 {
                i64::MIN
            } else {
                wsum as i64
            };
            let pprod: i128 = (x as i128) * (self.profits[i] as i128);
            let psum: i128 = (w as i128) + pprod;
            p = if psum > i64::MAX as i128 {
                i64::MAX
            } else if psum < i64::MIN as i128 {
                i64::MIN
            } else {
                psum as i64
            };
            i = i + 1;
        }
        if w > self.weight_limit {
            -w
        } else {
            p
        }
    }
}

} // verus!
