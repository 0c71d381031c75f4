use vstd::prelude::*;
use crate::rng::{rand_i64_range, rand_usize_range};

verus! {

/// The three kinds of value space a gene position may range over.
///
/// Gene values are fixed-point numbers held in `i64`: the caller picks the
/// scale, and `Reals` then means a uniform draw over the whole grid of
/// representable points in `[low, high)`, while `Integers` carries the same
/// half-open-range semantics at the caller's integer scale.
#[derive(Clone, Copy, PartialEq, Eq, Structural, Debug)]
pub enum DomainCategory {
    Reals,
    Integers,
    DiscreteSet,
}

/// The legal value space of one gene position.
///
/// For `Reals` and `Integers`, `values` holds exactly the two bounds
/// `[low, high)` with `low < high`; for `DiscreteSet` it holds a non-empty
/// enumeration of the legal values.
#[derive(Debug)]
pub struct Domain {
    pub category: DomainCategory,
    pub values: Vec<i64>,
}

/// A configuration fault detected while building a domain or an optimizer.
#[derive(Clone, Copy, PartialEq, Eq, Structural, Debug)]
pub enum ConfigError {
    /// A `DiscreteSet` domain was requested without any values.
    DiscreteSetEmpty,
    /// A range domain did not come as two bounds with `low < high`.
    InvalidBounds,
    /// Fewer than two genes; single-point crossover needs at least two.
    TooFewGenes,
    /// The number of domains differs from the number of genes.
    DomainCountMismatch,
    /// The mutation rate does not describe a fraction in `[0, 1]`.
    InvalidMutationRate,
    /// A domain handed to the optimizer breaks the domain invariant.
    MalformedDomain,
}

impl Domain {
    /// The domain invariant: two ordered bounds for ranges, a non-empty
    /// enumeration for a discrete set.
    pub open spec fn wf(&self) -> bool {
        match self.category {
            DomainCategory::Reals => self.values@.len() == 2 && self.values@[0] < self.values@[1],
            DomainCategory::Integers => self.values@.len() == 2 && self.values@[0] < self.values@[1],
            DomainCategory::DiscreteSet => self.values@.len() >= 1,
        }
    }

    /// Decides the domain invariant.
    pub fn is_wf(&self) -> (b: bool)
        ensures
            b == self.wf(),
    {
        match self.category {
            DomainCategory::DiscreteSet => self.values.len() >= 1,
            _ => self.values.len() == 2 && self.values[0] < self.values[1],
        }
    }

    /// Whether `x` is a legal value of this domain: inside the half-open
    /// range for `Reals`/`Integers`, a member of the enumeration for
    /// `DiscreteSet`.
    pub open spec fn contains_value(&self, x: i64) -> bool {
        match self.category {
            DomainCategory::Reals => self.values@[0] <= x < self.values@[1],
            DomainCategory::Integers => self.values@[0] <= x < self.values@[1],
            DomainCategory::DiscreteSet => self.values@.contains(x),
        }
    }
}

/// Whether `Domain::new` accepts this category and value list.
pub open spec fn domain_args_valid(category: DomainCategory, values: Option<Seq<i64>>) -> bool {
    match category {
        DomainCategory::DiscreteSet => values matches Some(v) && v.len() >= 1,
        _ => match values {
            Some(v) => v.len() == 2 && v[0] < v[1],
            None => true,
        },
    }
}

/// The value list `Domain::new` stores: the given one, or the full
/// representable range when none is given.
pub open spec fn domain_default_values(values: Option<Seq<i64>>) -> Seq<i64> {
    match values {
        Some(v) => v,
        None => seq![i64::MIN, i64::MAX],
    }
}

/// The view of an optional value list.
pub open spec fn opt_values_view(values: Option<Vec<i64>>) -> Option<Seq<i64>> {
    match values {
        Some(v) => Some(v@),
        None => None::<Seq<i64>>,
    }
}

impl Domain {
    /// Builds a domain, validating it. `Reals` and `Integers` default to the
    /// whole representable range when no bounds are given; a `DiscreteSet`
    /// must come with a non-empty value list.
    pub fn new(category: DomainCategory, values: Option<Vec<i64>>) -> (r: Result<Domain, ConfigError>)
        ensures
            r is Ok <==> domain_args_valid(category, opt_values_view(values)),
            r matches Ok(d) ==> d.category == category
                && d.values@ == domain_default_values(opt_values_view(values))
                && d.wf(),
            r matches Err(e) ==> e == (if category is DiscreteSet {
                ConfigError::DiscreteSetEmpty
            } else {
                ConfigError::InvalidBounds
            }),
    {
        match category {
            DomainCategory::DiscreteSet => {
                match values {
                    Some(v) => {
                        if v.len() >= 1 {
                            Ok(Domain { category, values: v })
                        } else {
                            Err(ConfigError::DiscreteSetEmpty)
                        }
                    },
                    None => Err(ConfigError::DiscreteSetEmpty),
                }
            },
            _ => {
                match values {
                    Some(v) => {
                        if v.len() == 2 && v[0] < v[1] {
                            Ok(Domain { category, values: v })
                        } else {
                            Err(ConfigError::InvalidBounds)
                        }
                    },
                    None => {
                        let mut v: Vec<i64> = Vec::new();
                        v.push(i64::MIN);
                        v.push(i64::MAX);
                        proof {
                            assert(v@ =~= seq![i64::MIN, i64::MAX]);
                        }
                        Ok(Domain { category, values: v })
                    },
                }
            },
        }
    }
}

/// Draws one gene value from `domain`: uniform over the half-open range for
/// `Reals` and `Integers`, a uniformly indexed member for `DiscreteSet`.
/// Sampling reads nothing but the domain and the random source.
pub fn sample_gene(domain: &Domain) -> (r: i64)
    requires
        domain.wf(),
    ensures
        domain.contains_value(r),
{
    match domain.category {
        DomainCategory::Reals => rand_i64_range(domain.values[0], domain.values[1]),
        DomainCategory::Integers => rand_i64_range(domain.values[0], domain.values[1]),
        DomainCategory::DiscreteSet => {
            let idx = rand_usize_range(0, domain.values.len());
            let r = domain.values[idx];
            proof {
                assert(domain.values@.contains(r)) by {
                    assert(domain.values@[idx as int] == r);
                }
            }
            r
        },
    }
}

} // verus!
