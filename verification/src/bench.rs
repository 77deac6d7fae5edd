//! Measuring a stated bench: which cases a run measures, how many rounds a sample runs, what one
//! case measured and the spread of it, and what a run says while cases are measured together.

use crate::conformance::span::Span;
use crate::text::{append_decimal, decimal, holds_text, holds_text_spec};
use vstd::prelude::*;
use vstd::string::*;

verus! {

/// Says how many cases of one group are still being measured at the same time.
pub open spec fn measuring_text(cases: nat, group: Seq<char>) -> Seq<char> {
    "measuring "@ + decimal(cases) + (if cases == 1 {
        " case"@
    } else {
        " cases"@
    }) + " of "@ + group + " at the same time"@
}

/// Says how many cases of one group are still being measured at the same time, one case being
/// named in the singular.
pub fn measuring_at_once(cases: usize, group: &str) -> (r: String)
    ensures
        r@ == measuring_text(cases as nat, group@),
{
    let mut r = String::from_str("measuring ");
    append_decimal(&mut r, cases as u64);
    if cases == 1 {
        r.append(" case");
    } else {
        r.append(" cases");
    }
    r.append(" of ");
    r.append(group);
    r.append(" at the same time");
    r
}

/// One case of a bench: the group it is stated in, and what it measures.
#[derive(Debug, Clone, Copy, PartialEq, Eq)]
pub struct BenchCase {
    /// The group the case is stated in.
    pub group: &'static str,
    /// What the case measures.
    pub subject: &'static str,
}

/// A case named the way a report reads it: the group, `/`, then the subject.
pub open spec fn case_name(case: BenchCase) -> Seq<char> {
    case.group@ + "/"@ + case.subject@
}

/// Names a case the way a report reads it: the group, then the subject.
pub fn name(case: BenchCase) -> (r: String)
    ensures
        r@ == case_name(case),
{
    let mut r = String::from_str(case.group);
    r.append("/");
    r.append(case.subject);
    r
}

/// Whether a run measures a case: every case where no filter is stated, and otherwise a case whose
/// name holds the filter.
pub fn stating(only: Option<&str>, case: BenchCase) -> (r: bool)
    ensures
        r == match only {
            None => true,
            Some(only) => holds_text_spec(case_name(case), only@),
        },
{
    match only {
        None => true,
        Some(only) => {
            let named = name(case);
            holds_text(named.as_str(), only)
        },
    }
}

/// How many rounds a sample runs: one where no spend is stated; otherwise as many rounds as the
/// spend holds of what one round cost, and at least one, and one where that count is more than a
/// `u64` holds.
pub open spec fn sample_rounds(spend: Option<Span>, cost: Span) -> u64 {
    match spend {
        None => 1,
        Some(spend) => {
            let fits = spend.total() / (if cost.total() == 0 {
                1
            } else {
                cost.total()
            });
            if fits > u64::MAX {
                1
            } else if fits == 0 {
                1
            } else {
                fits as u64
            }
        },
    }
}

/// Answers how many rounds one sample runs, given the spend stated and what one round cost.
pub fn rounds_of_a_sample(spend: Option<Span>, cost: Span) -> (r: u64)
    ensures
        r == sample_rounds(spend, cost),
        r >= 1,
{
    match spend {
        None => 1,
        Some(spend) => {
            let per = if cost.as_nanos() == 0 {
                1
            } else {
                cost.as_nanos()
            };
            let fits = spend.as_nanos() / per;
            if fits > 18_446_744_073_709_551_615u128 {
                1
            } else if fits == 0 {
                1
            } else {
                fits as u64
            }
        },
    }
}

/// How many rounds one sample is divided by: the rounds it ran, at most `u32::MAX` and at least one.
pub open spec fn per_round(rounds: u64) -> u32 {
    if rounds > u32::MAX {
        u32::MAX
    } else if rounds == 0 {
        1
    } else {
        rounds as u32
    }
}

/// How long each sample's rounds took one at a time, in nanoseconds.
pub open spec fn round_totals(samples: Seq<Span>, rounds: u64) -> Seq<nat> {
    samples.map_values(|sample: Span| sample.total() / (per_round(rounds) as nat))
}

/// The lengths of spans, in nanoseconds.
pub open spec fn totals_of(spans: Seq<Span>) -> Seq<nat> {
    spans.map_values(|span: Span| span.total())
}

/// Whether numbers never decrease.
pub open spec fn ascending(numbers: Seq<nat>) -> bool {
    forall|a: int, b: int| 0 <= a <= b < numbers.len() ==> numbers[a] <= numbers[b]
}

/// What one case measured: the rounds a sample ran, and every sample, in the order it was taken.
#[derive(Debug)]
pub struct BenchMeasured {
    case: BenchCase,
    rounds: u64,
    samples: Vec<Span>,
}

impl BenchMeasured {
    /// The case measured.
    pub closed spec fn spec_case(&self) -> BenchCase {
        self.case
    }

    /// How many rounds each sample ran.
    pub closed spec fn spec_rounds(&self) -> u64 {
        self.rounds
    }

    /// Every sample, in the order it was taken.
    pub closed spec fn spec_samples(&self) -> Seq<Span> {
        self.samples@
    }

    /// States what one case measured.
    pub fn new(case: BenchCase, rounds: u64, samples: Vec<Span>) -> (r: Self)
        ensures
            r.spec_case() == case,
            r.spec_rounds() == rounds,
            r.spec_samples() == samples@,
    {
        BenchMeasured { case, rounds, samples }
    }

    /// Returns the case measured.
    pub fn case(&self) -> (r: BenchCase)
        ensures
            r == self.spec_case(),
    {
        self.case
    }

    /// Returns how many rounds each sample ran.
    pub fn rounds(&self) -> (r: u64)
        ensures
            r == self.spec_rounds(),
    {
        self.rounds
    }

    /// Returns every sample, in the order it was taken. A sample is all the rounds it ran.
    pub fn samples(&self) -> (r: &[Span])
        ensures
            r@ == self.spec_samples(),
    {
        self.samples.as_slice()
    }

    /// Returns the shortest, the median and the longest round, of a case with any sample.
    ///
    /// Each sample is divided by the rounds it ran, so all three are one round; the median is the
    /// middle one in ascending order, the later of the two middle ones where there is an even
    /// number.
    pub fn spread(&self) -> (r: Option<(Span, Span, Span)>)
        ensures
            self.spec_samples().len() == 0 <==> r is None,
            r matches Some((shortest, median, longest)) ==> exists|sorted: Seq<nat>|
                ascending(sorted) && sorted.to_multiset() == round_totals(
                    self.spec_samples(),
                    self.spec_rounds(),
                ).to_multiset() && sorted.len() == self.spec_samples().len() && shortest.total()
                    == sorted[0] && median.total() == sorted[(sorted.len() / 2) as int] && longest.total()
                    == sorted[sorted.len() - 1],
    {
        let per: u32 = if self.rounds > 4_294_967_295u64 {
            4_294_967_295u32
        } else if self.rounds == 0 {
            1
        } else {
            self.rounds as u32
        };
        let ghost all = round_totals(self.samples@, self.rounds);
        let mut sorted: Vec<Span> = Vec::new();
        let mut i: usize = 0;
        assert(totals_of(sorted@) =~= all.take(0));
        while i < self.samples.len()
            invariant
                i <= self.samples.len(),
                per == per_round(self.rounds),
                all == round_totals(self.samples@, self.rounds),
                sorted@.len() == i,
                ascending(totals_of(sorted@)),
                totals_of(sorted@).to_multiset() == all.take(i as int).to_multiset(),
            decreases self.samples.len() - i,
        {
            let part = match self.samples[i].checked_div(per) {
                Some(part) => part,
                None => {
                    return None;
                },
            };
            let ghost before = totals_of(sorted@);
            let mut p: usize = 0;
            while p < sorted.len() && sorted[p].no_longer_than(part)
                invariant
                    p <= sorted@.len(),
                    before == totals_of(sorted@),
                    forall|q: int| 0 <= q < p ==> before[q] <= part.total(),
                decreases sorted@.len() - p,
            {
                p = p + 1;
            }
            sorted.insert(p, part);
            proof {
                assert(totals_of(sorted@) =~= before.insert(p as int, part.total()));
                assert(all.take(i + 1) =~= all.take(i as int).push(all[i as int]));
                assert(all[i as int] == part.total());
                vstd::seq_lib::to_multiset_insert(before, p as int, part.total());
                vstd::seq_lib::to_multiset_build(all.take(i as int), all[i as int]);
                assert forall|a: int, b: int| 0 <= a <= b < totals_of(sorted@).len() implies totals_of(
                    sorted@,
                )[a] <= totals_of(sorted@)[b] by {
                    let t = totals_of(sorted@);
                    if b < p {
                        assert(t[a] == before[a] && t[b] == before[b]);
                    } else if b == p {
                        if a < p {
                            assert(t[a] == before[a]);
                        }
                    } else if a < p {
                        assert(t[a] == before[a] && t[b] == before[b - 1]);
                        if p < before.len() {
                            assert(part.total() < before[p as int]);
                        }
                    } else if a == p {
                        assert(t[b] == before[b - 1]);
                        assert(part.total() < before[p as int]);
                    } else {
                        assert(t[a] == before[a - 1] && t[b] == before[b - 1]);
                    }
                }
            }
            i = i + 1;
        }
        if sorted.len() == 0 {
            return None;
        }
        let n = sorted.len();
        proof {
            assert(all.take(i as int) =~= all);
            let t = totals_of(sorted@);
            assert(t[0] == sorted@[0].total());
            assert(t[(n / 2) as int] == sorted@[(n / 2) as int].total());
            assert(t[n - 1] == sorted@[n - 1].total());
        }
        Some((sorted[0], sorted[n / 2], sorted[n - 1]))
    }
}

} // verus!
