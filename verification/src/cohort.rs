//! The synthetic cohort: which observations a requested count stands for.
//!
//! A count `n` covers the heights of the steps `1 .. n`; each height is
//! combined with five ages, both sexes and both values of a second binary
//! factor, the height varying slowest and the factor fastest.

use crate::record::{make_name, name_of, views, Dataform, DataformView};
use crate::stats::{lemma_quotient, round_ratio};
use vstd::prelude::*;

verus! {

/// How many observations a count of `count` brings: for each height step
/// five ages, two sexes and two factors.
pub open spec fn cohort_size(count: nat) -> nat {
    if count <= 1 {
        0
    } else {
        (20 * (count - 1)) as nat
    }
}

/// The height of the observations of height step `i`.
pub open spec fn step_height(i: nat) -> nat {
    1000 + 100 * i
}

/// The age of the observations of age step `j`.
pub open spec fn step_age(j: nat) -> nat {
    500 + 50 * j
}

/// The weight that goes with a height, an age, a sex and a factor:
/// `0.3 * height + 0.1 * age + 200 * sex + 100 * factor`, rounded to the
/// nearest integer.
pub open spec fn weight_of(height: nat, age: nat, sex: nat, factor: nat) -> nat {
    round_ratio((3 * height + age + 2000 * sex + 1000 * factor) as int, 10) as nat
}

/// The height step of the observation at position `k` of a cohort.
pub open spec fn height_step_at(k: nat) -> nat {
    k / 20 + 1
}

/// The age step of the observation at position `k` of a cohort.
pub open spec fn age_step_at(k: nat) -> nat {
    (k % 20) / 4 + 1
}

/// The sex of the observation at position `k` of a cohort.
pub open spec fn sex_at(k: nat) -> nat {
    (k % 4) / 2
}

/// The second factor of the observation at position `k` of a cohort.
pub open spec fn factor_at(k: nat) -> nat {
    k % 2
}

/// The observation at position `k` of the cohort whose first observation has
/// the identifier `first`.
pub open spec fn cohort_record(first: nat, k: nat) -> DataformView {
    let height = step_height(height_step_at(k));
    let age = step_age(age_step_at(k));
    DataformView {
        index: first + k,
        name: name_of(first + k),
        sex: sex_at(k),
        weight: weight_of(height, age, sex_at(k), factor_at(k)),
        height,
        age,
    }
}

/// The cohort that a count of `count` brings when its first observation gets
/// the identifier `first`.
pub open spec fn cohort(first: nat, count: nat) -> Seq<DataformView> {
    Seq::new(cohort_size(count), |k: int| cohort_record(first, k as nat))
}

/// Whether the given observations are the first ones of the cohort that
/// starts at the identifier `first`, in order.
pub open spec fn starts_cohort(out: Seq<Dataform>, first: nat) -> bool {
    forall|p: int| 0 <= p < out.len() ==> (#[trigger] out[p])@ == cohort_record(first, p as nat)
}

/// Whether every identifier and every height of that cohort fits in 32 bits.
pub open spec fn cohort_fits(first: nat, count: nat) -> bool {
    count <= 1 || (first + cohort_size(count) - 1 <= u32::MAX && step_height((count - 1) as nat)
        <= u32::MAX)
}

/// Decides whether the cohort of `count` starting at `first` fits in 32 bits.
pub fn fits(first: u32, count: u32) -> (r: bool)
    ensures
        r == cohort_fits(first as nat, count as nat),
{
    if count <= 1 {
        return true;
    }
    let steps: u64 = (count - 1) as u64;
    first as u64 + 20 * steps - 1 <= 0xffff_ffff && 1000 + 100 * steps <= 0xffff_ffff
}

/// Builds one observation of a cohort from its place in the four nested ranges.
fn make_record(index: u32, i: u32, j: u32, sex: u32, factor: u32) -> (r: Dataform)
    requires
        step_height(i as nat) <= u32::MAX,
        1 <= j <= 5,
        sex <= 1,
        factor <= 1,
    ensures
        r@ == (DataformView {
            index: index as nat,
            name: name_of(index as nat),
            sex: sex as nat,
            weight: weight_of(
                step_height(i as nat),
                step_age(j as nat),
                sex as nat,
                factor as nat,
            ),
            height: step_height(i as nat),
            age: step_age(j as nat),
        }),
{
    let height: u64 = 1000 + 100 * (i as u64);
    let age: u64 = 500 + 50 * (j as u64);
    let tenfold: u64 = 3 * height + age + 2000 * (sex as u64) + 1000 * (factor as u64);
    let weight: u64 = (tenfold + 5) / 10;
    proof {
        lemma_quotient(2 * tenfold + 10, 20, weight as int);
    }
    Dataform {
        index,
        name: make_name(index),
        sex,
        weight: weight as u32,
        height: height as u32,
        age: age as u32,
    }
}

/// Generates the cohort that a count of `count` brings, its first observation
/// getting the identifier `first`: for each height step, for each age step, for
/// each sex, for each factor, one observation.
pub fn generate(first: u32, count: u32) -> (out: Vec<Dataform>)
    requires
        cohort_fits(first as nat, count as nat),
    ensures
        views(out@) == cohort(first as nat, count as nat),
{
    let mut out: Vec<Dataform> = Vec::new();
    let mut index: u64 = first as u64;
    let mut i: u32 = 1;
    while i < count
        invariant
            cohort_fits(first as nat, count as nat),
            1 <= i,
            i <= count || i == 1,
            out@.len() == 20 * (i - 1),
            index == first + out@.len(),
            starts_cohort(out@, first as nat),
        decreases count - i,
    {
        let mut j: u32 = 1;
        while j < 6
            invariant
                cohort_fits(first as nat, count as nat),
                1 <= i < count,
                1 <= j <= 6,
                out@.len() == 20 * (i - 1) + 4 * (j - 1),
                index == first + out@.len(),
                starts_cohort(out@, first as nat),
            decreases 6 - j,
        {
            let mut sex: u32 = 0;
            while sex < 2
                invariant
                    cohort_fits(first as nat, count as nat),
                    1 <= i < count,
                    1 <= j < 6,
                    sex <= 2,
                    out@.len() == 20 * (i - 1) + 4 * (j - 1) + 2 * sex,
                    index == first + out@.len(),
                    starts_cohort(out@, first as nat),
                decreases 2 - sex,
            {
                let mut factor: u32 = 0;
                while factor < 2
                    invariant
                        cohort_fits(first as nat, count as nat),
                        1 <= i < count,
                        1 <= j < 6,
                        sex < 2,
                        factor <= 2,
                        out@.len() == 20 * (i - 1) + 4 * (j - 1) + 2 * sex + factor,
                        index == first + out@.len(),
                        starts_cohort(out@, first as nat),
                    decreases 2 - factor,
                {
                    let record = make_record(index as u32, i, j, sex, factor);
                    proof {
                        let k = out@.len();
                        assert(height_step_at(k) == i);
                        assert(age_step_at(k) == j);
                        assert(sex_at(k) == sex);
                        assert(factor_at(k) == factor);
                        assert(record@ == cohort_record(first as nat, k));
                    }
                    out.push(record);
                    index = index + 1;
                    factor = factor + 1;
                }
                sex = sex + 1;
            }
            j = j + 1;
        }
        i = i + 1;
    }
    proof {
        assert(out@.len() == cohort_size(count as nat));
        assert(views(out@) =~= cohort(first as nat, count as nat));
    }
    out
}

} // verus!
