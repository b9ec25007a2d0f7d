//! The dataset and what is computed from it.

use crate::cohort::{cohort, cohort_fits, cohort_record, cohort_size, fits, generate};
use crate::models::{
    linear_inputs, linear_inputs_of, logistic_inputs, logistic_inputs_of, project, weights_of,
    Field, LinearInputs, LogisticInputs,
};
use crate::record::{make_name, name_of, views, Dataform, DataformView};
use crate::report::{
    exists_text, find_name_text, max_name_text, names_of, none_text, outcome_of, selected, wired,
    Analysis, Outcome,
};
use crate::stats::{max, max_of, mean, mean_of, stdev, stdev_of, variance, variance_of};
use crate::text::{count_of, decimal_string, greatest, parse_count, str_le};
use vstd::prelude::*;
use vstd::string::StringExecFns;

verus! {

/// Whether an observation can stand at position `i` of a dataset, counted
/// from 0: its identifier is `i + 1`, its label follows from the identifier,
/// its sex is 0 or 1, and every number fits in 32 bits.
pub open spec fn fits_place(r: DataformView, i: int) -> bool {
    &&& r.index == i + 1
    &&& r.name == name_of((i + 1) as nat)
    &&& r.sex <= 1
    &&& r.index <= u32::MAX
    &&& r.weight <= u32::MAX
    &&& r.height <= u32::MAX
    &&& r.age <= u32::MAX
}

/// Whether a sequence of observations is a dataset: the identifiers count up
/// from 1 in storage order, each label follows from its identifier, each sex
/// is 0 or 1, and every number fits in 32 bits.
pub open spec fn well_formed(records: Seq<DataformView>) -> bool {
    forall|i: int| 0 <= i < records.len() ==> fits_place(#[trigger] records[i], i)
}

/// Whether the given observations can follow `stored` observations of a
/// dataset, in order.
pub open spec fn continues_from(fresh: Seq<DataformView>, stored: int) -> bool {
    forall|k: int| 0 <= k < fresh.len() ==> fits_place(#[trigger] fresh[k], stored + k)
}

/// The dataset: the observations stored so far, in the order in which they came.
/// Observations are only ever added, at the end.
pub struct Contract {
    datas: Vec<Dataform>,
}

impl View for Contract {
    type V = Seq<DataformView>;

    closed spec fn view(&self) -> Seq<DataformView> {
        views(self.datas@)
    }
}

/// The entry points of the dataset: one extends it, one reports on it.
pub trait ContractInterface {
    /// The observations stored so far.
    spec fn records(&self) -> Seq<DataformView>;

    /// Extends the dataset by the cohort that `data` asks for, the new
    /// identifiers continuing where the stored ones end. A text that is no count
    /// asks for nothing. Where the cohort's identifiers or heights would not
    /// fit in 32 bits nothing is added and the answer is `false`.
    fn add_jsondata(&mut self, data: String) -> (added: bool)
        ensures
            well_formed(final(self).records()),
            added == cohort_fits(old(self).records().len() + 1, count_of(data@)),
            added ==> final(self).records() == old(self).records() + cohort(
                old(self).records().len() + 1,
                count_of(data@),
            ),
            !added ==> final(self).records() == old(self).records(),
    ;

    /// Reports on the dataset: the computation that this entry point is wired
    /// to, on all the observations stored. The dataset stays as it is.
    fn return_latest_jsondata(&self) -> (report: Outcome)
        ensures
            report@ == outcome_of(self.records(), wired()),
    ;
}

impl Contract {
    #[verifier::type_invariant]
    spec fn stored_is_well_formed(&self) -> bool {
        well_formed(views(self.datas@))
    }

    /// The dataset before anything was added.
    pub fn new() -> (c: Contract)
        ensures
            c@ == Seq::<DataformView>::empty(),
            well_formed(c@),
    {
        let c = Contract { datas: Vec::new() };
        assert(c@ =~= Seq::<DataformView>::empty());
        c
    }

    /// The observations stored so far, in storage order.
    pub fn get_datas(&self) -> (datas: &Vec<Dataform>)
        ensures
            views(datas@) == self@,
            well_formed(self@),
    {
        proof {
            use_type_invariant(self);
        }
        &self.datas
    }

    /// Takes stored observations back in, if they are a dataset.
    pub fn from_records(records: Vec<Dataform>) -> (r: Option<Contract>)
        ensures
            r is Some <==> well_formed(views(records@)),
            r matches Some(c) ==> c@ == views(records@),
    {
        if continues(&records, 0) {
            Some(Contract { datas: records })
        } else {
            None
        }
    }

    /// Adds the given observations at the end, if what is stored is a dataset
    /// with them too. Otherwise nothing is added and the answer is `false`.
    pub fn append(&mut self, fresh: Vec<Dataform>) -> (added: bool)
        ensures
            well_formed(final(self)@),
            added == well_formed(old(self)@ + views(fresh@)),
            added ==> final(self)@ == old(self)@ + views(fresh@),
            !added ==> final(self)@ == old(self)@,
    {
        proof {
            use_type_invariant(&*self);
            lemma_well_formed_concat(self@, views(fresh@));
        }
        if continues(&fresh, self.datas.len()) {
            self.extend(fresh);
            true
        } else {
            false
        }
    }

    /// Adds observations that are known to continue the dataset.
    fn extend(&mut self, fresh: Vec<Dataform>)
        requires
            continues_from(views(fresh@), old(self)@.len() as int),
        ensures
            final(self)@ == old(self)@ + views(fresh@),
            well_formed(final(self)@),
    {
        proof {
            use_type_invariant(&*self);
            lemma_well_formed_concat(self@, views(fresh@));
        }
        let ghost added = views(fresh@);
        let mut fresh = fresh;
        // The stored observations are taken out, extended, and put back, so
        // that what is stored is a dataset at every moment.
        let mut all: Vec<Dataform> = Vec::new();
        assert(well_formed(views(all@)));
        core::mem::swap(&mut self.datas, &mut all);
        all.append(&mut fresh);
        assert(views(all@) =~= old(self)@ + added);
        core::mem::swap(&mut self.datas, &mut all);
    }

    /// The mean weight, rounded to the nearest integer; zero while nothing is stored.
    pub fn get_mean(&self) -> (r: u64)
        ensures
            r == mean_of(weights_of(self@)),
    {
        mean(&project(&self.datas, Field::Weight))
    }

    /// The sample standard deviation of the weights, rounded to the nearest
    /// integer; zero while fewer than two observations are stored.
    pub fn get_stdev(&self) -> (r: u64)
        ensures
            r == stdev_of(weights_of(self@)),
    {
        let ws = project(&self.datas, Field::Weight);
        proof {
            use_type_invariant(self);
            self.lemma_size();
            assert(ws@.len() == weights_of(self@).len());
        }
        stdev(&ws)
    }

    /// The population variance of the weights, rounded to the nearest integer;
    /// zero while nothing is stored.
    pub fn get_variance(&self) -> (r: u64)
        ensures
            r == variance_of(weights_of(self@)),
    {
        let ws = project(&self.datas, Field::Weight);
        proof {
            use_type_invariant(self);
            self.lemma_size();
            assert(ws@.len() == weights_of(self@).len());
        }
        variance(&ws)
    }

    /// The largest weight; zero while nothing is stored.
    pub fn get_max(&self) -> (r: u32)
        ensures
            r == max_of(weights_of(self@)),
    {
        max(&project(&self.datas, Field::Weight))
    }

    /// Says whether an observation has the given label.
    pub fn find_name(&self, name: String) -> (r: String)
        ensures
            r@ == find_name_text(self@, name@),
    {
        let mut i: usize = 0;
        while i < self.datas.len()
            invariant
                i <= self.datas.len(),
                forall|k: int| 0 <= k < i ==> (#[trigger] self@[k]).name != name@,
            decreases self.datas.len() - i,
        {
            if self.datas[i].name == name {
                assert(self@[i as int].name == name@);
                proof {
                    reveal_strlit("Exists");
                }
                let found = String::from_str("Exists");
                assert(found@ =~= exists_text());
                return found;
            }
            i += 1;
        }
        proof {
            reveal_strlit("None");
        }
        let none = String::from_str("None");
        assert(none@ =~= none_text());
        none
    }

    /// The label that comes last in lexicographic order, or the text for
    /// nothing while nothing is stored.
    pub fn get_max_name(&self) -> (r: String)
        ensures
            r@ == max_name_text(self@),
    {
        if self.datas.len() == 0 {
            proof {
                reveal_strlit("None");
            }
            let none = String::from_str("None");
            assert(none@ =~= none_text());
            return none;
        }
        let mut best: usize = 0;
        let mut i: usize = 1;
        assert(names_of(self@).take(1)[0] == self@[0].name);
        while i < self.datas.len()
            invariant
                best < i <= self.datas.len(),
                self@[best as int].name == greatest(names_of(self@).take(i as int)),
            decreases self.datas.len() - i,
        {
            proof {
                let before = names_of(self@).take(i as int);
                let after = names_of(self@).take(i + 1);
                assert(after.drop_last() =~= before);
                assert(after.last() == self@[i as int].name);
            }
            if str_le(self.datas[best].name.as_str(), self.datas[i].name.as_str()) {
                best = i;
            }
            i += 1;
        }
        assert(names_of(self@).take(i as int) =~= names_of(self@));
        self.datas[best].name.clone()
    }

    /// The data that the linear model is fitted to.
    pub fn linear_inputs(&self) -> (inputs: LinearInputs)
        ensures
            inputs@ == linear_inputs_of(self@),
    {
        linear_inputs(&self.datas)
    }

    /// The data that the classifier is trained on, with its query point.
    pub fn logistic_inputs(&self) -> (inputs: LogisticInputs)
        ensures
            inputs@ == logistic_inputs_of(self@),
    {
        logistic_inputs(&self.datas)
    }

    /// Reports the given computation on all the observations stored.
    pub fn analyse(&self, which: &Analysis) -> (report: Outcome)
        ensures
            report@ == outcome_of(self@, which@),
    {
        match which {
            Analysis::Mean => Outcome::Text(decimal_string(self.get_mean())),
            Analysis::Stdev => Outcome::Text(decimal_string(self.get_stdev())),
            Analysis::Variance => Outcome::Text(decimal_string(self.get_variance())),
            Analysis::MaxWeight => Outcome::Text(decimal_string(self.get_max() as u64)),
            Analysis::FindName(name) => Outcome::Text(self.find_name(name.clone())),
            Analysis::MaxName => Outcome::Text(self.get_max_name()),
            Analysis::LinearModel => Outcome::FitLinear(self.linear_inputs()),
            Analysis::LogisticModel => Outcome::FitLogistic(self.logistic_inputs()),
        }
    }

    /// No more observations are stored than 32-bit identifiers can number.
    proof fn lemma_size(&self)
        requires
            well_formed(self@),
        ensures
            self.datas@.len() <= u32::MAX,
    {
        let n = self.datas@.len();
        if n > 0 {
            assert(self@[n - 1].index == n);
        }
    }
}

/// Observations appended to a dataset give a dataset exactly if they continue it.
pub proof fn lemma_well_formed_concat(records: Seq<DataformView>, fresh: Seq<DataformView>)
    requires
        well_formed(records),
    ensures
        well_formed(records + fresh) <==> continues_from(fresh, records.len() as int),
{
    let all = records + fresh;
    let stored = records.len() as int;
    if continues_from(fresh, stored) {
        assert forall|i: int| 0 <= i < all.len() implies fits_place(#[trigger] all[i], i) by {
            if i >= stored {
                assert(all[i] == fresh[i - stored]);
            }
        }
    }
    if well_formed(all) {
        assert forall|k: int| 0 <= k < fresh.len() implies fits_place(
            #[trigger] fresh[k],
            stored + k,
        ) by {
            assert(all[stored + k] == fresh[k]);
        }
    }
}

/// A cohort that fits, with identifiers that continue, continues the dataset.
pub proof fn lemma_cohort_continues(stored: nat, count: nat)
    requires
        cohort_fits(stored + 1, count),
    ensures
        continues_from(cohort(stored + 1, count), stored as int),
{
    let fresh = cohort(stored + 1, count);
    assert forall|k: int| 0 <= k < fresh.len() implies fits_place(
        #[trigger] fresh[k],
        stored + k,
    ) by {
        assert(fresh[k] == cohort_record(stored + 1, k as nat));
        assert(k < cohort_size(count));
    }
}

/// Decides whether the given observations can follow `stored` observations
/// of a dataset.
fn continues(fresh: &Vec<Dataform>, stored: usize) -> (r: bool)
    ensures
        r == continues_from(views(fresh@), stored as int),
{
    let mut k: usize = 0;
    while k < fresh.len()
        invariant
            k <= fresh.len(),
            continues_from(views(fresh@).take(k as int), stored as int),
        decreases fresh.len() - k,
    {
        let place: u128 = stored as u128 + k as u128;
        if place >= 0xffff_ffff {
            assert(!fits_place(views(fresh@)[k as int], stored + k));
            return false;
        }
        let index: u32 = place as u32 + 1;
        let expected = make_name(index);
        if fresh[k].index != index || fresh[k].name != expected || fresh[k].sex > 1 {
            assert(!fits_place(views(fresh@)[k as int], stored + k));
            return false;
        }
        proof {
            let before = views(fresh@).take(k as int);
            let after = views(fresh@).take(k + 1);
            assert forall|j: int| 0 <= j < after.len() implies fits_place(
                #[trigger] after[j],
                stored + j,
            ) by {
                if j < k {
                    assert(after[j] == before[j]);
                }
            }
        }
        k += 1;
    }
    assert(views(fresh@).take(k as int) =~= views(fresh@));
    true
}

impl ContractInterface for Contract {
    open spec fn records(&self) -> Seq<DataformView> {
        self@
    }

    fn add_jsondata(&mut self, data: String) -> (added: bool) {
        proof {
            use_type_invariant(&*self);
        }
        let count = parse_count(data.as_str());
        let stored = self.datas.len();
        if count <= 1 {
            assert(self@ + cohort((stored + 1) as nat, count as nat) =~= self@);
            return true;
        }
        assert(stored <= u32::MAX) by {
            if stored > 0 {
                assert(views(self.datas@)[stored - 1].index == stored);
            }
        }
        if stored >= 0xffff_ffff {
            return false;
        }
        let first: u32 = stored as u32 + 1;
        if !fits(first, count) {
            return false;
        }
        let fresh = generate(first, count);
        proof {
            lemma_cohort_continues(stored as nat, count as nat);
        }
        self.extend(fresh);
        true
    }

    fn return_latest_jsondata(&self) -> (report: Outcome) {
        self.analyse(&selected())
    }
}

} // verus!
