//! What the two fitted models are given.
//!
//! The fitting itself is numerical work outside this library. What this module
//! fixes is the data that goes into it: which columns, in which order, and the
//! point at which the classifier is asked.

use crate::record::{views, Dataform, DataformView};
use crate::stats::values;
use vstd::prelude::*;

verus! {

/// The measured quantities of an observation.
#[derive(Clone, Copy, Debug, PartialEq, Eq)]
pub enum Field {
    Sex,
    Weight,
    Height,
    Age,
}

/// The given quantity of an observation.
pub open spec fn field_of(r: DataformView, field: Field) -> nat {
    match field {
        Field::Sex => r.sex,
        Field::Weight => r.weight,
        Field::Height => r.height,
        Field::Age => r.age,
    }
}

/// The given quantity of each observation, in storage order.
pub open spec fn column_of(records: Seq<DataformView>, field: Field) -> Seq<nat> {
    records.map_values(|r: DataformView| field_of(r, field))
}

/// The weights of the observations, in storage order.
pub open spec fn weights_of(records: Seq<DataformView>) -> Seq<nat> {
    column_of(records, Field::Weight)
}

/// The feature of an observation that stands in the given column of its row:
/// age, height, weight.
pub open spec fn feature_at(r: DataformView, place: int) -> nat {
    if place == 0 {
        field_of(r, Field::Age)
    } else if place == 1 {
        field_of(r, Field::Height)
    } else {
        field_of(r, Field::Weight)
    }
}

/// The feature matrix of the classifier, row by row: one row of three
/// features for each observation.
pub open spec fn feature_rows(records: Seq<DataformView>) -> Seq<nat> {
    Seq::new(3 * records.len(), |p: int| feature_at(records[p / 3], p % 3))
}

/// The point at which the classifier is asked: an age of 800, a height of
/// 1500, a weight of 630.
pub open spec fn query_point() -> Seq<nat> {
    seq![800, 1500, 630]
}

/// The data of the linear model: weight explained by age and height.
#[derive(Clone, Debug, PartialEq, Eq)]
pub struct LinearInputs {
    /// The explained variable.
    pub weight: Vec<u32>,
    /// The first regressor.
    pub age: Vec<u32>,
    /// The second regressor.
    pub height: Vec<u32>,
}

/// The data of the linear model as plain mathematical values.
pub ghost struct LinearInputsView {
    pub weight: Seq<nat>,
    pub age: Seq<nat>,
    pub height: Seq<nat>,
}

impl View for LinearInputs {
    type V = LinearInputsView;

    open spec fn view(&self) -> LinearInputsView {
        LinearInputsView {
            weight: values(self.weight@),
            age: values(self.age@),
            height: values(self.height@),
        }
    }
}

/// The data of the classifier: sex predicted from age, height and weight.
#[derive(Clone, Debug, PartialEq, Eq)]
pub struct LogisticInputs {
    /// The feature matrix, row by row, three columns wide.
    pub features: Vec<u32>,
    /// The class of each row.
    pub targets: Vec<u32>,
    /// The one row for which a prediction is asked.
    pub query: Vec<u32>,
}

/// The data of the classifier as plain mathematical values.
pub ghost struct LogisticInputsView {
    pub features: Seq<nat>,
    pub targets: Seq<nat>,
    pub query: Seq<nat>,
}

impl View for LogisticInputs {
    type V = LogisticInputsView;

    open spec fn view(&self) -> LogisticInputsView {
        LogisticInputsView {
            features: values(self.features@),
            targets: values(self.targets@),
            query: values(self.query@),
        }
    }
}

/// The data of the linear model for the given observations.
pub open spec fn linear_inputs_of(records: Seq<DataformView>) -> LinearInputsView {
    LinearInputsView {
        weight: column_of(records, Field::Weight),
        age: column_of(records, Field::Age),
        height: column_of(records, Field::Height),
    }
}

/// The data of the classifier for the given observations.
pub open spec fn logistic_inputs_of(records: Seq<DataformView>) -> LogisticInputsView {
    LogisticInputsView {
        features: feature_rows(records),
        targets: column_of(records, Field::Sex),
        query: query_point(),
    }
}

/// The given quantity of an observation.
pub fn pick(d: &Dataform, field: Field) -> (x: u32)
    ensures
        x == field_of(d@, field),
{
    match field {
        Field::Sex => d.sex,
        Field::Weight => d.weight,
        Field::Height => d.height,
        Field::Age => d.age,
    }
}

/// The given quantity of each observation, in storage order.
pub fn project(datas: &Vec<Dataform>, field: Field) -> (col: Vec<u32>)
    ensures
        values(col@) == column_of(views(datas@), field),
{
    let mut col: Vec<u32> = Vec::with_capacity(datas.len());
    let mut i: usize = 0;
    while i < datas.len()
        invariant
            i <= datas.len(),
            col@.len() == i,
            forall|k: int| 0 <= k < i ==> #[trigger] col@[k] == field_of(datas@[k]@, field),
        decreases datas.len() - i,
    {
        col.push(pick(&datas[i], field));
        i += 1;
    }
    assert(values(col@) =~= column_of(views(datas@), field));
    col
}

/// The feature matrix of the classifier, row by row.
pub fn features(datas: &Vec<Dataform>) -> (rows: Vec<u32>)
    ensures
        values(rows@) == feature_rows(views(datas@)),
{
    let mut rows: Vec<u32> = Vec::new();
    let mut i: usize = 0;
    while i < datas.len()
        invariant
            i <= datas.len(),
            rows@.len() == 3 * i,
            forall|p: int|
                0 <= p < 3 * i ==> #[trigger] rows@[p] == feature_at(datas@[p / 3]@, p % 3),
        decreases datas.len() - i,
    {
        rows.push(datas[i].age);
        rows.push(datas[i].height);
        rows.push(datas[i].weight);
        i += 1;
    }
    assert(values(rows@) =~= feature_rows(views(datas@)));
    rows
}

/// The point at which the classifier is asked.
pub fn query() -> (point: Vec<u32>)
    ensures
        values(point@) == query_point(),
{
    let mut point: Vec<u32> = Vec::new();
    point.push(800);
    point.push(1500);
    point.push(630);
    assert(values(point@) =~= query_point());
    point
}

/// The data of the linear model for the given observations.
pub fn linear_inputs(datas: &Vec<Dataform>) -> (inputs: LinearInputs)
    ensures
        inputs@ == linear_inputs_of(views(datas@)),
{
    LinearInputs {
        weight: project(datas, Field::Weight),
        age: project(datas, Field::Age),
        height: project(datas, Field::Height),
    }
}

/// The data of the classifier for the given observations.
pub fn logistic_inputs(datas: &Vec<Dataform>) -> (inputs: LogisticInputs)
    ensures
        inputs@ == logistic_inputs_of(views(datas@)),
{
    LogisticInputs {
        features: features(datas),
        targets: project(datas, Field::Sex),
        query: query(),
    }
}

} // verus!
