//! Which computation a report stands for, and what a report is.

use crate::models::{
    linear_inputs_of, logistic_inputs_of, weights_of, LinearInputs, LinearInputsView,
    LogisticInputs, LogisticInputsView,
};
use crate::record::DataformView;
use crate::stats::{max_of, mean_of, stdev_of, variance_of};
use crate::text::{decimal, greatest};
use vstd::prelude::*;

verus! {

/// The text that says that a label was found.
pub open spec fn exists_text() -> Seq<char> {
    seq!['E', 'x', 'i', 's', 't', 's']
}

/// The text that stands for nothing: no such label, or no observation at all.
pub open spec fn none_text() -> Seq<char> {
    seq!['N', 'o', 'n', 'e']
}

/// The labels of the observations, in storage order.
pub open spec fn names_of(records: Seq<DataformView>) -> Seq<Seq<char>> {
    records.map_values(|r: DataformView| r.name)
}

/// Whether one of the observations has the given label.
pub open spec fn has_name(records: Seq<DataformView>, name: Seq<char>) -> bool {
    exists|i: int| 0 <= i < records.len() && (#[trigger] records[i]).name == name
}

/// What a search for a label answers.
pub open spec fn find_name_text(records: Seq<DataformView>, name: Seq<char>) -> Seq<char> {
    if has_name(records, name) {
        exists_text()
    } else {
        none_text()
    }
}

/// The label that comes last in lexicographic order, or the text for nothing
/// where there is no observation.
pub open spec fn max_name_text(records: Seq<DataformView>) -> Seq<char> {
    if records.len() == 0 {
        none_text()
    } else {
        greatest(names_of(records))
    }
}

/// The computations that a report can stand for.
#[derive(Clone, Debug, PartialEq, Eq)]
pub enum Analysis {
    /// The mean weight.
    Mean,
    /// The sample standard deviation of the weights.
    Stdev,
    /// The population variance of the weights.
    Variance,
    /// The largest weight.
    MaxWeight,
    /// Whether an observation has the given label.
    FindName(String),
    /// The label that comes last in lexicographic order.
    MaxName,
    /// The linear model of weight by age and height.
    LinearModel,
    /// The classifier of sex by age, height and weight.
    LogisticModel,
}

/// A computation as a plain mathematical value.
pub ghost enum AnalysisView {
    Mean,
    Stdev,
    Variance,
    MaxWeight,
    FindName(Seq<char>),
    MaxName,
    LinearModel,
    LogisticModel,
}

impl View for Analysis {
    type V = AnalysisView;

    open spec fn view(&self) -> AnalysisView {
        match self {
            Analysis::Mean => AnalysisView::Mean,
            Analysis::Stdev => AnalysisView::Stdev,
            Analysis::Variance => AnalysisView::Variance,
            Analysis::MaxWeight => AnalysisView::MaxWeight,
            Analysis::FindName(name) => AnalysisView::FindName(name@),
            Analysis::MaxName => AnalysisView::MaxName,
            Analysis::LinearModel => AnalysisView::LinearModel,
            Analysis::LogisticModel => AnalysisView::LogisticModel,
        }
    }
}

/// What a report holds: the finished text, or the data of the model that is
/// still to be fitted.
#[derive(Clone, Debug, PartialEq, Eq)]
pub enum Outcome {
    /// The result, written out.
    Text(String),
    /// The linear model has to be fitted to this data.
    FitLinear(LinearInputs),
    /// The classifier has to be trained on this data and asked at its query point.
    FitLogistic(LogisticInputs),
}

/// A report as a plain mathematical value.
pub ghost enum OutcomeView {
    Text(Seq<char>),
    FitLinear(LinearInputsView),
    FitLogistic(LogisticInputsView),
}

impl View for Outcome {
    type V = OutcomeView;

    open spec fn view(&self) -> OutcomeView {
        match self {
            Outcome::Text(text) => OutcomeView::Text(text@),
            Outcome::FitLinear(inputs) => OutcomeView::FitLinear(inputs@),
            Outcome::FitLogistic(inputs) => OutcomeView::FitLogistic(inputs@),
        }
    }
}

/// The report of the given computation on the given observations. A number
/// is written in decimal.
pub open spec fn outcome_of(records: Seq<DataformView>, which: AnalysisView) -> OutcomeView {
    match which {
        AnalysisView::Mean => OutcomeView::Text(decimal(mean_of(weights_of(records)) as nat)),
        AnalysisView::Stdev => OutcomeView::Text(decimal(stdev_of(weights_of(records)) as nat)),
        AnalysisView::Variance => OutcomeView::Text(
            decimal(variance_of(weights_of(records)) as nat),
        ),
        AnalysisView::MaxWeight => OutcomeView::Text(decimal(max_of(weights_of(records)))),
        AnalysisView::FindName(name) => OutcomeView::Text(find_name_text(records, name)),
        AnalysisView::MaxName => OutcomeView::Text(max_name_text(records)),
        AnalysisView::LinearModel => OutcomeView::FitLinear(linear_inputs_of(records)),
        AnalysisView::LogisticModel => OutcomeView::FitLogistic(logistic_inputs_of(records)),
    }
}

/// The computation that the reporting entry point is wired to.
pub open spec fn wired() -> AnalysisView {
    AnalysisView::LogisticModel
}

/// The computation that the reporting entry point is wired to.
pub fn selected() -> (which: Analysis)
    ensures
        which@ == wired(),
{
    Analysis::LogisticModel
}

} // verus!
