use cohort_stats::models::{LinearInputs, LogisticInputs};
use cohort_stats::report::Outcome;
use cohort_stats::{Contract, ContractInterface};
use linregress::{FormulaRegressionBuilder, RegressionDataBuilder};
use rusty_machine::learning::logistic_reg::LogisticRegressor;
use rusty_machine::learning::SupModel;
use rusty_machine::linalg::{Matrix, Vector};

fn filled(count: &str) -> Contract {
    let mut c = Contract::new();
    assert!(c.add_jsondata(count.to_string()));
    c
}

fn floats(values: &[u32]) -> Vec<f64> {
    values.iter().map(|v| f64::from(*v)).collect()
}

fn predict(inputs: &LogisticInputs) -> String {
    let features = Matrix::new(inputs.targets.len(), 3, floats(&inputs.features));
    let targets = Vector::new(floats(&inputs.targets));
    let mut model = LogisticRegressor::default();
    model.train(&features, &targets).unwrap();
    let output = model.predict(&Matrix::new(1, 3, floats(&inputs.query))).unwrap();
    (output[0] * 100.0).to_string()
}

fn fit(inputs: &LinearInputs) -> (f64, f64, f64) {
    let data = RegressionDataBuilder::new()
        .build_from(vec![
            ("Y", floats(&inputs.weight)),
            ("X1", floats(&inputs.age)),
            ("X2", floats(&inputs.height)),
        ])
        .expect("data");
    let model = FormulaRegressionBuilder::new()
        .data(&data)
        .formula("Y ~ X1 + X2")
        .fit()
        .expect("fit");
    let parameters = model.parameters;
    (parameters.intercept_value, parameters.regressor_values[0], parameters.regressor_values[1])
}

#[test]
fn logistic_prediction_is_repeatable() {
    let c = filled("3");
    let first = match c.return_latest_jsondata() {
        Outcome::FitLogistic(inputs) => predict(&inputs),
        other => panic!("no classifier: {:?}", other),
    };
    let second = match c.return_latest_jsondata() {
        Outcome::FitLogistic(inputs) => predict(&inputs),
        other => panic!("no classifier: {:?}", other),
    };
    assert_eq!(first, second);
    assert_eq!(c.get_datas().len(), 40);
}

#[test]
fn linear_model_recovers_the_weight_formula() {
    let c = filled("5");
    let (intercept, age, height) = fit(&c.linear_inputs());
    assert!((intercept - 150.0).abs() < 1e-6, "intercept {}", intercept);
    assert!((age - 0.1).abs() < 1e-9, "age {}", age);
    assert!((height - 0.3).abs() < 1e-9, "height {}", height);
}
