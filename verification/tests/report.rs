use cohort_stats::models::{features, project, query, Field, LinearInputs, LogisticInputs};
use cohort_stats::report::{selected, Analysis, Outcome};
use cohort_stats::{Contract, ContractInterface};

fn filled(counts: &[&str]) -> Contract {
    let mut c = Contract::new();
    for count in counts {
        assert!(c.add_jsondata(count.to_string()));
    }
    c
}

fn text(c: &Contract, which: Analysis) -> String {
    match c.analyse(&which) {
        Outcome::Text(t) => t,
        other => panic!("no text: {:?}", other),
    }
}

#[test]
fn find_name_answers_with_a_text() {
    let c = filled(&["3"]);
    assert_eq!(c.find_name("NAME1".to_string()), "Exists");
    assert_eq!(c.find_name("NAME40".to_string()), "Exists");
    assert_eq!(c.find_name("NAME41".to_string()), "None");
    assert_eq!(c.find_name("NAME0".to_string()), "None");
    assert_eq!(c.find_name("NAME01".to_string()), "None");
    assert_eq!(c.find_name("NAME".to_string()), "None");
    assert_eq!(c.find_name("name1".to_string()), "None");
    assert_eq!(c.find_name("NAME_NOT_PRESENT".to_string()), "None");
    assert_eq!(c.find_name(String::new()), "None");
}

#[test]
fn find_name_on_the_empty_dataset() {
    let c = Contract::new();
    assert_eq!(c.find_name("NAME1".to_string()), "None");
    assert_eq!(c.find_name("NAME_NOT_PRESENT".to_string()), "None");
}

#[test]
fn first_name_exists_after_any_cohort() {
    for counts in [vec!["2"], vec!["3"], vec!["0", "2"], vec!["2", "7", "x"]] {
        let c = filled(&counts);
        assert_eq!(c.find_name("NAME1".to_string()), "Exists");
        assert_eq!(c.find_name("NAME_NOT_PRESENT".to_string()), "None");
    }
}

#[test]
fn max_name_is_lexicographic() {
    assert_eq!(Contract::new().get_max_name(), "None");
    assert_eq!(filled(&["2"]).get_max_name(), "NAME9");
    assert_eq!(filled(&["3"]).get_max_name(), "NAME9");
    assert_eq!(filled(&["6"]).get_max_name(), "NAME99");
    assert_eq!(filled(&["11"]).get_max_name(), "NAME99");
}

#[test]
fn max_name_of_fewer_than_nine() {
    let few: Vec<_> = filled(&["2"]).get_datas()[..8].to_vec();
    let c = Contract::from_records(few).expect("a dataset");
    assert_eq!(c.get_max_name(), "NAME8");
    let ten: Vec<_> = filled(&["2"]).get_datas()[..10].to_vec();
    let c = Contract::from_records(ten).expect("a dataset");
    assert_eq!(c.get_max_name(), "NAME9");
}

#[test]
fn analyse_writes_numbers_in_decimal() {
    let c = filled(&["3"]);
    assert_eq!(text(&c, Analysis::Mean), "560");
    assert_eq!(text(&c, Analysis::Stdev), "114");
    assert_eq!(text(&c, Analysis::Variance), "12775");
    assert_eq!(text(&c, Analysis::MaxWeight), "735");
    assert_eq!(text(&c, Analysis::MaxName), "NAME9");
    assert_eq!(text(&c, Analysis::FindName("NAME111".to_string())), "None");
    assert_eq!(text(&c, Analysis::FindName("NAME11".to_string())), "Exists");
}

#[test]
fn analyse_on_the_empty_dataset() {
    let c = Contract::new();
    assert_eq!(text(&c, Analysis::Mean), "0");
    assert_eq!(text(&c, Analysis::Stdev), "0");
    assert_eq!(text(&c, Analysis::Variance), "0");
    assert_eq!(text(&c, Analysis::MaxWeight), "0");
    assert_eq!(text(&c, Analysis::MaxName), "None");
    assert_eq!(text(&c, Analysis::FindName("NAME1".to_string())), "None");
}

#[test]
fn columns_follow_storage_order() {
    let c = filled(&["2"]);
    let datas = c.get_datas();
    let weights = project(datas, Field::Weight);
    let ages = project(datas, Field::Age);
    let heights = project(datas, Field::Height);
    let sexes = project(datas, Field::Sex);
    assert_eq!(weights.len(), 20);
    assert_eq!(&weights[..4], &[385, 485, 585, 685]);
    assert_eq!(&ages[..5], &[550, 550, 550, 550, 600]);
    assert_eq!(heights, vec![1100; 20]);
    assert_eq!(&sexes[..4], &[0, 0, 1, 1]);
}

#[test]
fn linear_inputs_hold_weight_age_height() {
    let c = filled(&["2"]);
    let datas = c.get_datas();
    assert_eq!(
        c.linear_inputs(),
        LinearInputs {
            weight: project(datas, Field::Weight),
            age: project(datas, Field::Age),
            height: project(datas, Field::Height),
        }
    );
    assert_eq!(c.analyse(&Analysis::LinearModel), Outcome::FitLinear(c.linear_inputs()));
}

#[test]
fn logistic_inputs_hold_rows_of_three() {
    let c = filled(&["2"]);
    let inputs = c.logistic_inputs();
    assert_eq!(inputs.features.len(), 60);
    assert_eq!(&inputs.features[..6], &[550, 1100, 385, 550, 1100, 485]);
    assert_eq!(&inputs.features[57..], &[750, 1100, 705]);
    assert_eq!(inputs.features, features(c.get_datas()));
    assert_eq!(inputs.targets, project(c.get_datas(), Field::Sex));
    assert_eq!(inputs.query, vec![800, 1500, 630]);
    assert_eq!(query(), vec![800, 1500, 630]);
}

#[test]
fn logistic_inputs_of_the_empty_dataset() {
    assert_eq!(
        Contract::new().logistic_inputs(),
        LogisticInputs { features: vec![], targets: vec![], query: vec![800, 1500, 630] }
    );
}

#[test]
fn report_is_wired_to_the_classifier() {
    assert_eq!(selected(), Analysis::LogisticModel);
    let c = filled(&["3"]);
    assert_eq!(c.return_latest_jsondata(), Outcome::FitLogistic(c.logistic_inputs()));
}

#[test]
fn report_twice_gives_the_same_and_changes_nothing() {
    let c = filled(&["2", "4"]);
    let before = c.get_datas().clone();
    let first = c.return_latest_jsondata();
    let second = c.return_latest_jsondata();
    assert_eq!(first, second);
    assert_eq!(*c.get_datas(), before);
    for which in [Analysis::Mean, Analysis::Stdev, Analysis::Variance, Analysis::MaxName] {
        assert_eq!(c.analyse(&which), c.analyse(&which));
    }
    assert_eq!(*c.get_datas(), before);
}
