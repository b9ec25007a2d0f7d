use cohort_stats::cohort::{fits, generate};
use cohort_stats::{Contract, ContractInterface, Dataform};

fn filled(counts: &[&str]) -> Contract {
    let mut c = Contract::new();
    for count in counts {
        assert!(c.add_jsondata(count.to_string()));
    }
    c
}

#[test]
fn new_dataset_is_empty() {
    assert!(Contract::new().get_datas().is_empty());
}

#[test]
fn count_three_gives_forty_records() {
    let c = filled(&["3"]);
    let datas = c.get_datas();
    assert_eq!(datas.len(), 40);
    let first = &datas[0];
    assert_eq!(first.index, 1);
    assert_eq!(first.name, "NAME1");
    assert_eq!(first.height, 1100);
    assert_eq!(first.age, 550);
    assert_eq!(first.sex, 0);
    assert_eq!(first.weight, 385);
}

#[test]
fn counts_up_to_one_add_nothing() {
    for count in ["0", "1", "+1", "-1", "-7", "00", "01"] {
        let mut c = Contract::new();
        assert!(c.add_jsondata(count.to_string()));
        assert_eq!(c.get_datas().len(), 0, "count {:?}", count);
    }
}

#[test]
fn text_that_is_no_count_adds_nothing() {
    for count in ["", "abc", "3.0", " 3", "3 ", "+", "-", "++3", "3e2", "2147483648", "٣"] {
        let mut c = filled(&["2"]);
        assert!(c.add_jsondata(count.to_string()));
        assert_eq!(c.get_datas().len(), 20, "count {:?}", count);
    }
}

#[test]
fn count_n_adds_twenty_per_step() {
    for n in 2u32..12 {
        let mut c = Contract::new();
        assert!(c.add_jsondata(n.to_string()));
        assert_eq!(c.get_datas().len() as u32, 20 * (n - 1));
    }
}

#[test]
fn plus_sign_and_leading_zeros_are_read() {
    assert_eq!(filled(&["+3"]).get_datas().len(), 40);
    assert_eq!(filled(&["003"]).get_datas().len(), 40);
}

#[test]
fn identifiers_continue_across_calls() {
    let c = filled(&["2", "3", "1", "2"]);
    let datas = c.get_datas();
    assert_eq!(datas.len(), 80);
    for (i, d) in datas.iter().enumerate() {
        assert_eq!(d.index as usize, i + 1);
        assert_eq!(d.name, format!("NAME{}", i + 1));
    }
    assert_eq!(datas[20].height, 1100);
    assert_eq!(datas[59].height, 1200);
    assert_eq!(datas[60].index, 61);
}

#[test]
fn records_come_in_nested_order() {
    let c = filled(&["3"]);
    let datas = c.get_datas();
    let mut k = 0;
    for i in 1..3u32 {
        for j in 1..6u32 {
            for sex in 0..2u32 {
                for factor in 0..2u32 {
                    let d = &datas[k];
                    assert_eq!(d.height, 1000 + 100 * i);
                    assert_eq!(d.age, 500 + 50 * j);
                    assert_eq!(d.sex, sex);
                    assert_eq!(d.weight, 350 + 30 * i + 5 * j + 200 * sex + 100 * factor);
                    k += 1;
                }
            }
        }
    }
    assert_eq!(k, 40);
}

#[test]
fn weights_match_the_rounded_formula() {
    let c = filled(&["6"]);
    for d in c.get_datas() {
        let exact = 0.3 * f64::from(d.height) + 0.1 * f64::from(d.age);
        let factor = (d.index - 1) % 2;
        let expected = (exact + 200.0 * f64::from(d.sex) + 100.0 * f64::from(factor)).round();
        assert_eq!(f64::from(d.weight), expected);
    }
}

#[test]
fn last_record_of_count_three() {
    let c = filled(&["3"]);
    let last = &c.get_datas()[39];
    assert_eq!(
        *last,
        Dataform {
            index: 40,
            name: "NAME40".to_string(),
            sex: 1,
            weight: 735,
            height: 1200,
            age: 750
        }
    );
}

#[test]
fn generate_starts_at_the_given_identifier() {
    let out = generate(101, 2);
    assert_eq!(out.len(), 20);
    assert_eq!(out[0].index, 101);
    assert_eq!(out[0].name, "NAME101");
    assert_eq!(out[19].index, 120);
    assert_eq!(out[19].name, "NAME120");
    assert!(generate(5, 0).is_empty());
    assert!(generate(5, 1).is_empty());
}

#[test]
fn fits_follows_the_32_bit_limits() {
    assert!(fits(1, 0));
    assert!(fits(u32::MAX, 1));
    assert!(fits(1, 2));
    // the last identifier is first + 20 * (count - 1) - 1
    assert!(fits(u32::MAX - 19, 2));
    assert!(!fits(u32::MAX - 18, 2));
    // the last height is 1000 + 100 * (count - 1)
    assert!(fits(1, 42_949_663));
    assert!(!fits(1, 42_949_664));
    assert!(!fits(1, i32::MAX as u32));
}

#[test]
fn cohort_that_does_not_fit_is_refused() {
    let mut c = filled(&["2"]);
    assert!(!c.add_jsondata("42949664".to_string()));
    assert_eq!(c.get_datas().len(), 20);
    assert!(!c.add_jsondata("2147483647".to_string()));
    assert_eq!(c.get_datas().len(), 20);
}

#[test]
fn from_records_takes_a_dataset_back() {
    let c = filled(&["3"]);
    let copy = Contract::from_records(c.get_datas().clone()).expect("a dataset");
    assert_eq!(copy.get_datas(), c.get_datas());
    assert!(Contract::from_records(Vec::new()).expect("empty").get_datas().is_empty());
}

#[test]
fn from_records_refuses_what_is_no_dataset() {
    let good = filled(&["2"]).get_datas().clone();

    let mut gap = good.clone();
    gap.remove(3);
    assert!(Contract::from_records(gap).is_none());

    let mut from_zero = good.clone();
    from_zero[0].index = 0;
    assert!(Contract::from_records(from_zero).is_none());

    let mut renamed = good.clone();
    renamed[5].name = "NAME06".to_string();
    assert!(Contract::from_records(renamed).is_none());

    let mut third_sex = good.clone();
    third_sex[7].sex = 2;
    assert!(Contract::from_records(third_sex).is_none());

    let mut swapped = good.clone();
    swapped.swap(0, 1);
    assert!(Contract::from_records(swapped).is_none());

    let mut reweighed = good;
    reweighed[0].weight = 1;
    assert!(Contract::from_records(reweighed).is_some());
}

#[test]
fn append_takes_what_continues() {
    let mut c = filled(&["2"]);
    assert!(c.append(generate(21, 2)));
    assert_eq!(c.get_datas().len(), 40);
    assert_eq!(c.get_datas()[39].name, "NAME40");
    assert!(c.append(Vec::new()));
    assert_eq!(*c.get_datas(), *filled(&["2", "2"]).get_datas());
}

#[test]
fn append_refuses_what_does_not_continue() {
    let mut c = filled(&["2"]);
    assert!(!c.append(generate(1, 2)));
    assert!(!c.append(generate(22, 2)));
    let mut third_sex = generate(21, 2);
    third_sex[19].sex = 2;
    assert!(!c.append(third_sex));
    assert_eq!(*c.get_datas(), *filled(&["2"]).get_datas());
}
