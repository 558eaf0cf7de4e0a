use perceptron::dataset::{
    encode_embarked, encode_sex, features, titanic_examples, Passenger, FEATURE_COUNT,
};
use perceptron::scalar::Scalar;

#[derive(Clone, Copy, Debug, PartialEq)]
struct Real(f64);

impl Scalar for Real {
    fn from_int(n: i32) -> Self {
        Real(f64::from(n))
    }

    fn plus(self, rhs: Self) -> Self {
        Real(self.0 + rhs.0)
    }

    fn minus(self, rhs: Self) -> Self {
        Real(self.0 - rhs.0)
    }

    fn times(self, rhs: Self) -> Self {
        Real(self.0 * rhs.0)
    }

    fn over(self, rhs: Self) -> Self {
        Real(self.0 / rhs.0)
    }

    fn negated(self) -> Self {
        Real(-self.0)
    }

    fn exp(self) -> Self {
        Real(self.0.exp())
    }

    fn tanh(self) -> Self {
        Real(self.0.tanh())
    }

    fn larger(self, rhs: Self) -> Self {
        Real(self.0.max(rhs.0))
    }

    fn exceeds(self, rhs: Self) -> bool {
        self.0 > rhs.0
    }
}

fn passenger(sex: &str, age: Option<f64>, embarked: &str, survived: f64) -> Passenger<Real> {
    Passenger {
        survived: Real(survived),
        pclass: Real(3.0),
        sex: sex.to_string(),
        age: age.map(Real),
        sib_sp: Real(1.0),
        parch: Real(2.0),
        fare: Real(7.25),
        embarked: embarked.to_string(),
    }
}

#[test]
fn sex_is_zero_for_male_and_one_otherwise() {
    assert_eq!(encode_sex("male"), 0);
    assert_eq!(encode_sex("female"), 1);
    assert_eq!(encode_sex(""), 1);
    assert_eq!(encode_sex("Male"), 1);
    assert_eq!(encode_sex("males"), 1);
    assert_eq!(encode_sex("mal"), 1);
    assert_eq!(encode_sex("m\u{e4}le"), 1);
}

#[test]
fn embarked_has_three_codes_and_falls_back_to_the_first() {
    assert_eq!(encode_embarked("S"), 0);
    assert_eq!(encode_embarked("C"), 1);
    assert_eq!(encode_embarked("Q"), 2);
    assert_eq!(encode_embarked(""), 0);
    assert_eq!(encode_embarked("X"), 0);
    assert_eq!(encode_embarked("c"), 0);
    assert_eq!(encode_embarked("QQ"), 0);
}

fn reals(values: [f64; 7]) -> Vec<Real> {
    values.iter().map(|v| Real(*v)).collect()
}

#[test]
fn features_come_in_the_order_of_the_columns() {
    let f = features(&passenger("male", Some(22.0), "S", 0.0));
    assert_eq!(f.len(), FEATURE_COUNT);
    assert_eq!(f, reals([3.0, 0.0, 22.0, 1.0, 2.0, 7.25, 0.0]));
    let f = features(&passenger("female", Some(38.0), "C", 1.0));
    assert_eq!(f, reals([3.0, 1.0, 38.0, 1.0, 2.0, 7.25, 1.0]));
    let f = features(&passenger("female", Some(0.5), "Q", 1.0));
    assert_eq!(f, reals([3.0, 1.0, 0.5, 1.0, 2.0, 7.25, 2.0]));
}

#[test]
fn a_missing_age_counts_as_zero() {
    let f = features(&passenger("male", None, "", 0.0));
    assert_eq!(f[2], Real(0.0));
    assert_eq!(f[6], Real(0.0));
}

#[test]
fn examples_keep_the_order_of_the_records() {
    let records = vec![
        passenger("male", Some(22.0), "S", 0.0),
        passenger("female", None, "Q", 1.0),
        passenger("female", Some(4.0), "C", 1.0),
    ];
    let (all_features, targets) = titanic_examples(&records);
    assert_eq!(targets, vec![Real(0.0), Real(1.0), Real(1.0)]);
    assert_eq!(all_features.len(), 3);
    for (f, p) in all_features.iter().zip(&records) {
        assert_eq!(*f, features(p));
    }
    assert_eq!(all_features[1][1], Real(1.0));
    assert_eq!(all_features[1][2], Real(0.0));
    assert_eq!(all_features[1][6], Real(2.0));
}

#[test]
fn an_empty_table_has_no_examples() {
    let (all_features, targets) = titanic_examples::<Real>(&[]);
    assert!(all_features.is_empty());
    assert!(targets.is_empty());
}
