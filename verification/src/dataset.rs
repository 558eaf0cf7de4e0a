//! The passenger table: how one record becomes the features and the target
//! of a training example.

use crate::scalar::{is_int, Scalar};
use vstd::prelude::*;
use vstd::string::StrSliceExecFns;

verus! {

/// One record of the passenger table, with the columns that an example is
/// made of.
#[derive(Clone, Debug)]
pub struct Passenger<S> {
    pub survived: S,
    pub pclass: S,
    pub sex: String,
    /// `None` where the table has no age.
    pub age: Option<S>,
    pub sib_sp: S,
    pub parch: S,
    pub fare: S,
    pub embarked: String,
}

/// What a [`Passenger`] is to the contracts.
pub ghost struct PassengerModel<S> {
    pub survived: S,
    pub pclass: S,
    pub sex: Seq<char>,
    pub age: Option<S>,
    pub sib_sp: S,
    pub parch: S,
    pub fare: S,
    pub embarked: Seq<char>,
}

impl<S> View for Passenger<S> {
    type V = PassengerModel<S>;

    open spec fn view(&self) -> PassengerModel<S> {
        PassengerModel {
            survived: self.survived,
            pclass: self.pclass,
            sex: self.sex@,
            age: self.age,
            sib_sp: self.sib_sp,
            parch: self.parch,
            fare: self.fare,
            embarked: self.embarked@,
        }
    }
}

/// The number of features of an example.
pub const FEATURE_COUNT: usize = 7;

/// The code of a sex: 0 for `male`, 1 for anything else.
pub open spec fn sex_code(sex: Seq<char>) -> i32 {
    if sex == "male"@ {
        0
    } else {
        1
    }
}

/// The code of the harbour where a passenger embarked: 0 for `S`, 1 for `C`, 2 for `Q`, and 0
/// again for anything else.
pub open spec fn embarked_code(harbour: Seq<char>) -> i32 {
    if harbour == "C"@ {
        1
    } else if harbour == "Q"@ {
        2
    } else {
        0
    }
}

/// `f` holds the features of the passenger `p`: class, the code of the sex,
/// age or zero where there is none, siblings and spouses, parents and
/// children, fare, and the code of the harbour, in this order. The codes and the
/// zero are the scalars that stand for these whole numbers.
pub open spec fn is_features<S: Scalar>(p: PassengerModel<S>, f: Seq<S>) -> bool {
    &&& f.len() == FEATURE_COUNT
    &&& f[0] == p.pclass
    &&& is_int(sex_code(p.sex), f[1])
    &&& match p.age {
        Some(age) => f[2] == age,
        None => is_int(0, f[2]),
    }
    &&& f[3] == p.sib_sp
    &&& f[4] == p.parch
    &&& f[5] == p.fare
    &&& is_int(embarked_code(p.embarked), f[6])
}

/// Whether two strings hold the same text.
fn same_text(a: &str, b: &str) -> (same: bool)
    ensures
        same == (a@ == b@),
{
    let n = a.unicode_len();
    if n != b.unicode_len() {
        return false;
    }
    let mut i: usize = 0;
    while i < n
        invariant
            i <= n,
            n == a@.len(),
            n == b@.len(),
            forall|k: int| 0 <= k < i ==> a@[k] == b@[k],
        decreases n - i,
    {
        if a.get_char(i) != b.get_char(i) {
            return false;
        }
        i = i + 1;
    }
    assert(a@ =~= b@);
    true
}

/// The code of a sex.
pub fn encode_sex(sex: &str) -> (code: i32)
    ensures
        code == sex_code(sex@),
{
    if same_text(sex, "male") {
        0
    } else {
        1
    }
}

/// The code of the harbour where a passenger embarked.
pub fn encode_embarked(harbour: &str) -> (code: i32)
    ensures
        code == embarked_code(harbour@),
{
    if same_text(harbour, "C") {
        1
    } else if same_text(harbour, "Q") {
        2
    } else {
        0
    }
}

/// The features of a passenger.
pub fn features<S: Scalar>(p: &Passenger<S>) -> (f: Vec<S>)
    ensures
        is_features(p@, f@),
{
    let sex = S::from_int(encode_sex(p.sex.as_str()));
    let age = match p.age {
        Some(age) => age,
        None => S::from_int(0),
    };
    let embarked = S::from_int(encode_embarked(p.embarked.as_str()));
    let mut f: Vec<S> = Vec::new();
    f.push(p.pclass);
    f.push(sex);
    f.push(age);
    f.push(p.sib_sp);
    f.push(p.parch);
    f.push(p.fare);
    f.push(embarked);
    f
}

/// The examples of a table: the features of each record, and beside them the
/// targets, which say whether the passenger survived.
pub fn titanic_examples<S: Scalar>(records: &[Passenger<S>]) -> (examples: (Vec<Vec<S>>, Vec<S>))
    ensures
        examples.0@.len() == records@.len(),
        examples.1@.len() == records@.len(),
        forall|i: int|
            0 <= i < records@.len() ==> is_features(records@[i]@, (#[trigger] examples.0@[i])@),
        forall|i: int|
            0 <= i < records@.len() ==> #[trigger] examples.1@[i] == records@[i]@.survived,
{
    let mut all_features: Vec<Vec<S>> = Vec::new();
    let mut targets: Vec<S> = Vec::new();
    let mut i: usize = 0;
    while i < records.len()
        invariant
            i <= records@.len(),
            all_features@.len() == i,
            targets@.len() == i,
            forall|k: int| 0 <= k < i ==> is_features(records@[k]@, (#[trigger] all_features@[k])@),
            forall|k: int| 0 <= k < i ==> #[trigger] targets@[k] == records@[k]@.survived,
        decreases records@.len() - i,
    {
        all_features.push(features(&records[i]));
        targets.push(records[i].survived);
        i = i + 1;
    }
    (all_features, targets)
}

} // verus!
