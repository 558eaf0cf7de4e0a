use perceptron::partition::split_indices;

fn sorted(test: &[usize], train: &[usize]) -> Vec<usize> {
    let mut all: Vec<usize> = test.iter().chain(train).copied().collect();
    all.sort();
    all
}

#[test]
fn a_split_has_the_sizes_asked_for() {
    let (test, train) = split_indices(891, 178);
    assert_eq!(test.len(), 178);
    assert_eq!(train.len(), 713);
}

#[test]
fn a_split_holds_every_index_once() {
    for (count, test_count) in [(10usize, 2usize), (1, 0), (1, 1), (50, 50), (50, 0), (97, 19)] {
        let (test, train) = split_indices(count, test_count);
        assert_eq!(test.len(), test_count);
        assert_eq!(sorted(&test, &train), (0..count).collect::<Vec<usize>>());
    }
}

#[test]
fn a_split_of_nothing_is_empty() {
    let (test, train) = split_indices(0, 0);
    assert!(test.is_empty());
    assert!(train.is_empty());
}

#[test]
fn a_split_is_shuffled() {
    let (test, train) = split_indices(200, 40);
    let in_order: Vec<usize> = (0..200).collect();
    let got: Vec<usize> = test.iter().chain(&train).copied().collect();
    assert_ne!(got, in_order);
    assert_eq!(sorted(&test, &train), in_order);
}
