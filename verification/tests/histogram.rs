use ifcount::monoid::{reduce, Monoid};
use ifcount::observer::histogram::sorted;
use ifcount::observer::{observe_all, sampled, Hist, HistSummary, Observer, Ratio, Unaggregated};

fn hist_of(values: &[usize]) -> Hist<16> {
    let mut hist = Hist::<16>::default();
    for value in values {
        hist.observe(*value);
    }
    hist
}

#[test]
fn test_hist() {
    let mut hist = Hist::<16>::default();
    hist.observe(1);

    hist.observe(2);
    hist.observe(2);

    hist.observe(3);
    hist.observe(3);
    hist.observe(3);

    hist.observe(4);
    hist.observe(4);
    hist.observe(4);
    hist.observe(4);

    hist.observe(5);
    hist.observe(5);
    hist.observe(5);
    hist.observe(5);
    hist.observe(5);

    assert_eq!(hist.count(), 15);
    assert_eq!(hist.sum(), 55);
    // 55.0 / 15.0
    assert_eq!(hist.average(), Some(Ratio { num: 55, den: 15 }));
    assert_eq!(hist.mode(), Some(5));
    assert_eq!(hist.into_values(), vec![1, 2, 2, 3, 3, 3, 4, 4, 4, 4, 5, 5, 5, 5, 5]);
}

#[test]
fn merge_hist() {
    let mut hist1 = Hist::<16>::default();
    hist1.observe(1);
    hist1.observe(2);
    hist1.observe(3);
    hist1.observe(4);

    let mut hist2 = Hist::<16>::default();
    hist2.observe(1);
    hist2.observe(5);
    hist2.observe(6);
    hist2.observe(1);

    let hist1 = hist1.unite(hist2);

    assert_eq!(hist1.count(), 8);
    assert_eq!(hist1.sum(), 23);
    // 23.0 / 8.0
    assert_eq!(hist1.average(), Some(Ratio { num: 23, den: 8 }));
    assert_eq!(hist1.mode(), Some(1));
    assert_eq!(hist1.into_values(), vec![1, 1, 1, 2, 3, 4, 5, 6]);
}

#[test]
fn monoid() {
    let mut hist1 = Hist::<16>::init();
    hist1.observe(1);
    hist1.observe(2);
    hist1.observe(3);
    hist1.observe(4);

    let mut hist2 = Hist::<16>::init();
    hist2.observe(1);
    hist2.observe(5);
    hist2.observe(6);
    hist2.observe(1);

    let hist = Hist::unite(hist1, hist2);

    assert_eq!(hist.count(), 8);
    assert_eq!(hist.sum(), 23);
    assert_eq!(hist.average(), Some(Ratio { num: 23, den: 8 }));
    assert_eq!(hist.mode(), Some(1));
    assert_eq!(hist.into_values(), vec![1, 1, 1, 2, 3, 4, 5, 6]);
}

#[test]
fn determenistic_mode() {
    // among equally full buckets the lowest is the mode
    let mut hist1 = Hist::<16>::init();
    hist1.observe(1);
    hist1.observe(1);
    hist1.observe(2);
    hist1.observe(2);
    assert_eq!(hist1.mode(), Some(1));

    let mut hist2 = Hist::<16>::init();
    hist2.observe(0);
    hist2.observe(1);
    hist2.observe(1);
    hist2.observe(1);
    hist2.observe(5);
    hist2.observe(5);
    hist2.observe(5);
    hist2.observe(6);
    assert_eq!(hist2.mode(), Some(1));
}

#[test]
fn mode_does_not_depend_on_the_order_of_the_observations() {
    let values = [3, 7, 7, 3, 1, 9, 3, 7];
    let mut turned = values;
    for shift in 0..values.len() {
        turned.rotate_left(1);
        assert_eq!(hist_of(&turned).mode(), Some(3), "rotation {}", shift);
    }
    let mut reversed = values;
    reversed.reverse();
    assert_eq!(hist_of(&reversed).mode(), Some(3));
}

#[test]
fn an_empty_histogram_has_neither_mean_nor_mode() {
    let hist = Hist::<4>::new();
    assert_eq!(hist.count(), 0);
    assert_eq!(hist.sum(), 0);
    assert_eq!(hist.average(), None);
    assert_eq!(hist.mode(), None);
    assert_eq!(hist.describe(), HistSummary { sum: 0, avg: None, mode: None });
    assert_eq!(hist.into_values(), Vec::<usize>::new());
    let none = Hist::<0>::new();
    assert_eq!(none.mode(), None);
}

#[test]
fn overflow_hides_the_mode_when_it_holds_as_much() {
    // two buckets; 7 and 9 overflow
    let mut hist = Hist::<2>::new();
    hist.observe(1);
    hist.observe(1);
    hist.observe(7);
    assert_eq!(hist.mode(), Some(1));
    hist.observe(9);
    // the overflow region holds 2 values, as many as the fullest bucket
    assert_eq!(hist.mode(), None);
    assert_eq!(hist.count(), 4);
    assert_eq!(hist.sum(), 18);
    assert_eq!(hist.average(), Some(Ratio { num: 18, den: 4 }));
    hist.observe(1);
    assert_eq!(hist.mode(), Some(1));
    assert_eq!(hist.describe(), HistSummary {
        sum: 19,
        avg: Some(Ratio { num: 19, den: 5 }),
        mode: Some(1),
    });
    hist.observe(4);
    assert_eq!(hist.into_values(), vec![1, 1, 1, 4, 7, 9]);
}

#[test]
fn combining_is_the_histogram_of_the_run() {
    let left = [5usize, 1, 30, 2];
    let right = [1usize, 20, 1];
    let mut whole = left.to_vec();
    whole.extend(right);
    let both = hist_of(&left).unite(hist_of(&right));
    let one = hist_of(&whole);
    assert_eq!(both.count(), one.count());
    assert_eq!(both.count(), 7);
    assert_eq!(both.sum(), one.sum());
    assert_eq!(both.sum(), 60);
    assert_eq!(both.mode(), one.mode());
    assert_eq!(both.clone().into_values(), one.into_values());
    // the other way round
    let other = hist_of(&right).unite(hist_of(&left));
    assert_eq!(other.count(), 7);
    assert_eq!(other.sum(), 60);
    assert_eq!(other.mode(), both.mode());
    assert_eq!(other.into_values(), both.into_values());
}

#[test]
fn the_identity_changes_nothing() {
    let hist = Hist::<16>::init().unite(hist_of(&[2, 2, 3])).unite(Hist::init());
    assert_eq!(hist.count(), 3);
    assert_eq!(hist.sum(), 7);
    assert_eq!(hist.mode(), Some(2));
}

#[test]
fn unaggregated_keeps_every_value() {
    let mut first = Unaggregated::<usize>::default();
    first.observe(3);
    first.observe(1);
    let mut second = Unaggregated::init();
    second.observe(2);
    assert_eq!(Observer::count(&first), 2);
    let both = first.clone().unite(second.clone());
    assert_eq!(both.values(), &vec![3, 1, 2]);
    let other = second.unite(first);
    let mut values = other.values().clone();
    values.sort();
    assert_eq!(values, vec![1, 2, 3]);
}

#[test]
fn reduce_folds_from_the_identity() {
    let parts: Vec<Unaggregated> = vec![sampled(&vec![1, 2]), sampled(&vec![]), sampled(&vec![3])];
    assert_eq!(reduce(parts).values(), &vec![1, 2, 3]);
    let none: Vec<Unaggregated> = vec![];
    assert_eq!(reduce(none).values(), &Vec::<usize>::new());
    // split anywhere, the result is the same
    let left: Vec<Hist<8>> = vec![sampled(&vec![1, 1]), sampled(&vec![9])];
    let right: Vec<Hist<8>> = vec![sampled(&vec![2]), sampled(&vec![1, 2, 2, 2])];
    let all: Vec<Hist<8>> = vec![
        sampled(&vec![1, 1]),
        sampled(&vec![9]),
        sampled(&vec![2]),
        sampled(&vec![1, 2, 2, 2]),
    ];
    let split = reduce(left).unite(reduce(right));
    let whole = reduce(all);
    assert_eq!(split.count(), whole.count());
    assert_eq!(split.sum(), whole.sum());
    assert_eq!(split.mode(), Some(2));
    assert_eq!(whole.mode(), Some(2));
    assert_eq!(split.into_values(), vec![1, 1, 1, 2, 2, 2, 2, 9]);
}

#[test]
fn observe_all_records_in_order() {
    let mut seen = Unaggregated::<usize>::default();
    observe_all(&mut seen, &vec![4, 4, 2]);
    observe_all(&mut seen, &vec![]);
    observe_all(&mut seen, &vec![8]);
    assert_eq!(seen.values(), &vec![4, 4, 2, 8]);
}

#[test]
fn sorted_orders_its_values() {
    assert_eq!(sorted(&vec![3, 1, 2, 1, 0, 3]), vec![0, 1, 1, 2, 3, 3]);
    assert_eq!(sorted(&vec![]), Vec::<usize>::new());
}
