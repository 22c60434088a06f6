use ifcount::pathmap::{rank, PathMap, Rank};
use ifcount::report::{by_name, count_metrics, flatten_entries, flatten_metrics};
use ifcount::value::{
    add_entry, count_submetrics, flatten_value, holds, join, samples, summarises, Entry,
    MetricValue, Sample,
};

type Value = MetricValue<Sample>;

fn number(n: u128) -> Value {
    MetricValue::Leaf(Sample::Number(n))
}

fn object(entries: Vec<(&str, Value)>) -> Value {
    MetricValue::Object(entries.into_iter().map(|(name, value)| (name.to_string(), value)).collect())
}

fn summary(sum: u128) -> Value {
    object(vec![("sum", number(sum)), ("avg", MetricValue::Leaf(Sample::Null)), ("mode", number(1))])
}

fn nested() -> Vec<(String, Value)> {
    vec![
        (
            "structs".to_string(),
            object(vec![
                ("fields_count", samples(&vec![1, 3])),
                ("attrs_count", summary(3)),
                ("deep", object(vec![("a", number(1)), ("b", MetricValue::Leaf(Sample::Null))])),
                ("empty", object(vec![])),
            ]),
        ),
        ("if_count".to_string(), number(7)),
        ("lcom4".to_string(), summary(9)),
    ]
}

fn paths<L>(entries: &[Entry<L>]) -> Vec<String> {
    entries.iter().map(|entry| entry.path.clone()).collect()
}

#[test]
fn counting_takes_a_summary_as_one() {
    assert_eq!(count_submetrics(&number(3)), 1);
    assert_eq!(count_submetrics(&MetricValue::Leaf(Sample::Null)), 1);
    assert_eq!(count_submetrics(&samples(&vec![1, 2, 3])), 1);
    assert_eq!(count_submetrics(&summary(4)), 1);
    assert_eq!(count_submetrics(&object(vec![])), 0);
    assert_eq!(count_submetrics(&object(vec![("sum", number(1)), ("avg", number(2))])), 2);
    assert_eq!(count_metrics(&nested()), 6);
    assert_eq!(count_metrics::<Sample>(&vec![]), 0);
}

#[test]
fn flattening_joins_the_names_with_dots() {
    let metrics = nested();
    let entries = flatten_entries(&metrics);
    assert_eq!(
        paths(&entries),
        vec![
            "structs.fields_count",
            "structs.attrs_count",
            "structs.deep.a",
            "structs.deep.b",
            "if_count",
            "lcom4",
        ]
    );
    assert!(matches!(entries[0].value, MetricValue::Leaf(Sample::Samples(values)) if values == &vec![1, 3]));
    // a summary stays whole
    assert!(matches!(entries[1].value, MetricValue::Object(inner) if inner.len() == 3));
    assert!(matches!(entries[4].value, MetricValue::Leaf(Sample::Number(7))));
    assert_eq!(join(&"a.b".to_string(), &"c".to_string()), "a.b.c");
    let lone = number(1);
    assert_eq!(paths(&flatten_value("top".to_string(), &lone)), vec!["top"]);
}

#[test]
fn flattening_keeps_the_count() {
    let metrics = nested();
    let map = flatten_metrics(&metrics);
    assert_eq!(map.len(), count_metrics(&metrics));
    assert_eq!(map.len(), 6);
    // in the order of the paths
    assert_eq!(
        paths(map.entries()),
        vec![
            "if_count",
            "lcom4",
            "structs.attrs_count",
            "structs.deep.a",
            "structs.deep.b",
            "structs.fields_count",
        ]
    );
}

#[test]
fn the_values_of_a_report_are_merged_by_name() {
    let metrics = nested();
    let map = by_name(&metrics);
    assert_eq!(paths(map.entries()), vec!["if_count", "lcom4", "structs"]);
    assert_eq!(map.len(), 3);
    let twice = vec![("a".to_string(), number(1)), ("a".to_string(), number(2))];
    let map = by_name(&twice);
    assert_eq!(map.len(), 1);
    assert!(matches!(map.entries()[0].value, MetricValue::Leaf(Sample::Number(2))));
    let entries = vec![
        Entry { path: "b".to_string(), value: &twice[0].1 },
        Entry { path: "a".to_string(), value: &twice[1].1 },
    ];
    assert_eq!(paths(PathMap::from_entries(entries).entries()), vec!["a", "b"]);
}

#[test]
fn of_two_metrics_at_one_path_the_later_stays() {
    let metrics = vec![
        ("a".to_string(), object(vec![("b", number(1))])),
        ("a.b".to_string(), number(2)),
    ];
    assert_eq!(count_metrics(&metrics), 2);
    let map = flatten_metrics(&metrics);
    assert_eq!(map.len(), 1);
    assert!(matches!(map.entries()[0].value, MetricValue::Leaf(Sample::Number(2))));
}

#[test]
fn summaries_are_known_by_their_three_names() {
    let MetricValue::Object(entries) = summary(1) else { panic!("an object") };
    assert!(summarises(&entries));
    assert!(holds(&entries, &"mode".to_string()));
    assert!(!holds(&entries, &"mean".to_string()));
    let MetricValue::Object(two) = object(vec![("sum", number(1)), ("mode", number(1))]) else {
        panic!("an object")
    };
    assert!(!summarises(&two));
    let mut built: Vec<(String, Value)> = Vec::new();
    add_entry(&mut built, "avg", number(1));
    add_entry(&mut built, "extra", number(1));
    add_entry(&mut built, "sum", number(1));
    add_entry(&mut built, "mode", number(1));
    assert!(summarises(&built));
    assert_eq!(built[1].0, "extra");
}

#[test]
fn paths_are_ranked_as_in_a_dictionary() {
    assert_eq!(rank("a", "b"), Rank::Before);
    assert_eq!(rank("b", "a"), Rank::After);
    assert_eq!(rank("a", "a"), Rank::Same);
    assert_eq!(rank("", ""), Rank::Same);
    assert_eq!(rank("", "a"), Rank::Before);
    assert_eq!(rank("ab", "a"), Rank::After);
    assert_eq!(rank("a.b", "ab"), Rank::Before);
    assert_eq!(rank("z", "é"), Rank::Before);
    let mut words = vec!["structs", "if", "é", "", "lcom4", "if_count", "Z"];
    let mut ours = words.clone();
    words.sort();
    ours.sort_by(|a, b| match rank(a, b) {
        Rank::Before => std::cmp::Ordering::Less,
        Rank::Same => std::cmp::Ordering::Equal,
        Rank::After => std::cmp::Ordering::Greater,
    });
    assert_eq!(ours, words);
}

#[test]
fn a_map_keeps_its_paths_in_order() {
    let one = number(1);
    let two = number(2);
    let three = number(3);
    let mut map: PathMap<Sample> = PathMap::new();
    assert_eq!(map.len(), 0);
    map.insert(Entry { path: "m".to_string(), value: &one });
    map.insert(Entry { path: "a".to_string(), value: &two });
    map.insert(Entry { path: "z".to_string(), value: &one });
    map.insert(Entry { path: "m".to_string(), value: &three });
    assert_eq!(paths(map.entries()), vec!["a", "m", "z"]);
    assert!(matches!(map.entries()[1].value, MetricValue::Leaf(Sample::Number(3))));
    assert_eq!(map.len(), 3);
}
