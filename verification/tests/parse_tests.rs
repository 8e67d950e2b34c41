use plotmon::Point;
use plotmon::parse;

fn pt(x: u64, y: f64) -> Point {
    Point { x, y: y.to_bits() }
}

fn lines(raw: &[&str]) -> Vec<String> {
    raw.iter().map(|s| s.to_string()).collect()
}

#[test]
fn parse_three_records_builds_two_series() {
    let input = lines(&[r#"{"loss":1.0}"#, r#"{"loss":0.5,"acc":0.9}"#, r#"{"acc":0.95}"#]);
    let set = parse(&input);
    assert_eq!(set.len(), 2);
    let loss = set.get(&"loss".to_string()).unwrap();
    assert_eq!(loss, &vec![pt(0, 1.0), pt(1, 0.5)]);
    let acc = set.get(&"acc".to_string()).unwrap();
    assert_eq!(acc, &vec![pt(1, 0.9), pt(2, 0.95)]);
}

#[test]
fn parse_skips_lines_that_are_no_records() {
    let input = lines(&["not json", "[1,2]", r#""text""#, r#"{"a":2.5}"#]);
    let set = parse(&input);
    assert_eq!(set.len(), 1);
    let a = set.get(&"a".to_string()).unwrap();
    // Only the object line counts as a record, so it sits at position 0.
    assert_eq!(a, &vec![pt(0, 2.5)]);
}

#[test]
fn parse_numbers_lines_by_parsed_records_not_raw_lines() {
    let input = lines(&[r#"{"a":"text"}"#, r#"{"a":2.5}"#]);
    let set = parse(&input);
    // The first line is a record (position 0) even though none of its
    // fields is numeric; the numeric point lands at position 1.
    let a = set.get(&"a".to_string()).unwrap();
    assert_eq!(a, &vec![pt(1, 2.5)]);
}

#[test]
fn parse_skips_non_numeric_fields() {
    let input = lines(&[r#"{"a":1.5,"note":"warmup","flag":true,"b":null}"#]);
    let set = parse(&input);
    assert_eq!(set.len(), 1);
    assert_eq!(set.get(&"a".to_string()).unwrap(), &vec![pt(0, 1.5)]);
    assert!(set.get(&"note".to_string()).is_none());
    assert!(set.get(&"flag".to_string()).is_none());
    assert!(set.get(&"b".to_string()).is_none());
}

#[test]
fn parse_integer_values_become_their_float_encoding() {
    let input = lines(&[r#"{"epochs":3}"#]);
    let set = parse(&input);
    assert_eq!(set.get(&"epochs".to_string()).unwrap(), &vec![pt(0, 3.0)]);
}

#[test]
fn parse_duplicate_keys_in_one_record_keep_one_point() {
    // A JSON object holds each key once: the record's map keeps the last
    // value, so the series gains a single point at that position.
    let input = lines(&[r#"{"a":1.0,"a":2.0}"#]);
    let set = parse(&input);
    let a = set.get(&"a".to_string()).unwrap();
    assert_eq!(a, &vec![pt(0, 2.0)]);
}

#[test]
fn parse_positions_strictly_increase_within_a_series() {
    let input = lines(&[r#"{"a":1.0,"b":9.0}"#, r#"{"a":2.0}"#, r#"{"a":3.0,"b":8.0}"#]);
    let set = parse(&input);
    let a = set.get(&"a".to_string()).unwrap();
    let b = set.get(&"b".to_string()).unwrap();
    for w in a.windows(2) {
        assert!(w[0].x < w[1].x);
    }
    for w in b.windows(2) {
        assert!(w[0].x < w[1].x);
    }
    assert_eq!(b, &vec![pt(0, 9.0), pt(2, 8.0)]);
}

#[test]
fn parse_empty_input_yields_empty_set() {
    let input: Vec<String> = Vec::new();
    let set = parse(&input);
    assert_eq!(set.len(), 0);
    assert!(set.get(&"loss".to_string()).is_none());
}

#[test]
fn parse_positions_are_non_decreasing() {
    let input = lines(&[r#"{"a":1.0}"#, "oops", r#"{"a":2.0}"#, r#"{"a":3.0}"#]);
    let set = parse(&input);
    let a = set.get(&"a".to_string()).unwrap();
    assert_eq!(a, &vec![pt(0, 1.0), pt(1, 2.0), pt(2, 3.0)]);
}
