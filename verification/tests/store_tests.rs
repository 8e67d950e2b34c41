use plotmon::Colormap;
use plotmon::FileEvent;
use plotmon::FileEventKind;
use plotmon::FilterOpts;
use plotmon::Logs;
use plotmon::Point;
use plotmon::Watched;
use plotmon::is_event_about_file;

fn pt(x: u64, y: f64) -> Point {
    Point { x, y: y.to_bits() }
}

fn no_filter() -> FilterOpts {
    FilterOpts { only: None, except: None, min_x: None, max_x: None, span: None }
}

fn lines(raw: &[&str]) -> Vec<String> {
    raw.iter().map(|s| s.to_string()).collect()
}

#[test]
fn watched_new_takes_the_last_path_component() {
    let w = Watched::new("logs/run/train.jsonl");
    assert_eq!(w.name, "train.jsonl");
    assert_eq!(w.path, "logs/run/train.jsonl");
}

#[test]
fn watched_new_without_separator_keeps_the_whole_path() {
    let w = Watched::new("train.jsonl");
    assert_eq!(w.name, "train.jsonl");
}

#[test]
fn lock_iter_yields_the_parsed_series() {
    let input = lines(&[r#"{"loss":1.0}"#, r#"{"loss":0.5,"acc":0.9}"#, r#"{"acc":0.95}"#]);
    let logs = Logs::new("train.jsonl", no_filter(), Some(&input));
    let view = logs.lock_iter().expect("revision should be present");
    let pairs = view.iter();
    view.release();
    assert_eq!(pairs.len(), 2);
    let loss = pairs.iter().find(|(n, _)| n == "loss").unwrap();
    assert_eq!(loss.1, vec![pt(0, 1.0), pt(1, 0.5)]);
    let acc = pairs.iter().find(|(n, _)| n == "acc").unwrap();
    assert_eq!(acc.1, vec![pt(1, 0.9), pt(2, 0.95)]);
}

#[test]
fn lock_iter_only_filter_yields_only_that_series() {
    let input = lines(&[r#"{"loss":1.0}"#, r#"{"loss":0.5,"acc":0.9}"#, r#"{"acc":0.95}"#]);
    let filter = FilterOpts { only: Some(vec!["loss".to_string()]), ..no_filter() };
    let logs = Logs::new("train.jsonl", filter, Some(&input));
    let view = logs.lock_iter().expect("revision should be present");
    let pairs = view.iter();
    view.release();
    assert_eq!(pairs.len(), 1);
    assert_eq!(pairs[0].0, "loss");
    assert_eq!(pairs[0].1, vec![pt(0, 1.0), pt(1, 0.5)]);
}

#[test]
fn lock_iter_applies_the_span_trim() {
    let input = lines(&[r#"{"loss":1.0}"#, r#"{"loss":0.5}"#, r#"{"loss":0.2}"#]);
    let filter = FilterOpts { span: Some(1), ..no_filter() };
    let logs = Logs::new("train.jsonl", filter, Some(&input));
    let view = logs.lock_iter().expect("revision should be present");
    let pairs = view.iter();
    view.release();
    assert_eq!(pairs.len(), 1);
    assert_eq!(pairs[0].1, vec![pt(1, 0.5), pt(2, 0.2)]);
}

#[test]
fn missing_file_yields_no_view() {
    let logs = Logs::new("train.jsonl", no_filter(), None);
    assert!(logs.lock_iter().is_none());
}

#[test]
fn refresh_to_absent_hides_the_data() {
    let input = lines(&[r#"{"loss":1.0}"#]);
    let logs = Logs::new("train.jsonl", no_filter(), Some(&input));
    let view = logs.lock_iter().expect("revision should be present");
    view.release();
    // The watched file disappears: the next refresh makes the store absent.
    logs.file.refresh(None);
    assert!(logs.lock_iter().is_none());
}

#[test]
fn refresh_after_recreation_holds_only_the_new_content() {
    let first = lines(&[r#"{"loss":1.0}"#, r#"{"loss":0.5}"#]);
    let logs = Logs::new("train.jsonl", no_filter(), Some(&first));
    logs.file.refresh(None);
    assert!(logs.lock_iter().is_none());
    // The file reappears with different content.
    let second = lines(&[r#"{"acc":0.7}"#]);
    logs.file.refresh(Some(&second));
    let view = logs.lock_iter().expect("revision should be present again");
    let pairs = view.iter();
    view.release();
    assert_eq!(pairs.len(), 1);
    assert_eq!(pairs[0].0, "acc");
    assert_eq!(pairs[0].1, vec![pt(0, 0.7)]);
}

#[test]
fn refresh_twice_with_same_content_yields_equal_views() {
    let input = lines(&[r#"{"loss":1.0}"#, r#"{"loss":0.5,"acc":0.9}"#]);
    let logs = Logs::new("train.jsonl", no_filter(), Some(&input));
    let view = logs.lock_iter().unwrap();
    let before = view.iter();
    view.release();
    logs.file.refresh(Some(&input));
    let view = logs.lock_iter().unwrap();
    let after = view.iter();
    view.release();
    assert_eq!(before, after);
}

#[test]
fn relevant_events_about_the_file_are_recognised() {
    let name = "train.jsonl".to_string();
    let modify = FileEvent { kind: FileEventKind::Modify, names: vec!["train.jsonl".to_string()] };
    assert!(is_event_about_file(&name, &modify));
    let create = FileEvent { kind: FileEventKind::Create, names: vec!["train.jsonl".to_string()] };
    assert!(is_event_about_file(&name, &create));
    let remove = FileEvent {
        kind: FileEventKind::Remove,
        names: vec!["other.log".to_string(), "train.jsonl".to_string()],
    };
    assert!(is_event_about_file(&name, &remove));
}

#[test]
fn irrelevant_events_are_ignored() {
    let name = "train.jsonl".to_string();
    let other_kind = FileEvent {
        kind: FileEventKind::Other,
        names: vec!["train.jsonl".to_string()],
    };
    assert!(!is_event_about_file(&name, &other_kind));
    let other_file = FileEvent { kind: FileEventKind::Modify, names: vec!["other.log".to_string()] };
    assert!(!is_event_about_file(&name, &other_file));
    let no_paths = FileEvent { kind: FileEventKind::Modify, names: vec![] };
    assert!(!is_event_about_file(&name, &no_paths));
}

#[test]
fn iteration_follows_the_sets_own_order() {
    // Within one snapshot the pairs come in the set's order: the order in
    // which the parser first saw each name.
    let input = lines(&[r#"{"loss":1.0}"#, r#"{"loss":0.5,"acc":0.9}"#, r#"{"acc":0.95}"#]);
    let logs = Logs::new("train.jsonl", no_filter(), Some(&input));
    let view = logs.lock_iter().unwrap();
    let pairs = view.iter();
    view.release();
    let names: Vec<&str> = pairs.iter().map(|(n, _)| n.as_str()).collect();
    assert_eq!(names, vec!["loss", "acc"]);
}

#[test]
fn colormap_cycles_through_the_palette() {
    let mut cmap = Colormap::new();
    let first: Vec<usize> = (0..6).map(|_| cmap.next()).collect();
    assert_eq!(first, vec![0, 1, 2, 3, 4, 5]);
    assert_eq!(cmap.next(), 0);
    assert_eq!(cmap.next(), 1);
}
