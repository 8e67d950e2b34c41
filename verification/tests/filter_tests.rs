use plotmon::FilterOpts;
use plotmon::Point;
use plotmon::names_from_arg;

fn pt(x: u64, y: f64) -> Point {
    Point { x, y: y.to_bits() }
}

fn no_filter() -> FilterOpts {
    FilterOpts { only: None, except: None, min_x: None, max_x: None, span: None }
}

#[test]
fn apply_except_wins_over_only() {
    let opts = FilterOpts {
        only: Some(vec!["loss".to_string()]),
        except: Some(vec!["loss".to_string()]),
        ..no_filter()
    };
    assert!(!opts.apply("loss"));
}

#[test]
fn apply_neither_set_includes_everything() {
    let opts = no_filter();
    assert!(opts.apply("loss"));
    assert!(opts.apply("acc"));
    assert!(opts.apply(""));
}

#[test]
fn apply_only_selects_names() {
    let opts = FilterOpts { only: Some(vec!["loss".to_string()]), ..no_filter() };
    assert!(opts.apply("loss"));
    assert!(!opts.apply("acc"));
}

#[test]
fn apply_except_excludes_names() {
    let opts = FilterOpts { except: Some(vec!["acc".to_string()]), ..no_filter() };
    assert!(opts.apply("loss"));
    assert!(!opts.apply("acc"));
}

#[test]
fn trim_no_bounds_returns_full_series() {
    let points = vec![pt(0, 1.0), pt(1, 0.5), pt(2, 0.2)];
    let opts = no_filter();
    let trimmed = opts.trim(&points);
    assert_eq!(trimmed, &points[..]);
}

#[test]
fn trim_absolute_window_is_half_open() {
    let points = vec![pt(0, 1.0), pt(1, 0.5), pt(2, 0.2), pt(3, 0.1)];
    let opts = FilterOpts { min_x: Some(1), max_x: Some(3), ..no_filter() };
    let trimmed = opts.trim(&points);
    assert_eq!(trimmed, &[pt(1, 0.5), pt(2, 0.2)][..]);
}

#[test]
fn trim_min_only() {
    let points = vec![pt(0, 1.0), pt(1, 0.5), pt(2, 0.2)];
    let opts = FilterOpts { min_x: Some(2), ..no_filter() };
    assert_eq!(opts.trim(&points), &[pt(2, 0.2)][..]);
}

#[test]
fn trim_max_only() {
    let points = vec![pt(0, 1.0), pt(1, 0.5), pt(2, 0.2)];
    let opts = FilterOpts { max_x: Some(1), ..no_filter() };
    assert_eq!(opts.trim(&points), &[pt(0, 1.0)][..]);
}

#[test]
fn trim_span_keeps_trailing_window() {
    let points = vec![pt(0, 1.0), pt(1, 0.5), pt(2, 0.2)];
    let opts = FilterOpts { span: Some(1), ..no_filter() };
    let trimmed = opts.trim(&points);
    assert_eq!(trimmed, &[pt(1, 0.5), pt(2, 0.2)][..]);
}

#[test]
fn trim_span_wider_than_series_keeps_everything() {
    let points = vec![pt(3, 1.0), pt(4, 0.5)];
    let opts = FilterOpts { span: Some(100), ..no_filter() };
    assert_eq!(opts.trim(&points), &points[..]);
}

#[test]
fn trim_span_ignores_absolute_bounds() {
    let points = vec![pt(0, 1.0), pt(1, 0.5), pt(2, 0.2)];
    let opts = FilterOpts { min_x: Some(0), max_x: Some(1), span: Some(1), ..no_filter() };
    assert_eq!(opts.trim(&points), &[pt(1, 0.5), pt(2, 0.2)][..]);
}

#[test]
fn trim_ties_resolve_to_leftmost_index() {
    let points = vec![pt(0, 1.0), pt(1, 0.5), pt(1, 0.4), pt(2, 0.2)];
    let opts = FilterOpts { min_x: Some(1), max_x: Some(2), ..no_filter() };
    assert_eq!(opts.trim(&points), &[pt(1, 0.5), pt(1, 0.4)][..]);
}

#[test]
fn trim_window_outside_series_is_empty() {
    let points = vec![pt(0, 1.0), pt(1, 0.5)];
    let opts = FilterOpts { min_x: Some(5), max_x: Some(9), ..no_filter() };
    assert_eq!(opts.trim(&points), &[][..]);
}

#[test]
fn names_from_arg_splits_on_commas() {
    let names = names_from_arg(Some("loss,acc,lr".to_string()));
    assert_eq!(
        names,
        Some(vec!["loss".to_string(), "acc".to_string(), "lr".to_string()])
    );
}

#[test]
fn names_from_arg_absent_stays_absent() {
    assert_eq!(names_from_arg(None), None);
}

#[test]
fn names_from_arg_single_name() {
    assert_eq!(names_from_arg(Some("loss".to_string())), Some(vec!["loss".to_string()]));
}

#[test]
fn names_from_arg_keeps_empty_segments() {
    assert_eq!(
        names_from_arg(Some("a,,b".to_string())),
        Some(vec!["a".to_string(), "".to_string(), "b".to_string()])
    );
    assert_eq!(names_from_arg(Some("".to_string())), Some(vec!["".to_string()]));
}
