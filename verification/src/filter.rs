//! Name filtering and position-window trimming for series.

use vstd::prelude::*;

use crate::series::Point;
use crate::series::sorted_by_x;
use vstd::slice::slice_index_get;
use vstd::slice::slice_subrange;

verus! {

/// Filter parameters for one snapshot: which series names to include and
/// which window of positions to keep.
///
/// `except` and `only` select series by name; `except` takes precedence.
/// `min_x`/`max_x` give an absolute position window, while `span` keeps a
/// trailing window measured back from the last point's position.  When `span`
/// is set it fully determines the trim and the absolute bounds are ignored.
#[derive(Debug, Clone)]
pub struct FilterOpts {
    /// Only include series with these names
    pub only: Option<Vec<String>>,
    /// Exclude series with these names
    pub except: Option<Vec<String>>,
    /// Minimum position to keep
    pub min_x: Option<u64>,
    /// Maximum position to keep (exclusive)
    pub max_x: Option<u64>,
    /// Maximum span to keep, measured from the end of the series
    pub span: Option<u64>,
}

/// Whether `name` occurs in the list.
pub open spec fn contains_name_seq(list: Seq<String>, name: Seq<char>) -> bool {
    exists|i: int| 0 <= i < list.len() && list[i]@ == name
}

impl FilterOpts {
    /// A windowed filter is well formed when its absolute bounds are ordered.
    pub open spec fn wf(self) -> bool {
        match (self.min_x, self.max_x) {
            (Some(a), Some(b)) => a <= b,
            _ => true,
        }
    }

    /// Whether a series with this name passes the filter: it must not be
    /// listed in `except`, and must be listed in `only` when `only` is set.
    pub open spec fn spec_apply(self, name: Seq<char>) -> bool {
        (match self.except {
            Some(e) => !contains_name_seq(e@, name),
            None => true,
        }) && (match self.only {
            Some(o) => contains_name_seq(o@, name),
            None => true,
        })
    }

    /// Filter a series by its name.
    /// The `except` option takes precedence over the `only` option.
    pub fn apply(&self, name: &str) -> (r: bool)
        ensures
            r == self.spec_apply(name@),
    {
        let key: String = name.to_owned();
        let excluded = match &self.except {
            Some(e) => contains_name(e, &key),
            None => false,
        };
        let selected = match &self.only {
            Some(o) => contains_name(o, &key),
            None => true,
        };
        !excluded && selected
    }
}

impl Default for FilterOpts {
    /// The default filter keeps every series whole.
    fn default() -> (r: Self)
        ensures
            r.only is None,
            r.except is None,
            r.min_x is None,
            r.max_x is None,
            r.span is None,
            r.wf(),
    {
        FilterOpts { only: None, except: None, min_x: None, max_x: None, span: None }
    }
}

/// Whether `name` occurs in `list`.
pub(crate) fn contains_name(list: &Vec<String>, name: &String) -> (r: bool)
    ensures
        r == contains_name_seq(list@, name@),
{
    let mut i: usize = 0;
    while i < list.len()
        invariant
            0 <= i <= list@.len(),
            forall|j: int| 0 <= j < i ==> list@[j]@ != name@,
        decreases list@.len() - i,
    {
        if list[i] == *name {
            return true;
        }
        i += 1;
    }
    false
}

/// Index of the first point whose position is at least `key`, or the length
/// of the sequence when every position is below `key`.
pub open spec fn spec_lower_bound(s: Seq<Point>, key: u64) -> int
    decreases s.len(),
{
    if s.len() == 0 {
        0
    } else if s[0].x >= key {
        0
    } else {
        1 + spec_lower_bound(s.drop_first(), key)
    }
}

/// Every point before the lower bound sits below `key`, and the point at the
/// lower bound (when there is one) does not.
pub proof fn lemma_lower_bound_props(s: Seq<Point>, key: u64)
    ensures
        0 <= spec_lower_bound(s, key) <= s.len(),
        forall|i: int| 0 <= i < spec_lower_bound(s, key) ==> s[i].x < key,
        spec_lower_bound(s, key) < s.len() ==> s[spec_lower_bound(s, key)].x >= key,
    decreases s.len(),
{
    if s.len() == 0 || s[0].x >= key {
    } else {
        lemma_lower_bound_props(s.drop_first(), key);
        let lb = spec_lower_bound(s, key);
        assert forall|i: int| 0 <= i < lb implies s[i].x < key by {
            if i > 0 {
                assert(s.drop_first()[i - 1] == s[i]);
            }
        }
        if lb < s.len() {
            assert(s.drop_first()[lb - 1] == s[lb]);
        }
    }
}

/// An index with the lower bound's properties is the lower bound.
pub proof fn lemma_lower_bound_unique(s: Seq<Point>, key: u64, i: int)
    requires
        0 <= i <= s.len(),
        forall|j: int| 0 <= j < i ==> s[j].x < key,
        i < s.len() ==> s[i].x >= key,
    ensures
        i == spec_lower_bound(s, key),
{
    lemma_lower_bound_props(s, key);
    let lb = spec_lower_bound(s, key);
    if i < lb {
        assert(s[i].x < key);
    }
    if lb < i {
        assert(s[lb].x < key);
    }
}

/// Raising the key never moves the lower bound to the left.
pub proof fn lemma_lower_bound_monotone(s: Seq<Point>, k1: u64, k2: u64)
    requires
        k1 <= k2,
    ensures
        spec_lower_bound(s, k1) <= spec_lower_bound(s, k2),
{
    lemma_lower_bound_props(s, k1);
    lemma_lower_bound_props(s, k2);
    let l1 = spec_lower_bound(s, k1);
    let l2 = spec_lower_bound(s, k2);
    if l2 < l1 {
        assert(s[l2].x >= k2);
        assert(s[l2].x < k1);
    }
}

/// Binary search for the first index whose position is at least `key`
/// (the leftmost insertion point for `key`).
pub fn lower_bound(points: &[Point], key: u64) -> (r: usize)
    requires
        sorted_by_x(points@),
    ensures
        r == spec_lower_bound(points@, key),
{
    let mut lo: usize = 0;
    let mut hi: usize = points.len();
    while lo < hi
        invariant
            0 <= lo <= hi <= points@.len(),
            sorted_by_x(points@),
            forall|j: int| 0 <= j < lo ==> points@[j].x < key,
            forall|j: int| hi <= j < points@.len() ==> points@[j].x >= key,
        decreases hi - lo,
    {
        let mid = lo + (hi - lo) / 2;
        if slice_index_get(points, mid).x < key {
            lo = mid + 1;
        } else {
            hi = mid;
        }
    }
    proof {
        lemma_lower_bound_unique(points@, key, lo as int);
    }
    lo
}

impl FilterOpts {
    /// Lowest position that the active window keeps.  With `span` set it is
    /// measured back from the last point; otherwise it is `min_x`, and zero
    /// when no lower bound was given.
    pub open spec fn window_lo(self, s: Seq<Point>) -> u64 {
        match self.span {
            Some(sp) => if sp > s.last().x {
                0
            } else {
                (s.last().x - sp) as u64
            },
            None => match self.min_x {
                Some(a) => a,
                None => 0,
            },
        }
    }

    /// Exclusive upper position bound of the active window; `None` means the
    /// window extends to the end of the series.
    pub open spec fn window_hi(self) -> Option<u64> {
        match self.span {
            Some(_) => None,
            None => self.max_x,
        }
    }

    /// Whether the active window keeps position `x`.
    pub open spec fn in_window(self, s: Seq<Point>, x: u64) -> bool {
        self.window_lo(s) <= x && (match self.window_hi() {
            Some(b) => x < b,
            None => true,
        })
    }

    /// First index that the trim keeps.
    pub open spec fn trim_lo(self, s: Seq<Point>) -> int {
        spec_lower_bound(s, self.window_lo(s))
    }

    /// First index past the kept range.
    pub open spec fn trim_hi(self, s: Seq<Point>) -> int {
        match self.window_hi() {
            Some(b) => spec_lower_bound(s, b),
            None => s.len() as int,
        }
    }

    /// The subrange that the trim keeps.
    pub open spec fn spec_trim(self, s: Seq<Point>) -> Seq<Point> {
        s.subrange(self.trim_lo(s), self.trim_hi(s))
    }

    /// The kept range is exactly the set of indices whose position lies in
    /// the active window.
    pub proof fn lemma_trim_window(self, s: Seq<Point>)
        requires
            self.span is None ==> self.wf(),
            sorted_by_x(s),
            self.span is Some ==> s.len() > 0,
        ensures
            0 <= self.trim_lo(s) <= self.trim_hi(s) <= s.len(),
            forall|i: int|
                0 <= i < s.len() ==> (self.trim_lo(s) <= i < self.trim_hi(s) <==> self.in_window(
                    s,
                    s[i].x,
                )),
    {
        let lo_key = self.window_lo(s);
        let lb = self.trim_lo(s);
        lemma_lower_bound_props(s, lo_key);
        match self.window_hi() {
            None => {
                assert forall|i: int| 0 <= i < s.len() implies (lb <= i <==> self.in_window(
                    s,
                    s[i].x,
                )) by {
                    if lb <= i && lb < s.len() {
                        assert(s[lb].x <= s[i].x);
                    }
                }
            },
            Some(b) => {
                let ub = self.trim_hi(s);
                lemma_lower_bound_props(s, b);
                lemma_lower_bound_monotone(s, lo_key, b);
                assert forall|i: int| 0 <= i < s.len() implies (lb <= i < ub <==> self.in_window(
                    s,
                    s[i].x,
                )) by {
                    if lb <= i && lb < s.len() {
                        assert(s[lb].x <= s[i].x);
                    }
                    if ub <= i && ub < s.len() {
                        assert(s[ub].x <= s[i].x);
                    }
                }
            },
        }
    }

    /// Trim the points of a series to the active window.
    /// The sequence must be sorted by position, the window bounds must be
    /// ordered, and a series trimmed with `span` must not be empty.  The
    /// `span` option takes precedence over the `min_x` and `max_x` options.
    /// Returns a view into the given slice, without copying.
    pub fn trim<'a>(&self, points: &'a [Point]) -> (r: &'a [Point])
        requires
            self.wf(),
            sorted_by_x(points@),
            self.span is Some ==> points@.len() > 0,
        ensures
            r@ == self.spec_trim(points@),
            forall|i: int|
                0 <= i < points@.len() ==> (self.trim_lo(points@) <= i < self.trim_hi(points@)
                    <==> self.in_window(points@, points@[i].x)),
    {
        proof {
            self.lemma_trim_window(points@);
        }
        let (lo, hi): (usize, usize) = match self.span {
            Some(sp) => {
                let last = slice_index_get(points, points.len() - 1);
                let key = if sp > last.x {
                    0
                } else {
                    last.x - sp
                };
                (lower_bound(points, key), points.len())
            },
            None => {
                let lo = match self.min_x {
                    Some(a) => lower_bound(points, a),
                    None => 0,
                };
                let hi = match self.max_x {
                    Some(b) => lower_bound(points, b),
                    None => points.len(),
                };
                proof {
                    if self.min_x is None {
                        lemma_lower_bound_unique(points@, 0, 0);
                    }
                }
                (lo, hi)
            },
        };
        slice_subrange(points, lo, hi)
    }
}

/// Trimming a sorted series with absolute bounds keeps exactly the
/// contiguous subrange of points whose position lies in [a, b).
pub proof fn lemma_trim_absolute_window(opts: FilterOpts, s: Seq<Point>, a: u64, b: u64)
    requires
        sorted_by_x(s),
        opts.span is None,
        opts.min_x == Some(a),
        opts.max_x == Some(b),
        a <= b,
    ensures
        0 <= opts.trim_lo(s) <= opts.trim_hi(s) <= s.len(),
        forall|i: int|
            0 <= i < s.len() ==> (opts.trim_lo(s) <= i < opts.trim_hi(s) <==> a <= (
            #[trigger] s[i]).x < b),
{
    opts.lemma_trim_window(s);
}

/// Trimming a sorted series with no bounds keeps the whole series
/// unchanged: same length, same order.
pub proof fn lemma_trim_unbounded(opts: FilterOpts, s: Seq<Point>)
    requires
        sorted_by_x(s),
        opts.span is None,
        opts.min_x is None,
        opts.max_x is None,
    ensures
        opts.spec_trim(s) == s,
{
    opts.lemma_trim_window(s);
    lemma_lower_bound_unique(s, 0, 0);
    assert(opts.spec_trim(s) =~= s);
}

/// Trimming a sorted, non-empty series with `span` keeps exactly the
/// trailing subrange of points whose position is at least the last
/// position minus the span.
pub proof fn lemma_trim_span_window(opts: FilterOpts, s: Seq<Point>, sp: u64)
    requires
        sorted_by_x(s),
        s.len() > 0,
        opts.span == Some(sp),
    ensures
        opts.trim_hi(s) == s.len(),
        forall|i: int|
            0 <= i < s.len() ==> (opts.trim_lo(s) <= i <==> (#[trigger] s[i]).x >= s.last().x
                - sp),
{
    opts.lemma_trim_window(s);
}

/// A name listed in `except` is never included, even when `only` lists it as
/// well: `except` wins.
pub proof fn lemma_except_precedence(opts: FilterOpts, name: Seq<char>)
    requires
        opts.except matches Some(e) && contains_name_seq(e@, name),
        opts.only matches Some(o) && contains_name_seq(o@, name),
    ensures
        !opts.spec_apply(name),
{
}

/// With neither `only` nor `except` set, every name is included.
pub proof fn lemma_no_name_filter_includes_all(opts: FilterOpts, name: Seq<char>)
    requires
        opts.except is None,
        opts.only is None,
    ensures
        opts.spec_apply(name),
{
}

/// Index of the first ',' in `s`, or -1 when there is none.
pub open spec fn spec_first_comma(s: Seq<char>) -> int
    decreases s.len(),
{
    if s.len() == 0 {
        -1
    } else if s[0] == ',' {
        0
    } else {
        let r = spec_first_comma(s.drop_first());
        if r < 0 {
            -1
        } else {
            1 + r
        }
    }
}

/// The first comma is a comma, nothing before it is one, and a result of -1
/// means the string holds no comma at all.
proof fn lemma_first_comma_props(s: Seq<char>)
    ensures
        -1 <= spec_first_comma(s) < s.len(),
        spec_first_comma(s) >= 0 ==> s[spec_first_comma(s)] == ',',
        forall|t: int| 0 <= t < spec_first_comma(s) ==> s[t] != ',',
        spec_first_comma(s) == -1 ==> forall|t: int| 0 <= t < s.len() ==> s[t] != ',',
    decreases s.len(),
{
    if s.len() == 0 || s[0] == ',' {
    } else {
        lemma_first_comma_props(s.drop_first());
        let fc = spec_first_comma(s);
        assert forall|t: int| 0 <= t < fc implies s[t] != ',' by {
            if t > 0 {
                assert(s.drop_first()[t - 1] == s[t]);
            }
        }
        if fc >= 0 {
            assert(s.drop_first()[fc - 1] == s[fc]);
        } else {
            assert forall|t: int| 0 <= t < s.len() implies s[t] != ',' by {
                if t > 0 {
                    assert(s.drop_first()[t - 1] == s[t]);
                }
            }
        }
    }
}

/// The comma-separated segments of `s`: an empty string yields one empty
/// segment, and every comma separates two segments.
pub open spec fn spec_split_commas(s: Seq<char>) -> Seq<Seq<char>>
    decreases s.len(),
    via spec_split_commas_decreases
{
    let c = spec_first_comma(s);
    if c < 0 {
        seq![s]
    } else {
        seq![s.take(c)] + spec_split_commas(s.skip(c + 1))
    }
}

#[via_fn]
proof fn spec_split_commas_decreases(s: Seq<char>) {
    lemma_first_comma_props(s);
}

/// Split a string on ','.
fn split_commas(s: &str) -> (r: Vec<String>)
    ensures
        r.deep_view() == spec_split_commas(s@),
{
    let mut out: Vec<String> = Vec::new();
    let n = s.unicode_len();
    let mut start: usize = 0;
    let mut i: usize = 0;
    proof {
        assert(s@.skip(0) =~= s@);
        assert(out.deep_view() + spec_split_commas(s@) =~= spec_split_commas(s@));
    }
    while i < n
        invariant
            0 <= start <= i <= n,
            n == s@.len(),
            forall|t: int| start <= t < i ==> s@[t] != ',',
            spec_split_commas(s@) == out.deep_view() + spec_split_commas(s@.skip(start as int)),
        decreases n - i,
    {
        if s.get_char(i) == ',' {
            let seg = s.substring_char(start, i);
            let ghost dv = out.deep_view();
            out.push(seg.to_owned());
            proof {
                let tail = s@.skip(start as int);
                lemma_first_comma_props(tail);
                let fc = spec_first_comma(tail);
                let k = i - start;
                assert(tail[k] == s@[i as int]);
                if fc == -1 {
                    assert(tail[k] != ',');
                }
                if fc > k {
                    assert(tail[k] != ',');
                }
                if 0 <= fc < k {
                    assert(tail[fc] == s@[start + fc]);
                    assert(s@[start + fc] != ',');
                }
                assert(fc == k);
                assert(tail.take(k) =~= s@.subrange(start as int, i as int));
                assert(tail.skip(k + 1) =~= s@.skip(i as int + 1));
                assert(out.deep_view() =~= dv.push(tail.take(k)));
                assert(dv + spec_split_commas(tail) =~= out.deep_view() + spec_split_commas(
                    s@.skip(i as int + 1),
                ));
            }
            start = i + 1;
        }
        i += 1;
    }
    let seg = s.substring_char(start, n);
    let ghost dv = out.deep_view();
    out.push(seg.to_owned());
    proof {
        let tail = s@.skip(start as int);
        lemma_first_comma_props(tail);
        let fc = spec_first_comma(tail);
        if fc >= 0 {
            assert(tail[fc] == s@[start + fc]);
            assert(s@[start + fc] != ',');
        }
        assert(fc == -1);
        assert(tail =~= s@.subrange(start as int, n as int));
        assert(out.deep_view() =~= dv.push(tail));
        assert(dv + spec_split_commas(tail) =~= out.deep_view());
    }
    out
}

/// Split a comma-separated argument into the list of names it holds, or
/// `None` when the argument is absent.
pub fn names_from_arg(arg: Option<String>) -> (r: Option<Vec<String>>)
    ensures
        match (r, arg) {
            (Some(v), Some(s)) => v.deep_view() == spec_split_commas(s@),
            (None, None) => true,
            _ => false,
        },
{
    match arg {
        None => None,
        Some(s) => Some(split_commas(s.as_str())),
    }
}

} // verus!
