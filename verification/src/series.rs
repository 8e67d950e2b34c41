//! Points and named series.

use vstd::prelude::*;

verus! {

/// One sample of a series: a position along the x axis and the sample's
/// payload.  The payload is carried opaquely as 64 bits chosen by the
/// producer; the parser stores the IEEE-754 encoding of the record's numeric
/// field there, and the library never interprets it.
#[derive(Clone, Copy, Debug, PartialEq, Eq, Structural)]
pub struct Point {
    /// Position of the sample, non-decreasing within a series
    pub x: u64,
    /// Opaque 64-bit payload of the sample
    pub y: u64,
}

/// Positions are non-decreasing along the sequence.
pub open spec fn sorted_by_x(s: Seq<Point>) -> bool {
    forall|i: int, j: int| 0 <= i <= j < s.len() ==> s[i].x <= s[j].x
}

/// Positions are strictly increasing along the sequence.
pub open spec fn strict_by_x(s: Seq<Point>) -> bool {
    forall|i: int, j: int| 0 <= i < j < s.len() ==> s[i].x < s[j].x
}

/// A named, position-sorted sequence of points.
#[derive(Debug, Clone)]
pub struct Series {
    /// Name of the series, unique within a set
    pub name: String,
    /// The points, sorted by position
    pub points: Vec<Point>,
}

impl Series {
    /// A series is never empty and its positions are non-decreasing.
    pub open spec fn wf(self) -> bool {
        self.points@.len() > 0 && sorted_by_x(self.points@)
    }
}

/// No two series share a name.
pub open spec fn unique_names(s: Seq<Series>) -> bool {
    forall|i: int, j: int| 0 <= i < j < s.len() ==> s[i].name@ != s[j].name@
}

/// The mapping from series name to points that a sequence of series denotes.
pub open spec fn entries_map(s: Seq<Series>) -> Map<Seq<char>, Seq<Point>>
    decreases s.len(),
{
    if s.len() == 0 {
        Map::empty()
    } else {
        entries_map(s.drop_last()).insert(s.last().name@, s.last().points@)
    }
}

/// `m` with `p` appended to the series called `name`, creating it if absent.
pub open spec fn add_point(
    m: Map<Seq<char>, Seq<Point>>,
    name: Seq<char>,
    p: Point,
) -> Map<Seq<char>, Seq<Point>> {
    if m.contains_key(name) {
        m.insert(name, m[name].push(p))
    } else {
        m.insert(name, seq![p])
    }
}

/// The complete named collection of series parsed from one file revision.
#[derive(Debug, Clone)]
pub struct SeriesSet {
    /// The series, one per name, in insertion order
    pub series: Vec<Series>,
}

impl View for SeriesSet {
    type V = Map<Seq<char>, Seq<Point>>;

    open spec fn view(&self) -> Map<Seq<char>, Seq<Point>> {
        entries_map(self.series@)
    }
}

impl SeriesSet {
    /// Every series is well formed and no name repeats.
    pub open spec fn wf(self) -> bool {
        unique_names(self.series@) && forall|i: int|
            0 <= i < self.series@.len() ==> self.series@[i].wf()
    }

    /// The (name, points) entries in order.
    pub open spec fn entries(self) -> Seq<(Seq<char>, Seq<Point>)> {
        self.series@.map_values(|s: Series| (s.name@, s.points@))
    }

    /// An empty set of series.
    pub fn new() -> (r: SeriesSet)
        ensures
            r.wf(),
            r@ == Map::<Seq<char>, Seq<Point>>::empty(),
            r.series@.len() == 0,
    {
        SeriesSet { series: Vec::new() }
    }

    /// Number of series in the set.
    pub fn len(&self) -> (r: usize)
        ensures
            r == self.series@.len(),
    {
        self.series.len()
    }

    /// Append `p` to the series called `name`, creating the series at the
    /// back of the set when the name is new.  The new point must not sit
    /// before any position the series already holds.
    pub fn push_point(&mut self, name: &String, p: Point)
        requires
            old(self).wf(),
            old(self)@.contains_key(name@) ==> (forall|t: int|
                #![auto]
                0 <= t < old(self)@[name@].len() ==> old(self)@[name@][t].x <= p.x),
        ensures
            final(self).wf(),
            final(self)@ == add_point(old(self)@, name@, p),
            final(self)@.contains_key(name@),
    {
        proof {
            lemma_entries_map_domain(self.series@);
        }
        let n = self.series.len();
        let mut i: usize = 0;
        while i < n
            invariant
                *self == *old(self),
                old(self).wf(),
                old(self)@.contains_key(name@) ==> (forall|t: int|
                    #![auto]
                    0 <= t < old(self)@[name@].len() ==> old(self)@[name@][t].x <= p.x),
                n == self.series@.len(),
                0 <= i <= n,
                forall|j: int| 0 <= j < i ==> self.series@[j].name@ != name@,
            decreases n - i,
        {
            if self.series[i].name == *name {
                proof {
                    lemma_entries_map_index(self.series@, i as int);
                }
                let s = &mut self.series[i];
                s.points.push(p);
                proof {
                    let os = old(self).series@[i as int];
                    let ns = self.series@[i as int];
                    assert(os.wf());
                    assert(old(self)@.contains_key(name@));
                    assert(old(self)@[name@] == os.points@);
                    assert(p.x >= os.points@[os.points@.len() - 1].x);
                    assert(ns.points@ == os.points@.push(p));
                    assert forall|a: int, b: int|
                        0 <= a <= b < ns.points@.len() implies ns.points@[a].x <= ns.points@[b].x by {
                        if b < ns.points@.len() - 1 {
                            assert(os.points@[a].x <= os.points@[b].x);
                        } else if a < b {
                            assert(os.points@[a].x <= os.points@[os.points@.len() - 1].x);
                        }
                    }
                    lemma_entries_map_update(old(self).series@, i as int, ns);
                }
                return ;
            }
            i += 1;
        }
        // The name is new: a fresh one-point series goes at the back.
        proof {
            if old(self)@.contains_key(name@) {
                let w = choose|w: int|
                    0 <= w < old(self).series@.len() && old(self).series@[w].name@ == name@;
                assert(old(self).series@[w].name@ != name@);
            }
        }
        let series = Series { name: name.clone(), points: vec_of_one(p) };
        self.series.push(series);
        proof {
            assert(self.series@.drop_last() =~= old(self).series@);
        }
    }

    /// Look up the points of the series called `name`.
    pub fn get(&self, name: &String) -> (r: Option<&Vec<Point>>)
        requires
            self.wf(),
        ensures
            match r {
                Some(v) => self@.contains_key(name@) && v@ == self@[name@],
                None => !self@.contains_key(name@),
            },
    {
        proof {
            lemma_entries_map_domain(self.series@);
        }
        let n = self.series.len();
        let mut i: usize = 0;
        while i < n
            invariant
                self.wf(),
                n == self.series@.len(),
                0 <= i <= n,
                forall|j: int| 0 <= j < i ==> self.series@[j].name@ != name@,
            decreases n - i,
        {
            if self.series[i].name == *name {
                proof {
                    lemma_entries_map_index(self.series@, i as int);
                }
                return Some(&self.series[i].points);
            }
            i += 1;
        }
        None
    }
}

/// A vector holding the single point `p`.
fn vec_of_one(p: Point) -> (r: Vec<Point>)
    ensures
        r@ == seq![p],
{
    let mut v: Vec<Point> = Vec::new();
    v.push(p);
    proof {
        assert(v@ =~= seq![p]);
    }
    v
}

/// Each series indexes the denoted map at its own name.
pub proof fn lemma_entries_map_index(s: Seq<Series>, i: int)
    requires
        0 <= i < s.len(),
        unique_names(s),
    ensures
        entries_map(s).contains_key(s[i].name@),
        entries_map(s)[s[i].name@] == s[i].points@,
    decreases s.len(),
{
    if i < s.len() - 1 {
        lemma_entries_map_index(s.drop_last(), i);
    }
}

/// Every key of the denoted map names one of the series.
pub proof fn lemma_entries_map_domain(s: Seq<Series>)
    ensures
        forall|n: Seq<char>|
            #[trigger] entries_map(s).contains_key(n) ==> exists|i: int|
                0 <= i < s.len() && s[i].name@ == n,
    decreases s.len(),
{
    if s.len() > 0 {
        lemma_entries_map_domain(s.drop_last());
        assert forall|n: Seq<char>| #[trigger] entries_map(s).contains_key(n) implies exists|i: int|
            0 <= i < s.len() && s[i].name@ == n by {
            if n == s.last().name@ {
                assert(s[s.len() - 1].name@ == n);
            } else {
                assert(entries_map(s.drop_last()).contains_key(n));
                let i = choose|i: int| 0 <= i < s.drop_last().len() && s.drop_last()[i].name@ == n;
                assert(s.drop_last()[i] == s[i]);
                assert(s[i].name@ == n);
            }
        }
    }
}

/// Replacing one series' points updates the denoted map at that name alone.
pub proof fn lemma_entries_map_update(s: Seq<Series>, i: int, ns: Series)
    requires
        0 <= i < s.len(),
        unique_names(s),
        ns.name@ == s[i].name@,
    ensures
        entries_map(s.update(i, ns)) == entries_map(s).insert(ns.name@, ns.points@),
    decreases s.len(),
{
    let su = s.update(i, ns);
    if i == s.len() - 1 {
        assert(su.drop_last() =~= s.drop_last());
        assert(entries_map(s.drop_last()).insert(s.last().name@, s.last().points@).insert(
            ns.name@,
            ns.points@,
        ) =~= entries_map(s.drop_last()).insert(ns.name@, ns.points@));
    } else {
        assert(su.drop_last() =~= s.drop_last().update(i, ns));
        lemma_entries_map_update(s.drop_last(), i, ns);
        assert(su.last() == s.last());
        assert(entries_map(s.drop_last()).insert(ns.name@, ns.points@).insert(
            s.last().name@,
            s.last().points@,
        ) =~= entries_map(s.drop_last()).insert(s.last().name@, s.last().points@).insert(
            ns.name@,
            ns.points@,
        ));
    }
}

} // verus!
