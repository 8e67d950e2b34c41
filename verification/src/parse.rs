//! Parse structured log lines into a set of series.
//!
//! Each line is a self-describing record: a JSON object whose numeric fields
//! each contribute one point to the series named after the field.  Lines that
//! do not parse as an object, and fields that are not numbers, are skipped.
//! The position of a point is the zero-based index of its line among the
//! successfully parsed records.

use vstd::prelude::*;

use crate::series::Point;
use crate::series::SeriesSet;
use crate::series::add_point;
use crate::series::strict_by_x;

verus! {

/// The numeric fields that one log line yields: `None` when the line does not
/// parse as a JSON object, otherwise the object's numeric fields in the
/// object's map order, each value as its IEEE-754 bit pattern.
pub uninterp spec fn record_fields(line: Seq<char>) -> Option<Seq<(Seq<char>, u64)>>;

/// Relies on serde_json::from_str and serde_json::Number::as_f64: whether a
/// line parses as a JSON object, and which numeric fields the object holds,
/// depend on the line's characters alone.  The object's map is ordered by
/// key and holds each key once, so the field names come back distinct.
#[verifier::external_body]
fn parse_record(line: &String) -> (r: Option<Vec<(String, u64)>>)
    ensures
        (r is Some) <==> (record_fields(line@) is Some),
        r matches Some(v) ==> record_fields(line@) == Some(
            v@.map_values(|f: (String, u64)| (f.0@, f.1)),
        ),
        r matches Some(v) ==> (forall|i: int, j: int|
            0 <= i < j < v@.len() ==> v@[i].0@ != v@[j].0@),
{
    match serde_json::from_str::<serde_json::Value>(line.as_str()) {
        Ok(serde_json::Value::Object(map)) => Some(
            map.into_iter()
                .filter_map(|(key, value)| match value {
                    serde_json::Value::Number(num) => num.as_f64().map(|f| (key, f.to_bits())),
                    _ => None,
                })
                .collect(),
        ),
        _ => None,
    }
}

/// `m` after one record's fields are appended, all at position `pos`.
pub open spec fn add_record(
    m: Map<Seq<char>, Seq<Point>>,
    fields: Seq<(Seq<char>, u64)>,
    pos: u64,
) -> Map<Seq<char>, Seq<Point>>
    decreases fields.len(),
{
    if fields.len() == 0 {
        m
    } else {
        add_record(
            add_point(m, fields[0].0, Point { x: pos, y: fields[0].1 }),
            fields.drop_first(),
            pos,
        )
    }
}

/// The series map after parsing `lines`, continuing from the partial map `m`
/// with the next successfully parsed record at position `pos`.
pub open spec fn series_map_from(
    lines: Seq<Seq<char>>,
    m: Map<Seq<char>, Seq<Point>>,
    pos: u64,
) -> Map<Seq<char>, Seq<Point>>
    decreases lines.len(),
{
    if lines.len() == 0 {
        m
    } else {
        match record_fields(lines[0]) {
            Some(fields) => series_map_from(
                lines.drop_first(),
                add_record(m, fields, pos),
                (pos + 1) as u64,
            ),
            None => series_map_from(lines.drop_first(), m, pos),
        }
    }
}

/// The series map that a sequence of log lines denotes.
pub open spec fn series_map(lines: Seq<Seq<char>>) -> Map<Seq<char>, Seq<Point>> {
    series_map_from(lines, Map::empty(), 0)
}

/// Every point of every series sits at a position below `bound`.
pub open spec fn positions_below(m: Map<Seq<char>, Seq<Point>>, bound: int) -> bool {
    forall|k: Seq<char>, i: int|
        #![auto]
        m.contains_key(k) && 0 <= i < m[k].len() ==> m[k][i].x < bound
}

/// Convert a byte stream already split into lines into a set of series.
/// A line that is no record, and a field that is no number, is skipped;
/// skipping never aborts the parse.  Within every series of the result the
/// positions strictly increase: one record contributes at most one point to
/// a series, at the record's own position.
pub fn parse(lines: &Vec<String>) -> (r: SeriesSet)
    ensures
        r.wf(),
        r@ == series_map(lines.deep_view()),
        forall|k: Seq<char>| #![auto] r@.contains_key(k) ==> strict_by_x(r@[k]),
{
    let mut set = SeriesSet::new();
    let mut pos: u64 = 0;
    let mut i: usize = 0;
    proof {
        assert(lines.deep_view().skip(0) =~= lines.deep_view());
    }
    while i < lines.len()
        invariant
            set.wf(),
            0 <= i <= lines@.len(),
            pos <= i,
            positions_below(set@, pos as int),
            forall|k: Seq<char>| #![auto] set@.contains_key(k) ==> strict_by_x(set@[k]),
            series_map(lines.deep_view()) == series_map_from(
                lines.deep_view().skip(i as int),
                set@,
                pos,
            ),
        decreases lines@.len() - i,
    {
        let ghost rest = lines.deep_view().skip(i as int);
        proof {
            assert(rest[0] == lines.deep_view()[i as int]);
            assert(lines.deep_view()[i as int] == lines@[i as int]@);
            assert(rest.drop_first() =~= lines.deep_view().skip(i as int + 1));
        }
        match parse_record(&lines[i]) {
            Some(fields) => {
                let ghost m_enter = set@;
                let ghost fviews = fields@.map_values(|f: (String, u64)| (f.0@, f.1));
                let n = fields.len();
                let mut j: usize = 0;
                proof {
                    assert(fviews.skip(0) =~= fviews);
                }
                while j < n
                    invariant
                        set.wf(),
                        0 <= j <= n,
                        n == fields@.len(),
                        fviews == fields@.map_values(|f: (String, u64)| (f.0@, f.1)),
                        positions_below(set@, pos as int + 1),
                        forall|k: Seq<char>| #![auto] set@.contains_key(k) ==> strict_by_x(set@[k]),
                        forall|t1: int, t2: int| 0 <= t1 < t2 < n ==> fviews[t1].0 != fviews[t2].0,
                        forall|t: int, q: int|
                            #![auto]
                            j <= t < n && set@.contains_key(fviews[t].0) && 0 <= q < set@[fviews[
                                t
                            ].0].len() ==> set@[fviews[t].0][q].x < pos,
                        add_record(m_enter, fviews, pos) == add_record(
                            set@,
                            fviews.skip(j as int),
                            pos,
                        ),
                    decreases n - j,
                {
                    let ghost before = set@;
                    let p = Point { x: pos, y: fields[j].1 };
                    set.push_point(&fields[j].0, p);
                    proof {
                        let k0 = fviews[j as int].0;
                        assert(fviews.skip(j as int)[0] == (fields@[j as int].0@, fields@[
                            j as int
                        ].1));
                        assert(fviews.skip(j as int).drop_first() =~= fviews.skip(j as int + 1));
                        assert(set@ == add_point(before, k0, p));
                        // The series that took the new point stays strictly
                        // increasing: every point it already held sits below
                        // the current position.
                        assert forall|k: Seq<char>| #![auto]
                            set@.contains_key(k) implies strict_by_x(set@[k]) by {
                            if k == k0 {
                                if before.contains_key(k0) {
                                    assert(set@[k0] == before[k0].push(p));
                                    assert forall|a: int, b: int|
                                        0 <= a < b < set@[k0].len() implies set@[k0][a].x < set@[
                                        k0
                                    ][b].x by {
                                        if b == set@[k0].len() - 1 {
                                            assert(before[k0][a].x < pos);
                                        }
                                    }
                                } else {
                                    assert(set@[k0] =~= seq![p]);
                                }
                            } else {
                                assert(set@[k] == before[k]);
                            }
                        }
                        // Names not yet processed still hold only positions
                        // below the current one: they differ from the name
                        // just pushed.
                        assert forall|t: int, q: int|
                            #![auto]
                            j + 1 <= t < n && set@.contains_key(fviews[t].0) && 0 <= q < set@[
                            fviews[t].0].len() implies set@[fviews[t].0][q].x < pos by {
                            assert(fviews[t].0 != k0);
                            assert(set@[fviews[t].0] == before[fviews[t].0]);
                        }
                    }
                    j += 1;
                }
                proof {
                    assert(fviews.skip(n as int) =~= Seq::<(Seq<char>, u64)>::empty());
                    assert(add_record(set@, fviews.skip(n as int), pos) == set@);
                    assert(record_fields(rest[0]) == Some(fviews));
                }
                pos = pos + 1;
            },
            None => {
                proof {
                    assert(record_fields(rest[0]) is None);
                }
            },
        }
        i += 1;
    }
    proof {
        assert(lines.deep_view().skip(lines@.len() as int) =~= Seq::<Seq<char>>::empty());
    }
    set
}

} // verus!
