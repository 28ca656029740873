//! What goes into the clustering of tracks and what is made of its result: the rows
//! to cluster, the names of the files, and the directory that each file moves to.

use crate::decimal::{decimal, to_decimal};
use crate::llpoint::{LLPoint, LatLon};
use vstd::prelude::*;
use vstd::string::StringExecFns;

verus! {

/// The names that the breaks of a sequence carry, in order.
pub open spec fn spec_break_names(points: Seq<LLPoint>) -> Seq<Seq<char>>
    decreases points.len(),
{
    if points.len() == 0 {
        Seq::empty()
    } else if points.last()@.is_latlon() {
        spec_break_names(points.drop_last())
    } else {
        spec_break_names(points.drop_last()).push(points.last()@.name)
    }
}

/// Latitude and longitude of a position.
pub open spec fn spec_row(p: LatLon) -> (i32, i32) {
    (p.lat, p.lon)
}

/// Latitude and longitude of each position of a sequence, in order.
pub open spec fn spec_rows(points: Seq<LLPoint>) -> Seq<(i32, i32)>
    decreases points.len(),
{
    if points.len() == 0 {
        Seq::empty()
    } else if points.last()@.is_latlon() {
        spec_rows(points.drop_last()).push(spec_row(points.last()@.point->0))
    } else {
        spec_rows(points.drop_last())
    }
}

/// The name of the directory for a cluster: its number in decimal, or `none` for what
/// belongs to no cluster.
pub open spec fn spec_label(c: Option<usize>) -> Seq<char> {
    match c {
        Some(n) => decimal(n as nat),
        None => "none"@,
    }
}

/// One file and the directory that it is copied to.
pub struct ClusterMove {
    pub source: String,
    pub directory: String,
}

/// The names that the breaks of `all` carry, in order: the files that were read.
pub fn break_names(all: &[LLPoint]) -> (names: Vec<String>)
    ensures
        names@.len() == spec_break_names(all@).len(),
        forall|k: int| 0 <= k < names@.len() ==> (#[trigger] names@[k])@ == spec_break_names(all@)[k],
{
    let mut names: Vec<String> = Vec::new();
    let n: usize = all.len();
    let mut i: usize = 0;
    while i < n
        invariant
            n == all@.len(),
            i <= n,
            names@.len() == spec_break_names(all@.subrange(0, i as int)).len(),
            forall|k: int|
                0 <= k < names@.len() ==> (#[trigger] names@[k])@ == spec_break_names(
                    all@.subrange(0, i as int),
                )[k],
        decreases n - i,
    {
        proof {
            let next = all@.subrange(0, i + 1);
            assert(next.drop_last() =~= all@.subrange(0, i as int));
            assert(next.last() == all@[i as int]);
        }
        if !all[i].is_latlon() {
            names.push(all[i].name());
        }
        i = i + 1;
    }
    proof {
        assert(all@.subrange(0, n as int) =~= all@);
    }
    names
}

/// Latitude and longitude of each position of `all`, in order and in ten-millionths
/// of a degree: the rows that are clustered. Each lies within range.
pub fn cluster_rows(all: &[LLPoint]) -> (rows: Vec<(i32, i32)>)
    ensures
        rows@ == spec_rows(all@),
        forall|k: int|
            0 <= k < rows@.len() ==> LatLon::spec_new((#[trigger] rows@[k]).0, rows@[k].1) is Some,
{
    let mut rows: Vec<(i32, i32)> = Vec::new();
    let n: usize = all.len();
    let mut i: usize = 0;
    while i < n
        invariant
            n == all@.len(),
            i <= n,
            rows@ == spec_rows(all@.subrange(0, i as int)),
            forall|k: int|
                0 <= k < rows@.len() ==> LatLon::spec_new((#[trigger] rows@[k]).0, rows@[k].1)
                    is Some,
        decreases n - i,
    {
        proof {
            let next = all@.subrange(0, i + 1);
            assert(next.drop_last() =~= all@.subrange(0, i as int));
            assert(next.last() == all@[i as int]);
        }
        match all[i].point() {
            Some(ll) => {
                rows.push((ll.lat, ll.lon));
            },
            None => {},
        }
        i = i + 1;
    }
    proof {
        assert(all@.subrange(0, n as int) =~= all@);
    }
    rows
}

/// The name of the directory for a cluster.
pub fn cluster_label(c: Option<usize>) -> (label: String)
    ensures
        label@ == spec_label(c),
{
    match c {
        Some(n) => to_decimal(n as u64),
        None => String::from_str("none"),
    }
}

/// Pairs each file with the directory of its cluster: the first name with the first
/// cluster, and so on, as far as both lists go.
pub fn cluster_moves(names: &Vec<String>, clusters: &[Option<usize>]) -> (moves: Vec<ClusterMove>)
    ensures
        moves@.len() == if names@.len() <= clusters@.len() {
            names@.len()
        } else {
            clusters@.len()
        },
        forall|k: int|
            0 <= k < moves@.len() ==> (#[trigger] moves@[k]).source@ == names@[k]@
                && moves@[k].directory@ == spec_label(clusters@[k]),
{
    let mut moves: Vec<ClusterMove> = Vec::new();
    let n: usize = if names.len() <= clusters.len() {
        names.len()
    } else {
        clusters.len()
    };
    let mut k: usize = 0;
    while k < n
        invariant
            k <= n,
            n <= names@.len(),
            n <= clusters@.len(),
            moves@.len() == k,
            forall|j: int|
                0 <= j < k ==> (#[trigger] moves@[j]).source@ == names@[j]@ && moves@[j].directory@
                    == spec_label(clusters@[j]),
        decreases n - k,
    {
        moves.push(ClusterMove { source: names[k].clone(), directory: cluster_label(clusters[k]) });
        k = k + 1;
    }
    moves
}

} // verus!
