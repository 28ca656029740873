//! How the positions read from track files are strung together into one sequence.

use crate::llpoint::{LLPoint, LLPointView, LatLon};
use vstd::prelude::*;

verus! {

/// What each point of a sequence is made of.
pub open spec fn views(points: Seq<LLPoint>) -> Seq<LLPointView> {
    points.map_values(|p: LLPoint| p@)
}

/// What a break that carries `name` is made of.
pub open spec fn spec_break(name: Seq<char>) -> LLPointView {
    LLPointView { point: None, name }
}

/// What a point at the position `c` is made of.
pub open spec fn spec_position(c: LatLon) -> LLPointView {
    LLPointView { point: Some(c), name: Seq::empty() }
}

/// How many of a file's `n` positions are taken: all of them, or the first alone.
pub open spec fn spec_taken(n: nat, only_first: bool) -> nat {
    if only_first && n > 1 {
        1
    } else {
        n
    }
}

/// The points that one file adds to a sequence. A file without positions adds
/// nothing. Any other file adds a break that carries its name, and then its positions
/// in order: all of them, or the first alone.
pub open spec fn spec_track(name: &str, coords: Seq<LatLon>, only_first: bool) -> Seq<LLPointView> {
    if coords.len() == 0 {
        Seq::empty()
    } else {
        seq![spec_break(name@)] + coords.subrange(
            0,
            spec_taken(coords.len(), only_first) as int,
        ).map_values(|c: LatLon| spec_position(c))
    }
}

/// Appends to `all` the points of one file: `name` is the file's name and `coords`
/// holds its positions in order. A break stands before the first position of each
/// file, so that the tracks of two files are never joined.
pub fn append_track(all: &mut Vec<LLPoint>, name: &str, coords: &[LatLon], only_first: bool)
    requires
        forall|i: int| 0 <= i < coords@.len() ==> (#[trigger] coords@[i]).wf(),
    ensures
        views(final(all)@) == views(old(all)@) + spec_track(name, coords@, only_first),
{
    let n: usize = coords.len();
    if n == 0 {
        assert(views(all@) =~= views(old(all)@) + spec_track(name, coords@, only_first));
        return ;
    }
    let ghost head: Seq<LLPointView> = seq![spec_break(name@)];
    all.push(LLPoint::new_break(name));
    assert(views(all@) =~= views(old(all)@) + head);
    let count: usize = if only_first {
        1
    } else {
        n
    };
    let mut i: usize = 0;
    while i < count
        invariant
            n == coords@.len(),
            i <= count <= n,
            count == spec_taken(n as nat, only_first),
            forall|i: int| 0 <= i < coords@.len() ==> (#[trigger] coords@[i]).wf(),
            views(all@) == views(old(all)@) + head + coords@.subrange(0, i as int).map_values(
                |c: LatLon| spec_position(c),
            ),
        decreases count - i,
    {
        let c = coords[i];
        let ghost before = all@;
        assert(coords@[i as int].wf());
        all.push(LLPoint::new_point(c.lat, c.lon));
        proof {
            let f = |c: LatLon| spec_position(c);
            assert(coords@.subrange(0, i + 1).map_values(f) =~= coords@.subrange(
                0,
                i as int,
            ).map_values(f).push(spec_position(c)));
            assert(views(all@) =~= views(before).push(spec_position(c)));
            assert(views(all@) =~= views(old(all)@) + head + coords@.subrange(0, i + 1).map_values(
                f,
            ));
        }
        i = i + 1;
    }
    assert(views(all@) =~= views(old(all)@) + spec_track(name, coords@, only_first));
}

} // verus!
