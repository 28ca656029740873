//! The smallest rectangle of latitudes and longitudes that encloses a point sequence.

use crate::llpoint::LLPoint;
use vstd::prelude::*;

verus! {

/// The sequence holds no position, so that nothing can be enclosed.
#[derive(Clone, Copy, Debug, PartialEq, Eq, Structural)]
pub struct EmptyInputError;

/// A rectangle of latitudes and longitudes, bounds included, in ten-millionths of a
/// degree.
#[derive(Clone, Copy, Debug, PartialEq, Eq, Structural)]
pub struct BoundingBox {
    pub lat_min: i32,
    pub lat_max: i32,
    pub lon_min: i32,
    pub lon_max: i32,
}

impl BoundingBox {
    /// The bounds are ordered.
    pub open spec fn wf(self) -> bool {
        self.lat_min <= self.lat_max && self.lon_min <= self.lon_max
    }

    /// Whether the position at `lat`, `lon` lies in the rectangle.
    pub open spec fn contains(self, lat: i32, lon: i32) -> bool {
        self.lat_min <= lat <= self.lat_max && self.lon_min <= lon <= self.lon_max
    }

    /// The rectangle holds every position of `points`.
    pub open spec fn encloses(self, points: Seq<LLPoint>) -> bool {
        forall|i: int|
            0 <= i < points.len() && (#[trigger] points[i]@).point is Some ==> self.contains(
                points[i]@.point->0.lat,
                points[i]@.point->0.lon,
            )
    }

    /// Each of the four bounds is the latitude or longitude of a position of `points`.
    pub open spec fn is_tight_for(self, points: Seq<LLPoint>) -> bool {
        &&& exists|i: int|
            0 <= i < points.len() && (#[trigger] points[i]@).point is Some
                && points[i]@.point->0.lat == self.lat_min
        &&& exists|i: int|
            0 <= i < points.len() && (#[trigger] points[i]@).point is Some
                && points[i]@.point->0.lat == self.lat_max
        &&& exists|i: int|
            0 <= i < points.len() && (#[trigger] points[i]@).point is Some
                && points[i]@.point->0.lon == self.lon_min
        &&& exists|i: int|
            0 <= i < points.len() && (#[trigger] points[i]@).point is Some
                && points[i]@.point->0.lon == self.lon_max
    }
}

/// Whether any point of `points` has a position.
pub open spec fn has_position(points: Seq<LLPoint>) -> bool {
    exists|i: int| 0 <= i < points.len() && (#[trigger] points[i]@).point is Some
}

/// The smallest rectangle that encloses every position of `all`; breaks are passed
/// over. Fails when `all` holds no position.
pub fn load_bbox(all: &[LLPoint]) -> (r: Result<BoundingBox, EmptyInputError>)
    ensures
        r is Ok <==> has_position(all@),
        r is Ok ==> r->Ok_0.wf() && r->Ok_0.encloses(all@) && r->Ok_0.is_tight_for(all@),
{
    let mut found: Option<BoundingBox> = None;
    let mut k: usize = 0;
    while k < all.len()
        invariant
            k <= all@.len(),
            found is Some <==> has_position(all@.subrange(0, k as int)),
            found is Some ==> found->0.wf() && found->0.encloses(all@.subrange(0, k as int))
                && found->0.is_tight_for(all@.subrange(0, k as int)),
        decreases all@.len() - k,
    {
        let ghost before = all@.subrange(0, k as int);
        let ghost after = all@.subrange(0, k + 1);
        let p = &all[k];
        proof {
            assert(after =~= before.push(*p));
        }
        match p.point() {
            None => {
                proof {
                    lemma_break_keeps_box(found, before, after, *p);
                }
            },
            Some(ll) => {
                let b = match found {
                    None => BoundingBox {
                        lat_min: ll.lat,
                        lat_max: ll.lat,
                        lon_min: ll.lon,
                        lon_max: ll.lon,
                    },
                    Some(o) => BoundingBox {
                        lat_min: if ll.lat < o.lat_min {
                            ll.lat
                        } else {
                            o.lat_min
                        },
                        lat_max: if ll.lat > o.lat_max {
                            ll.lat
                        } else {
                            o.lat_max
                        },
                        lon_min: if ll.lon < o.lon_min {
                            ll.lon
                        } else {
                            o.lon_min
                        },
                        lon_max: if ll.lon > o.lon_max {
                            ll.lon
                        } else {
                            o.lon_max
                        },
                    },
                };
                proof {
                    lemma_position_widens_box(found, b, before, after, *p);
                }
                found = Some(b);
            },
        }
        k = k + 1;
    }
    proof {
        assert(all@.subrange(0, k as int) =~= all@);
    }
    match found {
        Some(b) => Ok(b),
        None => Err(EmptyInputError),
    }
}

/// Appending a point without a position changes neither whether there is a box nor
/// which box it is.
proof fn lemma_break_keeps_box(
    found: Option<BoundingBox>,
    before: Seq<LLPoint>,
    after: Seq<LLPoint>,
    p: LLPoint,
)
    requires
        after == before.push(p),
        p@.point is None,
        found is Some <==> has_position(before),
        found is Some ==> found->0.encloses(before) && found->0.is_tight_for(before),
    ensures
        found is Some <==> has_position(after),
        found is Some ==> found->0.encloses(after) && found->0.is_tight_for(after),
{
    assert forall|i: int| 0 <= i < before.len() implies after[i] == before[i] by {}
    if has_position(after) {
        let i = choose|i: int| 0 <= i < after.len() && (#[trigger] after[i]@).point is Some;
        assert(i < before.len());
        assert(before[i]@.point is Some);
    }
    if found is Some {
        let b = found->0;
        let i = choose|i: int| 0 <= i < before.len() && (#[trigger] before[i]@).point is Some;
        assert(after[i]@.point is Some);
        assert forall|i: int|
            0 <= i < after.len() && (#[trigger] after[i]@).point is Some implies b.contains(
            after[i]@.point->0.lat,
            after[i]@.point->0.lon,
        ) by {
            assert(i < before.len());
            assert(before[i]@.point is Some);
        }
        let a0 = choose|i: int|
            0 <= i < before.len() && (#[trigger] before[i]@).point is Some
                && before[i]@.point->0.lat == b.lat_min;
        assert(after[a0]@.point is Some);
        let a1 = choose|i: int|
            0 <= i < before.len() && (#[trigger] before[i]@).point is Some
                && before[i]@.point->0.lat == b.lat_max;
        assert(after[a1]@.point is Some);
        let o0 = choose|i: int|
            0 <= i < before.len() && (#[trigger] before[i]@).point is Some
                && before[i]@.point->0.lon == b.lon_min;
        assert(after[o0]@.point is Some);
        let o1 = choose|i: int|
            0 <= i < before.len() && (#[trigger] before[i]@).point is Some
                && before[i]@.point->0.lon == b.lon_max;
        assert(after[o1]@.point is Some);
    }
}

/// Appending a position widens each bound of the box just as far as that position, or
/// makes the box of that one position where there was none.
proof fn lemma_position_widens_box(
    found: Option<BoundingBox>,
    b: BoundingBox,
    before: Seq<LLPoint>,
    after: Seq<LLPoint>,
    p: LLPoint,
)
    requires
        after == before.push(p),
        p@.point is Some,
        found is Some <==> has_position(before),
        found is Some ==> found->0.wf() && found->0.encloses(before) && found->0.is_tight_for(
            before,
        ),
        b.lat_min == if found is Some && found->0.lat_min <= p@.point->0.lat {
            found->0.lat_min
        } else {
            p@.point->0.lat
        },
        b.lat_max == if found is Some && found->0.lat_max >= p@.point->0.lat {
            found->0.lat_max
        } else {
            p@.point->0.lat
        },
        b.lon_min == if found is Some && found->0.lon_min <= p@.point->0.lon {
            found->0.lon_min
        } else {
            p@.point->0.lon
        },
        b.lon_max == if found is Some && found->0.lon_max >= p@.point->0.lon {
            found->0.lon_max
        } else {
            p@.point->0.lon
        },
    ensures
        has_position(after),
        b.wf(),
        b.encloses(after),
        b.is_tight_for(after),
{
    let last = before.len() as int;
    let ll = p@.point->0;
    assert(after[last] == p);
    assert(after[last]@.point is Some);
    assert forall|i: int| 0 <= i < before.len() implies after[i] == before[i] by {}
    assert forall|i: int|
        0 <= i < after.len() && (#[trigger] after[i]@).point is Some implies b.contains(
        after[i]@.point->0.lat,
        after[i]@.point->0.lon,
    ) by {
        if i < before.len() {
            assert(before[i]@.point is Some);
            assert(has_position(before));
        }
    }
    if found is Some {
        let o = found->0;
        let a0 = choose|i: int|
            0 <= i < before.len() && (#[trigger] before[i]@).point is Some
                && before[i]@.point->0.lat == o.lat_min;
        let a1 = choose|i: int|
            0 <= i < before.len() && (#[trigger] before[i]@).point is Some
                && before[i]@.point->0.lat == o.lat_max;
        let o0 = choose|i: int|
            0 <= i < before.len() && (#[trigger] before[i]@).point is Some
                && before[i]@.point->0.lon == o.lon_min;
        let o1 = choose|i: int|
            0 <= i < before.len() && (#[trigger] before[i]@).point is Some
                && before[i]@.point->0.lon == o.lon_max;
        let j0 = if o.lat_min <= ll.lat { a0 } else { last };
        assert(after[j0]@.point is Some && after[j0]@.point->0.lat == b.lat_min);
        let j1 = if o.lat_max >= ll.lat { a1 } else { last };
        assert(after[j1]@.point is Some && after[j1]@.point->0.lat == b.lat_max);
        let j2 = if o.lon_min <= ll.lon { o0 } else { last };
        assert(after[j2]@.point is Some && after[j2]@.point->0.lon == b.lon_min);
        let j3 = if o.lon_max >= ll.lon { o1 } else { last };
        assert(after[j3]@.point is Some && after[j3]@.point->0.lon == b.lon_max);
    } else {
        assert(after[last]@.point->0.lat == b.lat_min);
    }
}

} // verus!
