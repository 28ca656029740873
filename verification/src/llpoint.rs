//! Points of a track: coordinates in fixed point, and the breaks between tracks.

use vstd::prelude::*;
use vstd::string::StringExecFns;

verus! {

/// Largest latitude, 90 degrees, in units of one ten-millionth of a degree.
pub const LAT_LIMIT: i32 = 900_000_000;

/// Largest longitude, 180 degrees, in units of one ten-millionth of a degree.
pub const LON_LIMIT: i32 = 1_800_000_000;

/// A position on the globe. Latitude and longitude are counted in ten-millionths of a
/// degree, north and east positive.
#[derive(Clone, Copy, Debug, PartialEq, Eq, Structural)]
pub struct LatLon {
    pub lat: i32,
    pub lon: i32,
}

impl LatLon {
    /// The latitude is within 90 degrees of the equator and the longitude within 180
    /// degrees of the prime meridian.
    pub open spec fn wf(self) -> bool {
        &&& -LAT_LIMIT <= self.lat <= LAT_LIMIT
        &&& -LON_LIMIT <= self.lon <= LON_LIMIT
    }

    /// The position with the given latitude and longitude, where there is one.
    pub open spec fn spec_new(lat: i32, lon: i32) -> Option<LatLon> {
        if (LatLon { lat, lon }).wf() {
            Some(LatLon { lat, lon })
        } else {
            None
        }
    }

    /// Builds a position, or nothing when the latitude or the longitude is out of range.
    pub fn new(lat: i32, lon: i32) -> (p: Option<LatLon>)
        ensures
            p == Self::spec_new(lat, lon),
    {
        if -LAT_LIMIT <= lat && lat <= LAT_LIMIT && -LON_LIMIT <= lon && lon <= LON_LIMIT {
            Some(LatLon { lat, lon })
        } else {
            None
        }
    }

    /// Latitude in ten-millionths of a degree.
    pub fn lat(&self) -> (v: i32)
        ensures
            v == self.lat,
    {
        self.lat
    }

    /// Longitude in ten-millionths of a degree.
    pub fn lon(&self) -> (v: i32)
        ensures
            v == self.lon,
    {
        self.lon
    }
}

/// One entry of a point sequence: a position, or a break that parts two tracks and
/// carries the name of the track that follows.
#[derive(Debug)]
pub struct LLPoint {
    point: Option<LatLon>,
    name: String,
}

/// What a point is made of.
pub struct LLPointView {
    /// The position; a break has none.
    pub point: Option<LatLon>,
    /// The name of a break; empty for a position.
    pub name: Seq<char>,
}

impl LLPointView {
    /// Whether the point is a position rather than a break.
    pub open spec fn is_latlon(self) -> bool {
        self.point is Some
    }

    /// A position lies within range and carries no name.
    pub open spec fn wf(self) -> bool {
        self.point is Some ==> self.point->0.wf() && self.name.len() == 0
    }
}

impl View for LLPoint {
    type V = LLPointView;

    closed spec fn view(&self) -> LLPointView {
        LLPointView { point: self.point, name: self.name@ }
    }
}

impl LLPoint {
    #[verifier::type_invariant]
    closed spec fn inv(self) -> bool {
        self@.wf()
    }

    /// A point at the given latitude and longitude, which lie within range.
    pub fn new_point(lat: i32, lon: i32) -> (p: LLPoint)
        requires
            LatLon::spec_new(lat, lon) is Some,
        ensures
            p@ == (LLPointView { point: Some(LatLon { lat, lon }), name: Seq::empty() }),
            p@.wf(),
    {
        LLPoint { point: Some(LatLon { lat, lon }), name: String::new() }
    }

    /// A break that carries `name`.
    pub fn new_break(name: &str) -> (p: LLPoint)
        ensures
            p@ == (LLPointView { point: None, name: name@ }),
            p@.wf(),
    {
        LLPoint { point: None, name: String::from_str(name) }
    }

    /// Latitude of a position, or zero for a break.
    pub fn lat(&self) -> (v: i32)
        ensures
            self@.wf(),
            v == match self@.point {
                Some(ll) => ll.lat,
                None => 0i32,
            },
    {
        proof {
            use_type_invariant(self);
        }
        match self.point {
            Some(ref ll) => ll.lat(),
            None => 0,
        }
    }

    /// Longitude of a position, or zero for a break.
    pub fn lon(&self) -> (v: i32)
        ensures
            self@.wf(),
            v == match self@.point {
                Some(ll) => ll.lon,
                None => 0i32,
            },
    {
        proof {
            use_type_invariant(self);
        }
        match self.point {
            Some(ref ll) => ll.lon(),
            None => 0,
        }
    }

    /// The name that a break carries; empty for a position.
    pub fn name(&self) -> (s: String)
        ensures
            self@.wf(),
            s@ == self@.name,
    {
        proof {
            use_type_invariant(self);
        }
        self.name.clone()
    }

    /// The position, which lies within range; a break has none.
    pub fn point(&self) -> (p: Option<LatLon>)
        ensures
            self@.wf(),
            p == self@.point,
    {
        proof {
            use_type_invariant(self);
        }
        self.point
    }

    /// Whether the point is a position rather than a break: whether it has a position.
    pub fn is_latlon(&self) -> (b: bool)
        ensures
            self@.wf(),
            b == self@.is_latlon(),
            b == (self@.point is Some),
    {
        proof {
            use_type_invariant(self);
        }
        self.point.is_some()
    }
}

} // verus!
