//! Routes, steps and the fixes that a positioning device reports.
//!
//! Texts (instructions, annotations, road names) stay with the host: the library
//! carries the keys by which the host finds them again.
use std::sync::Arc;

use vstd::prelude::*;

use crate::binary64::Binary64;
use crate::time::Timestamp;

verus! {

/// A position in degrees.
#[derive(Clone, Copy, PartialEq, Eq, Structural, Debug)]
pub struct GeographicCoordinate {
    /// Degrees of latitude.
    pub lat: Binary64,
    /// Degrees of longitude.
    pub lng: Binary64,
}

/// Whether two positions are equal as numbers.
pub open spec fn same_position(a: GeographicCoordinate, b: GeographicCoordinate) -> bool {
    a.lat.equals(b.lat) && a.lng.equals(b.lng)
}

/// Whether two lines have equal positions throughout.
pub open spec fn same_line(a: Seq<GeographicCoordinate>, b: Seq<GeographicCoordinate>) -> bool {
    a.len() == b.len() && forall|i: int| 0 <= i < a.len() ==> same_position(#[trigger] a[i], b[i])
}

/// The direction in which a device moves.
#[derive(Clone, Copy, PartialEq, Eq, Structural, Debug)]
pub struct CourseOverGround {
    /// Degrees clockwise from true north.
    pub degrees: u16,
    /// How far off the degrees may be.
    pub accuracy: Option<u16>,
}

/// A speed as a device reports it.
#[derive(Clone, Copy, PartialEq, Eq, Structural, Debug)]
pub struct Speed {
    /// Metres per second.
    pub value: Binary64,
    /// How far off the value may be.
    pub accuracy: Option<Binary64>,
}

/// One fix of a positioning device.
#[derive(Clone, Copy, PartialEq, Eq, Structural, Debug)]
pub struct UserLocation {
    /// Where the device is.
    pub coordinates: GeographicCoordinate,
    /// How far off the position may be, in metres.
    pub horizontal_accuracy: Binary64,
    /// The direction of movement, where known.
    pub course_over_ground: Option<CourseOverGround>,
    /// When the fix was taken.
    pub timestamp: Timestamp,
    /// The speed, where known.
    pub speed: Option<Speed>,
}

/// The corners of the area that a route covers.
#[derive(Clone, Copy, PartialEq, Eq, Structural, Debug)]
pub struct BoundingBox {
    /// The south-western corner.
    pub sw: GeographicCoordinate,
    /// The north-eastern corner.
    pub ne: GeographicCoordinate,
}

/// A place that a route leads through.
#[derive(Clone, Copy, PartialEq, Eq, Structural, Debug)]
pub struct Waypoint {
    /// Where it is.
    pub coordinate: GeographicCoordinate,
    /// The host's key for everything else that is known of it.
    pub key: u64,
}

/// The direction of a turn.
#[derive(Clone, Copy, PartialEq, Eq, Structural, Debug)]
pub enum ManeuverModifier {
    /// Back the way one came.
    UTurn,
    /// Sharply right.
    SharpRight,
    /// Right.
    Right,
    /// Slightly right.
    SlightRight,
    /// Straight on.
    Straight,
    /// Slightly left.
    SlightLeft,
    /// Left.
    Left,
    /// Sharply left.
    SharpLeft,
}

/// An instruction to show.
#[derive(Clone, Copy, PartialEq, Eq, Structural, Debug)]
pub struct VisualInstruction {
    /// The host's key for what is shown.
    pub content: u64,
    /// The turn that its primary content announces.
    pub maneuver_modifier: Option<ManeuverModifier>,
}

/// An instruction to speak.
#[derive(Clone, Copy, PartialEq, Eq, Structural, Debug)]
pub struct SpokenInstruction {
    /// The host's key for what is spoken.
    pub content: u64,
}

/// A part of a route between two maneuvers.
#[derive(Debug)]
pub struct RouteStep {
    /// The line of the step.
    pub geometry: Vec<GeographicCoordinate>,
    /// Its length in metres.
    pub distance: Binary64,
    /// The seconds that it takes.
    pub duration: Binary64,
    /// The host's key for everything else that is known of it.
    pub key: u64,
}

/// A route.
#[derive(Debug)]
pub struct Route {
    /// The line of the route.
    pub geometry: Vec<GeographicCoordinate>,
    /// The area that it covers.
    pub bbox: BoundingBox,
    /// Its length in metres.
    pub distance: Binary64,
    /// The places that it leads through.
    pub waypoints: Vec<Waypoint>,
    /// Its steps.
    pub steps: Vec<Arc<RouteStep>>,
}

/// Whether two positions are equal as numbers.
pub fn same_position_as(a: GeographicCoordinate, b: GeographicCoordinate) -> (r: bool)
    ensures
        r == same_position(a, b),
{
    a.lat.equals(b.lat) && a.lng.equals(b.lng)
}

/// Whether a stretch of a line has the same positions as another line.
pub fn same_stretch(
    line: &Vec<GeographicCoordinate>,
    from: usize,
    other: &Vec<GeographicCoordinate>,
) -> (r: bool)
    requires
        from + other.len() <= line.len(),
    ensures
        r == same_line(line@.subrange(from as int, from + other.len()), other@),
{
    let ghost stretch = line@.subrange(from as int, from + other.len());
    let mut i: usize = 0;
    while i < other.len()
        invariant
            i <= other.len(),
            from + other.len() <= line.len(),
            stretch == line@.subrange(from as int, from + other.len()),
            forall|j: int| 0 <= j < i ==> same_position(#[trigger] stretch[j], other[j]),
        decreases other.len() - i,
    {
        if !same_position_as(line[from + i], other[i]) {
            assert(!same_position(stretch[i as int], other[i as int]));
            return false;
        }
        i = i + 1;
    }
    true
}

/// Whether two lines have equal positions throughout.
pub fn same_line_as(a: &Vec<GeographicCoordinate>, b: &Vec<GeographicCoordinate>) -> (r: bool)
    ensures
        r == same_line(a@, b@),
{
    if a.len() != b.len() {
        return false;
    }
    assert(a@.subrange(0, b.len() as int) =~= a@);
    same_stretch(a, 0, b)
}

/// Positions are the same where their latitudes and their longitudes are equal as numbers, and
/// lines where they have as many positions and each is the same.
pub proof fn law_lines_are_the_same_position_by_position(
    a: Seq<GeographicCoordinate>,
    b: Seq<GeographicCoordinate>,
)
    ensures
        same_line(a, b) <==> a.len() == b.len() && forall|i: int|
            0 <= i < a.len() ==> (#[trigger] a[i]).lat.equals(b[i].lat) && a[i].lng.equals(
                b[i].lng,
            ),
{
    if a.len() == b.len() && forall|i: int|
        0 <= i < a.len() ==> (#[trigger] a[i]).lat.equals(b[i].lat) && a[i].lng.equals(b[i].lng) {
        assert forall|i: int| 0 <= i < a.len() implies same_position(#[trigger] a[i], b[i]) by {}
    }
    if same_line(a, b) {
        assert forall|i: int| 0 <= i < a.len() implies (#[trigger] a[i]).lat.equals(b[i].lat)
            && a[i].lng.equals(b[i].lng) by {
            assert(same_position(a[i], b[i]));
        }
    }
}

} // verus!
