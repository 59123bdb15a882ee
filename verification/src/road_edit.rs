//! A quick edit of a road: making room for bike lanes.
//!
//! On each side of the road the outermost parking lane gives way to a bike lane,
//! if cars drive on that side at all; where nobody parks, the outermost driving
//! lane gives way, if it is not the only one. A buffer may be put between the
//! bike lane and the traffic.

use crate::ids::Distance;
use crate::network::{BufferType, LaneType};
use vstd::prelude::*;

verus! {

/// The direction of travel on a lane, as seen along the road.
#[derive(Clone, Copy, Debug, PartialEq, Eq, Structural, PartialOrd, Ord, Hash)]
pub enum Direction {
    Fwd,
    Back,
}

/// One lane of a road that is being edited.
#[derive(Clone, Copy, Debug, PartialEq, Eq, Structural)]
pub struct LaneSpec {
    pub lt: LaneType,
    pub dir: Direction,
    pub width: Distance,
}

/// A road that is being edited: its lanes from left to right.
#[derive(Clone, Debug)]
pub struct EditRoad {
    pub lanes_ltr: Vec<LaneSpec>,
}

/// The letter that stands for a kind of lane.
pub open spec fn spec_to_char(lt: LaneType) -> char {
    match lt {
        LaneType::Driving => 'd',
        LaneType::Biking => 'b',
        LaneType::Bus => 'B',
        LaneType::Parking => 'p',
        LaneType::Sidewalk => 's',
        LaneType::Shoulder => 'S',
        LaneType::SharedLeftTurn => 'C',
        LaneType::Construction => 'x',
        LaneType::LightRail => 'l',
        LaneType::Buffer(_) => '|',
    }
}

/// The kind of lane that a letter stands for, if it stands for one. A buffer is
/// read as one of flexible posts.
pub open spec fn spec_from_char(x: char) -> Option<LaneType> {
    if x == 'd' {
        Some(LaneType::Driving)
    } else if x == 'b' {
        Some(LaneType::Biking)
    } else if x == 'B' {
        Some(LaneType::Bus)
    } else if x == 'p' {
        Some(LaneType::Parking)
    } else if x == 's' {
        Some(LaneType::Sidewalk)
    } else if x == 'S' {
        Some(LaneType::Shoulder)
    } else if x == 'C' {
        Some(LaneType::SharedLeftTurn)
    } else if x == 'x' {
        Some(LaneType::Construction)
    } else if x == 'l' {
        Some(LaneType::LightRail)
    } else if x == '|' {
        Some(LaneType::Buffer(BufferType::FlexPosts))
    } else {
        None
    }
}

impl LaneType {
    pub fn to_char(self) -> (c: char)
        ensures
            c == spec_to_char(self),
            spec_from_char(c) is Some,
    {
        match self {
            LaneType::Driving => 'd',
            LaneType::Biking => 'b',
            LaneType::Bus => 'B',
            LaneType::Parking => 'p',
            LaneType::Sidewalk => 's',
            LaneType::Shoulder => 'S',
            LaneType::SharedLeftTurn => 'C',
            LaneType::Construction => 'x',
            LaneType::LightRail => 'l',
            LaneType::Buffer(_) => '|',
        }
    }

    pub fn from_char(x: char) -> (lt: LaneType)
        requires
            spec_from_char(x) is Some,
        ensures
            Some(lt) == spec_from_char(x),
            spec_to_char(lt) == x,
    {
        if x == 'd' {
            LaneType::Driving
        } else if x == 'b' {
            LaneType::Biking
        } else if x == 'B' {
            LaneType::Bus
        } else if x == 'p' {
            LaneType::Parking
        } else if x == 's' {
            LaneType::Sidewalk
        } else if x == 'S' {
            LaneType::Shoulder
        } else if x == 'C' {
            LaneType::SharedLeftTurn
        } else if x == 'x' {
            LaneType::Construction
        } else if x == 'l' {
            LaneType::LightRail
        } else {
            LaneType::Buffer(BufferType::FlexPosts)
        }
    }
}

/// Of the first `n` lanes those that run forward, or those that do not, in their
/// order from left to right.
pub open spec fn side_of(lanes: Seq<LaneSpec>, fwd: bool, n: int) -> Seq<LaneSpec>
    decreases n,
{
    if n <= 0 {
        Seq::empty()
    } else if (lanes[n - 1].dir is Fwd) == fwd {
        side_of(lanes, fwd, n - 1).push(lanes[n - 1])
    } else {
        side_of(lanes, fwd, n - 1)
    }
}

/// The first lane of a kind at or after `from`, if there is one.
pub open spec fn first_of(side: Seq<LaneSpec>, lt: LaneType, from: int) -> Option<int>
    decreases side.len() - from,
{
    if from < 0 || from >= side.len() {
        None
    } else if side[from].lt == lt {
        Some(from)
    } else {
        first_of(side, lt, from + 1)
    }
}

/// How many of the first `n` lanes are of a kind.
pub open spec fn count_of(side: Seq<LaneSpec>, lt: LaneType, n: int) -> int
    decreases n,
{
    if n <= 0 {
        0
    } else if side[n - 1].lt == lt {
        count_of(side, lt, n - 1) + 1
    } else {
        count_of(side, lt, n - 1)
    }
}

/// The lane of one side of the road, given from the outside inward, that gives
/// way to a bike lane: the first parking lane, if cars drive on this side; where
/// nobody parks, the first driving lane, if there is more than one.
pub open spec fn lane_to_replace(side: Seq<LaneSpec>) -> Option<int> {
    let driving = count_of(side, LaneType::Driving, side.len() as int);
    if first_of(side, LaneType::Parking, 0) is Some {
        if driving == 0 {
            None
        } else {
            first_of(side, LaneType::Parking, 0)
        }
    } else if driving > 1 {
        first_of(side, LaneType::Driving, 0)
    } else {
        None
    }
}

/// One side of the road, given from the outside inward, with its bike lane.
pub open spec fn with_bike_lane(
    side: Seq<LaneSpec>,
    dir: Direction,
    buffer_type: Option<BufferType>,
    bike_width: Distance,
    buffer_width: Distance,
) -> Seq<LaneSpec> {
    match lane_to_replace(side) {
        None => side,
        Some(i) => {
            let biked = side.update(i, LaneSpec { lt: LaneType::Biking, dir, width: bike_width });
            match buffer_type {
                Some(b) => biked.insert(
                    i + 1,
                    LaneSpec { lt: LaneType::Buffer(b), dir, width: buffer_width },
                ),
                None => biked,
            }
        },
    }
}

/// The lanes of a road, from left to right, after each side got its bike lane.
/// The lanes that run back lie on the left, outermost first; those that run
/// forward on the right, outermost last.
pub open spec fn spec_add_bike_lanes(
    lanes: Seq<LaneSpec>,
    buffer_type: Option<BufferType>,
    bike_width: Distance,
    buffer_width: Distance,
) -> Seq<LaneSpec> {
    with_bike_lane(
        side_of(lanes, false, lanes.len() as int),
        Direction::Back,
        buffer_type,
        bike_width,
        buffer_width,
    ) + with_bike_lane(
        side_of(lanes, true, lanes.len() as int).reverse(),
        Direction::Fwd,
        buffer_type,
        bike_width,
        buffer_width,
    ).reverse()
}

/// The lanes in opposite order.
fn reversed(lanes: &Vec<LaneSpec>) -> (res: Vec<LaneSpec>)
    ensures
        res@ == lanes@.reverse(),
{
    let mut res: Vec<LaneSpec> = Vec::new();
    let mut i: usize = lanes.len();
    while i > 0
        invariant
            i <= lanes@.len(),
            res@.len() == lanes@.len() - i,
            forall|j: int| 0 <= j < res@.len() ==> res@[j] == lanes@[lanes@.len() - 1 - j],
        decreases i,
    {
        i -= 1;
        res.push(lanes[i]);
    }
    proof {
        assert(res@ =~= lanes@.reverse());
    }
    res
}

/// Puts the bike lane on one side of the road, given from the outside inward.
fn add_bike_lane(
    side: &mut Vec<LaneSpec>,
    dir: Direction,
    buffer_type: Option<BufferType>,
    bike_width: Distance,
    buffer_width: Distance,
)
    ensures
        final(side)@ == with_bike_lane(old(side)@, dir, buffer_type, bike_width, buffer_width),
{
    let mut parking_lane: Option<usize> = None;
    let mut first_driving_lane: Option<usize> = None;
    let mut num_driving_lanes: usize = 0;
    let mut idx: usize = 0;
    while idx < side.len()
        invariant
            idx <= side@.len(),
            side@ == old(side)@,
            num_driving_lanes == count_of(side@, LaneType::Driving, idx as int),
            num_driving_lanes <= idx,
            first_of(side@, LaneType::Parking, 0) == (match parking_lane {
                Some(i) => Some(i as int),
                None => first_of(side@, LaneType::Parking, idx as int),
            }),
            first_of(side@, LaneType::Driving, 0) == (match first_driving_lane {
                Some(i) => Some(i as int),
                None => first_of(side@, LaneType::Driving, idx as int),
            }),
            parking_lane matches Some(i) ==> i < side@.len(),
            first_driving_lane matches Some(i) ==> i < side@.len(),
        decreases side@.len() - idx,
    {
        let spec = side[idx];
        if spec.lt == LaneType::Parking && parking_lane.is_none() {
            parking_lane = Some(idx);
        }
        if spec.lt == LaneType::Driving && first_driving_lane.is_none() {
            first_driving_lane = Some(idx);
        }
        if spec.lt == LaneType::Driving {
            num_driving_lanes += 1;
        }
        idx += 1;
    }
    let chosen = if parking_lane.is_some() {
        if num_driving_lanes == 0 {
            None
        } else {
            parking_lane
        }
    } else if num_driving_lanes > 1 {
        first_driving_lane
    } else {
        None
    };
    if let Some(idx) = chosen {
        side.set(idx, LaneSpec { lt: LaneType::Biking, dir, width: bike_width });
        if let Some(buffer) = buffer_type {
            side.insert(idx + 1, LaneSpec { lt: LaneType::Buffer(buffer), dir, width: buffer_width });
        }
    }
}

/// Makes room for a bike lane on each side of the road, with a buffer beside it
/// if one is asked for. The new lanes get the widths given.
pub fn maybe_add_bike_lanes(
    r: &mut EditRoad,
    buffer_type: Option<BufferType>,
    bike_width: Distance,
    buffer_width: Distance,
)
    ensures
        final(r).lanes_ltr@ == spec_add_bike_lanes(
            old(r).lanes_ltr@,
            buffer_type,
            bike_width,
            buffer_width,
        ),
{
    let mut fwd_side: Vec<LaneSpec> = Vec::new();
    let mut back_side: Vec<LaneSpec> = Vec::new();
    let mut i: usize = 0;
    while i < r.lanes_ltr.len()
        invariant
            i <= r.lanes_ltr@.len(),
            r.lanes_ltr@ == old(r).lanes_ltr@,
            fwd_side@ == side_of(r.lanes_ltr@, true, i as int),
            back_side@ == side_of(r.lanes_ltr@, false, i as int),
        decreases r.lanes_ltr@.len() - i,
    {
        let spec = r.lanes_ltr[i];
        if spec.dir == Direction::Fwd {
            fwd_side.push(spec);
        } else {
            back_side.push(spec);
        }
        i += 1;
    }
    let mut fwd_side = reversed(&fwd_side);
    add_bike_lane(&mut fwd_side, Direction::Fwd, buffer_type, bike_width, buffer_width);
    add_bike_lane(&mut back_side, Direction::Back, buffer_type, bike_width, buffer_width);
    let mut fwd_side = reversed(&fwd_side);
    let mut lanes = back_side;
    lanes.append(&mut fwd_side);
    r.lanes_ltr = lanes;
}

/// Whether two rows of lanes are the same.
pub fn same_lanes(a: &Vec<LaneSpec>, b: &Vec<LaneSpec>) -> (same: bool)
    ensures
        same == (a@ == b@),
{
    if a.len() != b.len() {
        return false;
    }
    let mut i: usize = 0;
    while i < a.len()
        invariant
            a@.len() == b@.len(),
            i <= a@.len(),
            forall|j: int| 0 <= j < i ==> a@[j] == b@[j],
        decreases a@.len() - i,
    {
        if a[i] != b[i] {
            return false;
        }
        i += 1;
    }
    proof {
        assert(a@ =~= b@);
    }
    true
}

/// The road with its bike lanes, if making room for them changes it at all.
pub fn quick_change(
    old: &EditRoad,
    buffer_type: Option<BufferType>,
    bike_width: Distance,
    buffer_width: Distance,
) -> (res: Option<EditRoad>)
    ensures
        match res {
            Some(new) => new.lanes_ltr@ == spec_add_bike_lanes(
                old.lanes_ltr@,
                buffer_type,
                bike_width,
                buffer_width,
            ) && new.lanes_ltr@ != old.lanes_ltr@,
            None => spec_add_bike_lanes(old.lanes_ltr@, buffer_type, bike_width, buffer_width)
                == old.lanes_ltr@,
        },
{
    let mut lanes: Vec<LaneSpec> = Vec::new();
    let mut i: usize = 0;
    while i < old.lanes_ltr.len()
        invariant
            i <= old.lanes_ltr@.len(),
            lanes@ == old.lanes_ltr@.take(i as int),
        decreases old.lanes_ltr@.len() - i,
    {
        lanes.push(old.lanes_ltr[i]);
        proof {
            assert(lanes@ =~= old.lanes_ltr@.take(i + 1));
        }
        i += 1;
    }
    proof {
        assert(lanes@ =~= old.lanes_ltr@);
    }
    let mut new = EditRoad { lanes_ltr: lanes };
    maybe_add_bike_lanes(&mut new, buffer_type, bike_width, buffer_width);
    if same_lanes(&new.lanes_ltr, &old.lanes_ltr) {
        None
    } else {
        Some(new)
    }
}

} // verus!
