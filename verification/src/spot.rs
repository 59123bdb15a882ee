//! Parking spots, and the order in which the tables of the crate keep them.

use crate::ids::{BuildingID, LaneID, ParkingLotID};
use vstd::prelude::*;

verus! {

/// One addressable unit of parking capacity.
#[derive(Clone, Copy, Debug, PartialEq, Eq, Structural, PartialOrd, Ord, Hash)]
pub enum ParkingSpot {
    /// A curb-side spot on a parking lane. Index 0 is the spot farthest along the
    /// lane; each further index lies one spot length nearer the lane's start.
    Onstreet(LaneID, usize),
    /// A spot in or at a building. The index has no geometric meaning.
    Offstreet(BuildingID, usize),
    /// A slot of a parking lot.
    Lot(ParkingLotID, usize),
}

/// A spot as the ordered tables key it: the tag (0 on the street, 1 off the
/// street, 2 in a lot), the lane, building or lot, and the index. Keys compare as
/// spots do: by tag, then by owner, then by index.
pub type SpotKey = (u8, usize, usize);

impl ParkingSpot {
    pub open spec fn spec_key(self) -> SpotKey {
        match self {
            ParkingSpot::Onstreet(l, idx) => (0u8, l.0, idx),
            ParkingSpot::Offstreet(b, idx) => (1u8, b.0, idx),
            ParkingSpot::Lot(pl, idx) => (2u8, pl.0, idx),
        }
    }

    /// The spot that a key stands for.
    pub open spec fn spec_from_key(k: SpotKey) -> ParkingSpot {
        if k.0 == 0 {
            ParkingSpot::Onstreet(LaneID(k.1), k.2)
        } else if k.0 == 1 {
            ParkingSpot::Offstreet(BuildingID(k.1), k.2)
        } else {
            ParkingSpot::Lot(ParkingLotID(k.1), k.2)
        }
    }

    /// Keys of spots have one of the three tags.
    pub open spec fn key_valid(k: SpotKey) -> bool {
        k.0 <= 2
    }

    /// The order of spots: street before building before lot, then by lane,
    /// building or lot, then by index.
    pub open spec fn spec_lt(self, other: ParkingSpot) -> bool {
        let a = self.spec_key();
        let b = other.spec_key();
        a.0 < b.0 || (a.0 == b.0 && (a.1 < b.1 || (a.1 == b.1 && a.2 < b.2)))
    }

    pub open spec fn spec_index(self) -> usize {
        self.spec_key().2
    }

    pub fn key(&self) -> (k: SpotKey)
        ensures
            k == self.spec_key(),
            ParkingSpot::key_valid(k),
            ParkingSpot::spec_from_key(k) == *self,
    {
        match self {
            ParkingSpot::Onstreet(l, idx) => (0u8, l.0, *idx),
            ParkingSpot::Offstreet(b, idx) => (1u8, b.0, *idx),
            ParkingSpot::Lot(pl, idx) => (2u8, pl.0, *idx),
        }
    }

    pub fn from_key(k: SpotKey) -> (spot: ParkingSpot)
        ensures
            spot == ParkingSpot::spec_from_key(k),
            ParkingSpot::key_valid(k) ==> spot.spec_key() == k,
    {
        if k.0 == 0 {
            ParkingSpot::Onstreet(LaneID(k.1), k.2)
        } else if k.0 == 1 {
            ParkingSpot::Offstreet(BuildingID(k.1), k.2)
        } else {
            ParkingSpot::Lot(ParkingLotID(k.1), k.2)
        }
    }

    /// Whether this spot comes before the other in the order of spots.
    pub fn lt(&self, other: &ParkingSpot) -> (b: bool)
        ensures
            b == self.spec_lt(*other),
    {
        let a = self.key();
        let o = other.key();
        a.0 < o.0 || (a.0 == o.0 && (a.1 < o.1 || (a.1 == o.1 && a.2 < o.2)))
    }
}

/// Two spots with one key are one spot, and every valid key is the key of the
/// spot it stands for.
pub proof fn lemma_spot_key_injective(a: ParkingSpot, b: ParkingSpot)
    ensures
        a.spec_key() == b.spec_key() <==> a == b,
        ParkingSpot::spec_from_key(a.spec_key()) == a,
        ParkingSpot::key_valid(a.spec_key()),
{
}

/// The order of spots is a strict total order.
pub proof fn lemma_spot_order(a: ParkingSpot, b: ParkingSpot, c: ParkingSpot)
    ensures
        !a.spec_lt(a),
        a.spec_lt(b) && b.spec_lt(c) ==> a.spec_lt(c),
        a.spec_lt(b) || b.spec_lt(a) || a == b,
        !(a.spec_lt(b) && b.spec_lt(a)),
{
}

/// The spots of the sequence rise strictly in the order of spots.
pub open spec fn ascending(s: Seq<ParkingSpot>) -> bool {
    forall|i: int, j: int| 0 <= i < j < s.len() ==> (#[trigger] s[i]).spec_lt(#[trigger] s[j])
}

/// The sequence lists the spots of the set, each once, in the order of spots.
pub open spec fn lists(s: Seq<ParkingSpot>, set: Set<ParkingSpot>) -> bool {
    &&& ascending(s)
    &&& forall|spot: ParkingSpot| s.contains(spot) <==> set.contains(spot)
}

/// The spot comes before every spot of the given lane, building or lot.
pub open spec fn before_owner(spot: ParkingSpot, tag: u8, owner: usize) -> bool {
    spot.spec_key().0 < tag || (spot.spec_key().0 == tag && spot.spec_key().1 < owner)
}

/// The spot is one of the given lane, building or lot.
pub open spec fn owned_by(spot: ParkingSpot, tag: u8, owner: usize) -> bool {
    spot.spec_key().0 == tag && spot.spec_key().1 == owner
}

/// Only one sequence lists the spots of a set.
pub proof fn lemma_lists_unique(a: Seq<ParkingSpot>, b: Seq<ParkingSpot>, set: Set<ParkingSpot>)
    requires
        lists(a, set),
        lists(b, set),
    ensures
        a == b,
    decreases a.len(),
{
    if a.len() == 0 {
        if b.len() > 0 {
            assert(b.contains(b[0]));
            assert(a.contains(b[0]));
        }
        assert(a =~= b);
    } else {
        assert(a.contains(a[0]));
        assert(b.contains(a[0]));
        let j = choose|j: int| 0 <= j < b.len() && b[j] == a[0];
        assert(b.contains(b[0]));
        assert(a.contains(b[0]));
        let i = choose|i: int| 0 <= i < a.len() && a[i] == b[0];
        if j > 0 {
            assert(b[0].spec_lt(b[j]));
            if i > 0 {
                assert(a[0].spec_lt(a[i]));
            }
            assert(false);
        }
        let rest = set.remove(a[0]);
        let a1 = a.drop_first();
        let b1 = b.drop_first();
        assert forall|x: int, y: int| 0 <= x < y < a1.len() implies (#[trigger] a1[x]).spec_lt(
            #[trigger] a1[y],
        ) by {
            assert(a[x + 1].spec_lt(a[y + 1]));
        }
        assert forall|x: int, y: int| 0 <= x < y < b1.len() implies (#[trigger] b1[x]).spec_lt(
            #[trigger] b1[y],
        ) by {
            assert(b[x + 1].spec_lt(b[y + 1]));
        }
        assert forall|spot: ParkingSpot| a1.contains(spot) <==> rest.contains(spot) by {
            if a1.contains(spot) {
                let k = choose|k: int| 0 <= k < a1.len() && a1[k] == spot;
                assert(a[k + 1] == spot);
                assert(a.contains(spot));
                assert(a[0].spec_lt(a[k + 1]));
            }
            if rest.contains(spot) {
                assert(a.contains(spot));
                let k = choose|k: int| 0 <= k < a.len() && a[k] == spot;
                assert(a1[k - 1] == spot);
            }
        }
        assert forall|spot: ParkingSpot| b1.contains(spot) <==> rest.contains(spot) by {
            if b1.contains(spot) {
                let k = choose|k: int| 0 <= k < b1.len() && b1[k] == spot;
                assert(b[k + 1] == spot);
                assert(b.contains(spot));
                assert(b[0].spec_lt(b[k + 1]));
            }
            if rest.contains(spot) {
                assert(b.contains(spot));
                let k = choose|k: int| 0 <= k < b.len() && b[k] == spot;
                assert(b1[k - 1] == spot);
            }
        }
        lemma_lists_unique(a1, b1, rest);
        assert(a =~= seq![a[0]] + a1);
        assert(b =~= seq![b[0]] + b1);
    }
}

} // verus!
