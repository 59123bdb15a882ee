//! Lists of spots: the free spots of a lane, a building or a lot, and all spots
//! of the inventory, parted into the free and the taken.

use crate::ids::{BuildingID, LaneID, ParkingLotID};
use crate::ordered::strictly_ascending;
use crate::inventory::{Inventory, InventoryView};
use crate::spot::{ParkingSpot, ascending, before_owner, lemma_spot_key_injective, lists, owned_by};
use crate::state::ParkingSimState;
use vstd::prelude::*;

verus! {

/// Whether a spot exists depends on its index and on the capacity of its lane,
/// building or lot alone.
pub proof fn lemma_capacity_of_owner(inv: InventoryView, spot: ParkingSpot)
    ensures
        inv.capacity_for(spot) == inv.capacity_for(
            ParkingSpot::spec_from_key((spot.spec_key().0, spot.spec_key().1, 0)),
        ),
        inv.has_spot(spot) <==> spot.spec_index() < inv.capacity_for(
            ParkingSpot::spec_from_key((spot.spec_key().0, spot.spec_key().1, 0)),
        ),
{
}

/// The last spots of an inventory say which spots there are: two inventories
/// with the same last spots have the same spots.
pub proof fn lemma_last_spots_determine_spots(a: InventoryView, b: InventoryView)
    requires
        a.capacities_fit(),
        b.capacities_fit(),
        a.last_spots() == b.last_spots(),
    ensures
        forall|spot: ParkingSpot| a.has_spot(spot) == b.has_spot(spot),
        a.spots() == b.spots(),
{
    assert forall|spot: ParkingSpot| a.has_spot(spot) == b.has_spot(spot) by {
        let k = spot.spec_key();
        lemma_capacity_of_owner(a, spot);
        lemma_capacity_of_owner(b, spot);
        if a.has_spot(spot) {
            let top = ParkingSpot::spec_from_key((k.0, k.1, (a.capacity_for(spot) - 1) as usize));
            lemma_capacity_of_owner(a, top);
            lemma_capacity_of_owner(b, top);
            assert(a.last_spots().contains(top));
            assert(b.last_spots().contains(top));
        }
        if b.has_spot(spot) {
            let top = ParkingSpot::spec_from_key((k.0, k.1, (b.capacity_for(spot) - 1) as usize));
            lemma_capacity_of_owner(a, top);
            lemma_capacity_of_owner(b, top);
            assert(b.last_spots().contains(top));
            assert(a.last_spots().contains(top));
        }
    }
    assert(a.spots() =~= b.spots());
}

impl Inventory {
    /// Appends the last spots of all lanes (tag 0), buildings (tag 1) or lots
    /// (tag 2) that have spots, in the order of spots.
    fn push_last_spots(&self, out: &mut Vec<ParkingSpot>, tag: u8)
        requires
            tag <= 2,
            ascending(old(out)@),
            forall|i: int| 0 <= i < old(out)@.len() ==> (#[trigger] old(out)@[i]).spec_key().0 < tag,
        ensures
            ascending(final(out)@),
            forall|i: int|
                0 <= i < final(out)@.len() ==> (#[trigger] final(out)@[i]).spec_key().0 <= tag,
            forall|spot: ParkingSpot|
                #![trigger final(out)@.contains(spot)]
                final(out)@.contains(spot) <==> old(out)@.contains(spot) || (spot.spec_key().0
                    == tag && self@.is_last_spot(spot)),
    {
        let owners = self.owners(tag);
        let mut k: usize = 0;
        proof {
            assert forall|spot: ParkingSpot|
                spot.spec_key().0 == tag && self@.is_last_spot(spot) implies owners@.len() > 0
                && spot.spec_key().1 >= owners@[0] by {
                lemma_capacity_of_owner(self@, spot);
                let so = spot.spec_key().1;
                assert(owners@.contains(so));
                let m = choose|m: int| 0 <= m < owners@.len() && owners@[m] == so;
                if m > 0 {
                    assert(owners@[0] < owners@[m]);
                }
            }
        }
        while k < owners.len()
            invariant
                tag <= 2,
                k <= owners@.len(),
                strictly_ascending(owners@),
                forall|o: usize|
                    self@.capacity_for(#[trigger] ParkingSpot::spec_from_key((tag, o, 0))) > 0
                        ==> owners@.contains(o),
                ascending(out@),
                forall|i: int|
                    0 <= i < out@.len() ==> (#[trigger] out@[i]).spec_key().0 <= tag && (k
                        < owners@.len() ==> before_owner(out@[i], tag, owners@[k as int])),
                forall|spot: ParkingSpot|
                    #![trigger out@.contains(spot)]
                    out@.contains(spot) <==> old(out)@.contains(spot) || (spot.spec_key().0 == tag
                        && (k < owners@.len() ==> spot.spec_key().1 < owners@[k as int])
                        && self@.is_last_spot(spot)),
            decreases owners@.len() - k,
        {
            let ghost before = out@;
            let o = owners[k];
            let n = self.capacity(tag, o);
            if n > 0 {
                out.push(ParkingSpot::from_key((tag, o, n - 1)));
            }
            proof {
                let top = ParkingSpot::spec_from_key((tag, o, (n - 1) as usize));
                if k + 1 < owners@.len() {
                    assert(owners@[k as int] < owners@[k + 1]);
                }
                assert forall|spot: ParkingSpot|
                    #![trigger out@.contains(spot)]
                    out@.contains(spot) <==> old(out)@.contains(spot) || (spot.spec_key().0 == tag
                        && (k + 1 < owners@.len() ==> spot.spec_key().1 < owners@[k + 1])
                        && self@.is_last_spot(spot)) by {
                    let so = spot.spec_key().1;
                    assert(before.contains(spot) <==> old(out)@.contains(spot) || (
                    spot.spec_key().0 == tag && so < o && self@.is_last_spot(spot)));
                    if n > 0 {
                        vstd::seq_lib::lemma_seq_contains_after_push(before, top, spot);
                    }
                    if spot.spec_key().0 == tag && self@.is_last_spot(spot) {
                        lemma_capacity_of_owner(self@, spot);
                        assert(owners@.contains(so));
                        let m = choose|m: int| 0 <= m < owners@.len() && owners@[m] == so;
                        if m < k {
                            assert(owners@[m] < owners@[k as int]);
                        }
                        if m > k + 1 {
                            assert(owners@[k + 1] < owners@[m]);
                        }
                        if m == k {
                            lemma_spot_key_injective(spot, top);
                        }
                    }
                    if spot == top && n > 0 {
                        lemma_capacity_of_owner(self@, top);
                    }
                }
            }
            k += 1;
        }
    }

    /// The last spots of all lanes, buildings and lots that have spots, in the
    /// order of spots.
    pub fn get_last_spots(&self) -> (spots: Vec<ParkingSpot>)
        ensures
            lists(spots@, self@.last_spots()),
    {
        let mut spots: Vec<ParkingSpot> = Vec::new();
        self.push_last_spots(&mut spots, 0);
        self.push_last_spots(&mut spots, 1);
        self.push_last_spots(&mut spots, 2);
        spots
    }
}

/// Whether two lists of spots are the same.
pub fn same_spots(a: &Vec<ParkingSpot>, b: &Vec<ParkingSpot>) -> (same: bool)
    ensures
        same == (a@ == b@),
{
    if a.len() != b.len() {
        return false;
    }
    let mut i: usize = 0;
    while i < a.len()
        invariant
            a@.len() == b@.len(),
            i <= a@.len(),
            forall|j: int| 0 <= j < i ==> a@[j] == b@[j],
        decreases a@.len() - i,
    {
        if a[i] != b[i] {
            return false;
        }
        i += 1;
    }
    proof {
        assert(a@ =~= b@);
    }
    true
}

impl ParkingSimState {
    /// Appends to `out` the spots of one lane (tag 0), building (tag 1) or lot
    /// (tag 2) that are free, or those that are taken, by rising index.
    pub(crate) fn push_spots_of(&self, out: &mut Vec<ParkingSpot>, tag: u8, owner: usize, want_free: bool)
        requires
            tag <= 2,
            ascending(old(out)@),
            forall|i: int|
                0 <= i < old(out)@.len() ==> before_owner(#[trigger] old(out)@[i], tag, owner),
        ensures
            ascending(final(out)@),
            forall|i: int|
                0 <= i < final(out)@.len() ==> before_owner(#[trigger] final(out)@[i], tag, owner)
                    || owned_by(final(out)@[i], tag, owner),
            forall|spot: ParkingSpot|
                #![trigger final(out)@.contains(spot)]
                final(out)@.contains(spot) <==> old(out)@.contains(spot) || (owned_by(
                    spot,
                    tag,
                    owner,
                ) && self@.has_spot(spot) && self@.is_free(spot) == want_free),
    {
        let n = self.inventory().capacity(tag, owner);
        let mut idx: usize = 0;
        while idx < n
            invariant
                tag <= 2,
                idx <= n,
                n == self@.inventory.capacity_for(ParkingSpot::spec_from_key((tag, owner, 0))),
                ascending(out@),
                forall|i: int|
                    0 <= i < out@.len() ==> before_owner(#[trigger] out@[i], tag, owner) || (
                    owned_by(out@[i], tag, owner) && out@[i].spec_index() < idx),
                forall|spot: ParkingSpot|
                    #![trigger out@.contains(spot)]
                    out@.contains(spot) <==> old(out)@.contains(spot) || (owned_by(
                        spot,
                        tag,
                        owner,
                    ) && spot.spec_index() < idx && self@.is_free(spot) == want_free),
            decreases n - idx,
        {
            let spot = ParkingSpot::from_key((tag, owner, idx));
            proof {
                assert forall|s: ParkingSpot|
                    owned_by(s, tag, owner) && s.spec_index() == idx implies s == spot by {
                    lemma_spot_key_injective(s, spot);
                }
            }
            let ghost before = out@;
            if self.is_free(spot) == want_free {
                out.push(spot);
            }
            proof {
                assert forall|s: ParkingSpot|
                    #![trigger out@.contains(s)]
                    out@.contains(s) <==> old(out)@.contains(s) || (owned_by(s, tag, owner)
                        && s.spec_index() < idx + 1 && self@.is_free(s) == want_free) by {
                    assert(before.contains(s) <==> old(out)@.contains(s) || (owned_by(
                        s,
                        tag,
                        owner,
                    ) && s.spec_index() < idx && self@.is_free(s) == want_free));
                    if self@.is_free(spot) == want_free {
                        vstd::seq_lib::lemma_seq_contains_after_push(before, spot, s);
                    }
                    if owned_by(s, tag, owner) && s.spec_index() == idx {
                        assert(s == spot);
                    }
                }
            }
            idx += 1;
        }
        proof {
            assert forall|spot: ParkingSpot|
                #![trigger out@.contains(spot)]
                out@.contains(spot) <==> old(out)@.contains(spot) || (owned_by(spot, tag, owner)
                    && self@.has_spot(spot) && self@.is_free(spot) == want_free) by {
                if owned_by(spot, tag, owner) {
                    lemma_capacity_of_owner(self@.inventory, spot);
                }
            }
        }
    }

    /// Appends to `out` all spots of one tag (0 on the street, 1 off the street,
    /// 2 in lots) that are free, or those that are taken, in the order of spots.
    pub(crate) fn push_spots_of_kind(&self, out: &mut Vec<ParkingSpot>, tag: u8, want_free: bool)
        requires
            tag <= 2,
            ascending(old(out)@),
            forall|i: int| 0 <= i < old(out)@.len() ==> (#[trigger] old(out)@[i]).spec_key().0 < tag,
        ensures
            ascending(final(out)@),
            forall|i: int|
                0 <= i < final(out)@.len() ==> (#[trigger] final(out)@[i]).spec_key().0 <= tag,
            forall|spot: ParkingSpot|
                #![trigger final(out)@.contains(spot)]
                final(out)@.contains(spot) <==> old(out)@.contains(spot) || (spot.spec_key().0
                    == tag && self@.has_spot(spot) && self@.is_free(spot) == want_free),
    {
        let owners = self.inventory().owners(tag);
        let mut k: usize = 0;
        proof {
            assert forall|spot: ParkingSpot|
                spot.spec_key().0 == tag && self@.has_spot(spot) implies owners@.len() > 0
                && spot.spec_key().1 >= owners@[0] by {
                lemma_capacity_of_owner(self@.inventory, spot);
                let so = spot.spec_key().1;
                assert(owners@.contains(so));
                let m = choose|m: int| 0 <= m < owners@.len() && owners@[m] == so;
                if m > 0 {
                    assert(owners@[0] < owners@[m]);
                }
            }
        }
        while k < owners.len()
            invariant
                tag <= 2,
                k <= owners@.len(),
                strictly_ascending(owners@),
                forall|o: usize|
                    self@.inventory.capacity_for(
                        #[trigger] ParkingSpot::spec_from_key((tag, o, 0)),
                    ) > 0 ==> owners@.contains(o),
                ascending(out@),
                forall|i: int|
                    0 <= i < out@.len() ==> (#[trigger] out@[i]).spec_key().0 <= tag && (k
                        < owners@.len() ==> before_owner(out@[i], tag, owners@[k as int])),
                forall|spot: ParkingSpot|
                    #![trigger out@.contains(spot)]
                    out@.contains(spot) <==> old(out)@.contains(spot) || (spot.spec_key().0 == tag
                        && (k < owners@.len() ==> spot.spec_key().1 < owners@[k as int])
                        && self@.has_spot(spot) && self@.is_free(spot) == want_free),
            decreases owners@.len() - k,
        {
            let ghost before = out@;
            self.push_spots_of(out, tag, owners[k], want_free);
            proof {
                let o = owners@[k as int];
                if k + 1 < owners@.len() {
                    assert(owners@[k as int] < owners@[k + 1]);
                }
                assert forall|spot: ParkingSpot|
                    out@.contains(spot) <==> old(out)@.contains(spot) || (spot.spec_key().0 == tag
                        && (k + 1 < owners@.len() ==> spot.spec_key().1 < owners@[k + 1])
                        && self@.has_spot(spot) && self@.is_free(spot) == want_free) by {
                    let so = spot.spec_key().1;
                    assert(before.contains(spot) <==> old(out)@.contains(spot) || (
                    spot.spec_key().0 == tag && so < o && self@.has_spot(spot) && self@.is_free(
                        spot,
                    ) == want_free));
                    assert(out@.contains(spot) <==> before.contains(spot) || (owned_by(
                        spot,
                        tag,
                        o,
                    ) && self@.has_spot(spot) && self@.is_free(spot) == want_free));
                    if spot.spec_key().0 == tag && self@.has_spot(spot) {
                        lemma_capacity_of_owner(self@.inventory, spot);
                        assert(owners@.contains(so));
                        let m = choose|m: int| 0 <= m < owners@.len() && owners@[m] == so;
                        if m < k {
                            assert(owners@[m] < owners@[k as int]);
                        }
                        if m > k + 1 {
                            assert(owners@[k + 1] < owners@[m]);
                        }
                    }
                }
            }
            k += 1;
        }
    }

    /// The free spots of a parking lane, by rising index.
    pub fn get_free_onstreet_spots(&self, l: LaneID) -> (spots: Vec<ParkingSpot>)
        ensures
            lists(
                spots@,
                Set::new(
                    |spot: ParkingSpot|
                        owned_by(spot, 0, l.0) && self@.has_spot(spot) && self@.is_free(spot),
                ),
            ),
    {
        let mut spots: Vec<ParkingSpot> = Vec::new();
        self.push_spots_of(&mut spots, 0, l.0, true);
        spots
    }

    /// The free spots of a building, by rising index.
    pub fn get_free_offstreet_spots(&self, b: BuildingID) -> (spots: Vec<ParkingSpot>)
        ensures
            lists(
                spots@,
                Set::new(
                    |spot: ParkingSpot|
                        owned_by(spot, 1, b.0) && self@.has_spot(spot) && self@.is_free(spot),
                ),
            ),
    {
        let mut spots: Vec<ParkingSpot> = Vec::new();
        self.push_spots_of(&mut spots, 1, b.0, true);
        spots
    }

    /// The free slots of a parking lot, by rising index.
    pub fn get_free_lot_spots(&self, pl: ParkingLotID) -> (spots: Vec<ParkingSpot>)
        ensures
            lists(
                spots@,
                Set::new(
                    |spot: ParkingSpot|
                        owned_by(spot, 2, pl.0) && self@.has_spot(spot) && self@.is_free(spot),
                ),
            ),
    {
        let mut spots: Vec<ParkingSpot> = Vec::new();
        self.push_spots_of(&mut spots, 2, pl.0, true);
        spots
    }

    /// All spots of the inventory, in the order of spots: first those that are
    /// taken, then those that are free.
    pub fn get_all_parking_spots(&self) -> (res: (Vec<ParkingSpot>, Vec<ParkingSpot>))
        ensures
            lists(
                res.0@,
                Set::new(|spot: ParkingSpot| self@.has_spot(spot) && !self@.is_free(spot)),
            ),
            lists(
                res.1@,
                Set::new(|spot: ParkingSpot| self@.has_spot(spot) && self@.is_free(spot)),
            ),
    {
        let mut filled: Vec<ParkingSpot> = Vec::new();
        let mut available: Vec<ParkingSpot> = Vec::new();
        self.push_spots_of_kind(&mut filled, 0, false);
        self.push_spots_of_kind(&mut filled, 1, false);
        self.push_spots_of_kind(&mut filled, 2, false);
        self.push_spots_of_kind(&mut available, 0, true);
        self.push_spots_of_kind(&mut available, 1, true);
        self.push_spots_of_kind(&mut available, 2, true);
        (filled, available)
    }
}

} // verus!
