//! Putting saved panels back on the draw of a round.
//!
//! Rooms are matched by rank: the panel of the saved room of highest rank goes
//! to the live room of highest rank, and so on. Where the round has fewer
//! rooms now, the panels of the lowest saved rooms are left over.

use crate::draw::{copy_panel, Pairing, Panel, PanelView};
use crate::order::{is_stable_order, stable_order};
use vstd::prelude::*;

verus! {

/// A panel to put on a live pairing.
#[derive(Debug, Clone, PartialEq, Eq)]
pub struct PanelRestore {
    /// Position of the live pairing among the live pairings.
    pub live: usize,
    /// Position of the saved pairing among the saved pairings.
    pub saved: usize,
    /// URL of the live pairing: the pairing is sent there with the panel.
    pub url: String,
    /// The saved panel.
    pub adjudicators: Option<Panel>,
}

/// The key that a pairing is ranked by: its room rank, and the greatest rank
/// where it has none.
pub open spec fn rank_key(pairing: Pairing) -> i64 {
    match pairing.room_rank {
        Some(rank) => rank as i64,
        None => i32::MAX as i64,
    }
}

/// The keys of the pairings.
pub open spec fn rank_keys(pairings: Seq<Pairing>) -> Seq<i64> {
    pairings.map_values(|p: Pairing| rank_key(p))
}

/// The panel of a pairing as texts.
pub open spec fn panel_view(panel: Option<Panel>) -> Option<PanelView> {
    match panel {
        Some(p) => Some(p@),
        None => None,
    }
}

/// The keys that the pairings are ranked by.
pub fn ranks(pairings: &Vec<Pairing>) -> (r: Vec<i64>)
    ensures
        r@ == rank_keys(pairings@),
{
    let mut r: Vec<i64> = Vec::new();
    let mut i: usize = 0;
    while i < pairings.len()
        invariant
            i <= pairings.len(),
            r@.len() == i,
            forall|j: int| 0 <= j < i ==> #[trigger] r@[j] == rank_key(pairings@[j]),
        decreases pairings.len() - i,
    {
        let key = match pairings[i].room_rank {
            Some(rank) => rank as i64,
            None => i32::MAX as i64,
        };
        r.push(key);
        i += 1;
    }
    assert(r@ =~= rank_keys(pairings@));
    r
}

/// `plan` puts the saved panels on the live pairings by rank, given the order
/// of the saved and of the live pairings by rank.
pub open spec fn is_restore(
    plan: Seq<PanelRestore>,
    saved: Seq<Pairing>,
    live: Seq<Pairing>,
    saved_order: Seq<usize>,
    live_order: Seq<usize>,
) -> bool {
    &&& plan.len() == if saved.len() <= live.len() {
        saved.len()
    } else {
        live.len()
    }
    &&& forall|i: int|
        0 <= i < plan.len() ==> (#[trigger] plan[i]).live == live_order[i] && plan[i].saved
            == saved_order[i] && plan[i].url@ == live[live_order[i] as int].url@ && panel_view(
            plan[i].adjudicators,
        ) == panel_view(saved[saved_order[i] as int].adjudicators)
}

/// Puts the saved panels on the live pairings, given both orders by rank.
pub fn restore_in_order(
    saved: &Vec<Pairing>,
    live: &Vec<Pairing>,
    saved_order: &Vec<usize>,
    live_order: &Vec<usize>,
) -> (r: Vec<PanelRestore>)
    requires
        is_stable_order(rank_keys(saved@), saved_order@),
        is_stable_order(rank_keys(live@), live_order@),
    ensures
        is_restore(r@, saved@, live@, saved_order@, live_order@),
{
    let count = if saved.len() <= live.len() {
        saved.len()
    } else {
        live.len()
    };
    let mut r: Vec<PanelRestore> = Vec::new();
    let mut i: usize = 0;
    while i < count
        invariant
            i <= count,
            count <= saved.len(),
            count <= live.len(),
            is_stable_order(rank_keys(saved@), saved_order@),
            is_stable_order(rank_keys(live@), live_order@),
            r@.len() == i,
            forall|j: int|
                0 <= j < i ==> (#[trigger] r@[j]).live == live_order@[j] && r@[j].saved
                    == saved_order@[j] && r@[j].url@ == live@[live_order@[j] as int].url@
                    && panel_view(r@[j].adjudicators) == panel_view(
                    saved@[saved_order@[j] as int].adjudicators,
                ),
        decreases count - i,
    {
        let s = saved_order[i];
        let l = live_order[i];
        assert(s < saved.len());
        assert(l < live.len());
        let adjudicators = match &saved[s].adjudicators {
            Some(p) => Some(copy_panel(p)),
            None => None,
        };
        r.push(PanelRestore { live: l, saved: s, url: live[l].url.clone(), adjudicators });
        i += 1;
    }
    r
}

/// The panels to put on the live pairings of a round from a saved draw: the
/// saved and the live pairings are each put in the order of their room ranks,
/// pairings of equal rank in their own order, and are matched one by one.
pub fn restore_panels(saved: &Vec<Pairing>, live: &Vec<Pairing>) -> (r: Vec<PanelRestore>)
    ensures
        exists|saved_order: Seq<usize>, live_order: Seq<usize>|
            is_stable_order(rank_keys(saved@), saved_order) && is_stable_order(
                rank_keys(live@),
                live_order,
            ) && is_restore(r@, saved@, live@, saved_order, live_order),
{
    let saved_keys = ranks(saved);
    let live_keys = ranks(live);
    let saved_order = stable_order(&saved_keys);
    let live_order = stable_order(&live_keys);
    let r = restore_in_order(saved, live, &saved_order, &live_order);
    assert(is_stable_order(rank_keys(saved@), saved_order@) && is_stable_order(
        rank_keys(live@),
        live_order@,
    ) && is_restore(r@, saved@, live@, saved_order@, live_order@));
    r
}

} // verus!
