//! Clearing the external URL of every room.

use crate::entities::Venue;
use vstd::prelude::*;

verus! {

/// A patch that clears the external URL of a room.
#[derive(Debug, Clone, PartialEq, Eq)]
pub struct RoomPatch {
    /// URL of the room: the patch is sent there.
    pub url: String,
    /// The external URL to set: the empty text.
    pub external_url: String,
}

/// One patch for every room, in order. The caller puts the room that each
/// patch returns in the place of the room it was made for.
pub fn do_clear_room_urls(rooms: &Vec<Venue>) -> (r: Vec<RoomPatch>)
    ensures
        r@.len() == rooms@.len(),
        forall|i: int|
            0 <= i < rooms@.len() ==> (#[trigger] r@[i]).url@ == rooms@[i].url@
                && r@[i].external_url@.len() == 0,
{
    let mut r: Vec<RoomPatch> = Vec::new();
    let mut i: usize = 0;
    while i < rooms.len()
        invariant
            i <= rooms.len(),
            r@.len() == i,
            forall|j: int|
                0 <= j < i ==> (#[trigger] r@[j]).url@ == rooms@[j].url@ && r@[j].external_url@.len()
                    == 0,
        decreases rooms.len() - i,
    {
        r.push(RoomPatch { url: rooms[i].url.clone(), external_url: String::new() });
        i += 1;
    }
    r
}

} // verus!
