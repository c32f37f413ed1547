use vstd::prelude::*;
use crate::hitboxes::Point;

verus! {

/// Positions of one faction's characters, indexed by a slot that each
/// character keeps for its whole life. A freed slot becomes empty and is not
/// handed out again.
pub struct PositionRegistry(pub Vec<Option<Point>>);

/// The hostile faction's positions.
pub type EnemyPositions = PositionRegistry;

/// The ally faction's positions.
pub type SummonPositions = PositionRegistry;

impl PositionRegistry {
    /// An empty registry, as at the start of a game.
    pub fn new() -> (r: PositionRegistry)
        ensures
            r.0@.len() == 0,
    {
        PositionRegistry(Vec::new())
    }

    /// Appends `position` in a new slot and returns that slot.
    pub fn allocate(&mut self, position: Point) -> (slot: usize)
        requires
            old(self).0@.len() < usize::MAX,
        ensures
            slot == old(self).0@.len(),
            final(self).0@ == old(self).0@.push(Some(position)),
    {
        let slot = self.0.len();
        self.0.push(Some(position));
        slot
    }

    /// Empties `slot`; the registry keeps its length.
    pub fn free(&mut self, slot: usize)
        requires
            slot < old(self).0@.len(),
        ensures
            final(self).0@ == old(self).0@.update(slot as int, None),
    {
        self.0.set(slot, None);
    }

    /// The position held in `slot`, or None for an empty slot.
    pub fn read(&self, slot: usize) -> (r: Option<Point>)
        requires
            slot < self.0@.len(),
        ensures
            r == self.0@[slot as int],
    {
        self.0[slot]
    }

    /// Stores `position` in `slot` unless the slot is empty.
    pub fn write(&mut self, slot: usize, position: Point)
        requires
            slot < old(self).0@.len(),
        ensures
            old(self).0@[slot as int] is None ==> final(self).0@ == old(self).0@,
            old(self).0@[slot as int] is Some ==> final(self).0@ == old(self).0@.update(
                slot as int,
                Some(position),
            ),
    {
        if self.0[slot].is_some() {
            self.0.set(slot, Some(position));
        }
    }
}

} // verus!
