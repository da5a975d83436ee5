//! Bookkeeping for inserted seed content.
use vstd::prelude::*;

verus! {

/// Result of inserting seed content.
#[derive(Debug)]
pub struct InsertResult {
    pub rooms_created: usize,
    pub rooms_skipped: usize,
    pub polls_created: usize,
}


/// How the attempt to create one room ended.
#[derive(Debug, Clone, Copy, PartialEq, Eq, Structural)]
pub enum RoomAttempt {
    Created,
    /// A room with that name exists already: it is skipped.
    Duplicate,
}

impl InsertResult {
    /// Nothing inserted yet.
    pub fn empty() -> (r: Self)
        ensures
            r.rooms_created == 0 && r.rooms_skipped == 0 && r.polls_created == 0,
    {
        InsertResult { rooms_created: 0, rooms_skipped: 0, polls_created: 0 }
    }

    /// Count one room attempt, and say whether its polls are inserted
    /// (only for a room that was created).
    pub fn count_room(&mut self, attempt: RoomAttempt) -> (insert_polls: bool)
        requires
            attempt == RoomAttempt::Created ==> old(self).rooms_created < usize::MAX,
            attempt == RoomAttempt::Duplicate ==> old(self).rooms_skipped < usize::MAX,
        ensures
            insert_polls == (attempt == RoomAttempt::Created),
            final(self).rooms_created == old(self).rooms_created + if insert_polls { 1int } else { 0 },
            final(self).rooms_skipped == old(self).rooms_skipped + if insert_polls { 0int } else { 1 },
            final(self).polls_created == old(self).polls_created,
    {
        match attempt {
            RoomAttempt::Created => {
                self.rooms_created = self.rooms_created + 1;
                true
            },
            RoomAttempt::Duplicate => {
                self.rooms_skipped = self.rooms_skipped + 1;
                false
            },
        }
    }

    /// Count one poll created with all its dimensions.
    pub fn count_poll(&mut self)
        requires
            old(self).polls_created < usize::MAX,
        ensures
            final(self).polls_created == old(self).polls_created + 1,
            final(self).rooms_created == old(self).rooms_created,
            final(self).rooms_skipped == old(self).rooms_skipped,
    {
        self.polls_created = self.polls_created + 1;
    }
}

} // verus!
