use vstd::prelude::*;
use crate::ids::PlayerId;

verus! {

/// The holder after a player's score became `new_score`, when the holder's
/// score is `holder_score`: a strictly higher score takes the crown, a tie
/// leaves it where it is, and an empty crown goes to the player.
pub open spec fn holder_after_score(
    holder: Option<PlayerId>,
    id: PlayerId,
    new_score: usize,
    holder_score: usize,
) -> Option<PlayerId> {
    match holder {
        None => Some(id),
        Some(h) => if new_score > holder_score && id != h {
            Some(id)
        } else {
            holder
        },
    }
}

/// Which single player, if any, holds the crown.
#[derive(Debug, Clone, Copy, PartialEq, Eq, Structural)]
pub struct CrownTracker {
    holder: Option<PlayerId>,
}

impl View for CrownTracker {
    type V = Option<PlayerId>;

    closed spec fn view(&self) -> Option<PlayerId> {
        self.holder
    }
}

impl CrownTracker {
    /// A crown that nobody holds yet.
    pub fn new() -> (r: CrownTracker)
        ensures
            r@ is None,
    {
        CrownTracker { holder: None }
    }

    /// The current holder.
    pub fn holder(&self) -> (r: Option<PlayerId>)
        ensures
            r == self@,
    {
        self.holder
    }

    /// A player registered: an empty crown goes to it. Returns whether the
    /// crown changed hands.
    pub fn on_register(&mut self, id: PlayerId) -> (r: bool)
        ensures
            r == (old(self)@ is None),
            final(self)@ == if old(self)@ is None {
                Some(id)
            } else {
                old(self)@
            },
    {
        if self.holder.is_none() {
            self.holder = Some(id);
            true
        } else {
            false
        }
    }

    /// The player `id` now has `new_score`, and the holder has `holder_score`.
    /// Returns whether the crown changed hands.
    pub fn on_score_change(&mut self, id: PlayerId, new_score: usize, holder_score: usize) -> (r: bool)
        ensures
            final(self)@ == holder_after_score(old(self)@, id, new_score, holder_score),
            r == (final(self)@ != old(self)@),
    {
        match self.holder {
            None => {
                self.holder = Some(id);
                true
            },
            Some(h) => {
                if new_score > holder_score && id != h {
                    self.holder = Some(id);
                    true
                } else {
                    false
                }
            },
        }
    }

    /// Takes the crown away, when its holder has left the game.
    pub fn clear(&mut self)
        ensures
            final(self)@ is None,
    {
        self.holder = None;
    }
}

} // verus!
