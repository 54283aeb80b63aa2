use vstd::prelude::*;

verus! {

/// Uniquely identifies a registered player.
#[derive(Debug, Clone, Copy, PartialEq, Eq, Hash, PartialOrd, Ord, Structural)]
pub struct PlayerId(pub usize);

impl PlayerId {
    /// The raw value inside the id.
    pub fn value(&self) -> (r: usize)
        ensures
            r == self.0,
    {
        self.0
    }
}

/// Hands out player ids from a counter that only moves forward.
#[derive(Debug)]
pub struct PlayerIdGenerator {
    next: usize,
}

impl View for PlayerIdGenerator {
    type V = nat;

    /// The value of the next id to be handed out.
    closed spec fn view(&self) -> nat {
        self.next as nat
    }
}

impl PlayerIdGenerator {
    /// Every id this generator has handed out so far, in order.
    pub open spec fn issued(&self) -> Seq<PlayerId> {
        Seq::new(self@, |i: int| PlayerId(i as usize))
    }

    /// Creates a generator that has handed out nothing yet.
    pub fn new() -> (r: PlayerIdGenerator)
        ensures
            r@ == 0,
            r.issued() == Seq::<PlayerId>::empty(),
    {
        let r = PlayerIdGenerator { next: 0 };
        assert(r.issued() =~= Seq::<PlayerId>::empty());
        r
    }

    /// Whether another id can still be handed out.
    pub fn can_issue(&self) -> (r: bool)
        ensures
            r == (self@ < usize::MAX),
    {
        self.next < usize::MAX
    }

    /// Hands out an id different from every id handed out before.
    pub fn next_id(&mut self) -> (r: PlayerId)
        requires
            old(self)@ < usize::MAX,
        ensures
            r.0 == old(self)@,
            final(self)@ == old(self)@ + 1,
            final(self).issued() == old(self).issued().push(r),
            forall|i: int| 0 <= i < old(self).issued().len() ==> old(self).issued()[i].0 < r.0,
    {
        let r = PlayerId(self.next);
        self.next = self.next + 1;
        assert(self.issued() =~= old(self).issued().push(r));
        r
    }
}

/// No two ids handed out by one generator are equal, whatever sequence of
/// calls produced them.
pub proof fn lemma_issued_ids_distinct(g: &PlayerIdGenerator)
    ensures
        forall|i: int, j: int|
            0 <= i < g.issued().len() && 0 <= j < g.issued().len() && i != j
                ==> #[trigger] g.issued()[i] != #[trigger] g.issued()[j],
{
}

} // verus!
