use vstd::prelude::*;
use crate::ids::{PlayerId, PlayerIdGenerator};

verus! {

/// Time, in milliseconds, between two meals of one player's hippo.
pub const EAT_INTERVAL_MS: u64 = 750;

/// The current state of one player.
#[derive(Debug)]
pub struct Player {
    /// A unique identifier for the player.
    pub id: PlayerId,
    /// The player's display name.
    pub username: String,
    /// The player's current score.
    pub score: usize,
    /// The number of balls in the player's food pile.
    pub balls: usize,
    /// The time, in milliseconds on a monotonic clock, at which the
    /// player's hippo next eats a ball.
    pub next_eat_time: u64,
}

impl Player {
    /// A copy of this player's state.
    pub fn snapshot(&self) -> (r: Player)
        ensures
            r == *self,
    {
        Player {
            id: self.id,
            username: self.username.clone(),
            score: self.score,
            balls: self.balls,
            next_eat_time: self.next_eat_time,
        }
    }
}

/// What a feed action does to the fed player.
#[derive(Debug, Clone, Copy, PartialEq, Eq, Structural)]
pub enum FeedPolicy {
    /// Feeding adds a ball to the pile; the simulation turns balls into score.
    AddResource,
    /// Feeding adds a point to the score directly.
    AddScore,
}

/// What one simulation step did to one ready player.
#[derive(Debug, Clone, Copy, PartialEq, Eq, Structural)]
pub enum Outcome {
    /// The hippo ate a ball: the new score and the balls left.
    Ate { score: usize, balls: usize },
    /// The pile was empty: the player is out, with this final score.
    Eliminated { score: usize },
}

/// Whether the player's hippo is due to eat at time `now`.
pub open spec fn is_ready(p: Player, now: u64) -> bool {
    p.next_eat_time <= now
}

/// The player after one simulation step at `now`, or `None` when the player
/// is eliminated by it.
pub open spec fn after_tick(p: Player, now: u64) -> Option<Player> {
    if !is_ready(p, now) {
        Some(p)
    } else if p.balls > 0 {
        Some(
            Player {
                id: p.id,
                username: p.username,
                score: (p.score + 1) as usize,
                balls: (p.balls - 1) as usize,
                next_eat_time: (p.next_eat_time + EAT_INTERVAL_MS) as u64,
            },
        )
    } else {
        None
    }
}

/// The event that one simulation step at `now` reports for the player, if any.
pub open spec fn tick_outcome(p: Player, now: u64) -> Option<(PlayerId, Outcome)> {
    if !is_ready(p, now) {
        None
    } else if p.balls > 0 {
        Some((p.id, Outcome::Ate { score: (p.score + 1) as usize, balls: (p.balls - 1) as usize }))
    } else {
        Some((p.id, Outcome::Eliminated { score: p.score }))
    }
}

/// The players left after one simulation step at `now`, in their order.
pub open spec fn survivors(s: Seq<Player>, now: u64) -> Seq<Player>
    decreases s.len(),
{
    if s.len() == 0 {
        Seq::empty()
    } else {
        let rest = survivors(s.drop_last(), now);
        match after_tick(s.last(), now) {
            Some(q) => rest.push(q),
            None => rest,
        }
    }
}

/// The events of one simulation step at `now`, in the players' order.
pub open spec fn outcomes(s: Seq<Player>, now: u64) -> Seq<(PlayerId, Outcome)>
    decreases s.len(),
{
    if s.len() == 0 {
        Seq::empty()
    } else {
        let rest = outcomes(s.drop_last(), now);
        match tick_outcome(s.last(), now) {
            Some(e) => rest.push(e),
            None => rest,
        }
    }
}

/// The player after a feed action under `policy`.
pub open spec fn fed(p: Player, policy: FeedPolicy) -> Player {
    match policy {
        FeedPolicy::AddResource => Player { balls: (p.balls + 1) as usize, ..p },
        FeedPolicy::AddScore => Player { score: (p.score + 1) as usize, ..p },
    }
}

/// Whether some player in `s` has the id `id`.
pub open spec fn has_id(s: Seq<Player>, id: PlayerId) -> bool {
    exists|i: int| 0 <= i < s.len() && (#[trigger] s[i]).id == id
}

/// Ids strictly increase along `s`.
pub open spec fn ids_increasing(s: Seq<Player>) -> bool {
    forall|i: int, j: int| 0 <= i < j < s.len() ==> (#[trigger] s[i]).id.0 < (#[trigger] s[j]).id.0
}

/// Score and balls of every player in `s` add up to a value that fits a `usize`.
pub open spec fn counts_fit(s: Seq<Player>) -> bool {
    forall|i: int| 0 <= i < s.len() ==> (#[trigger] s[i]).score + s[i].balls <= usize::MAX
}

/// The map from player id to player state.
pub struct PlayerRegistry {
    ids: PlayerIdGenerator,
    players: Vec<Player>,
    policy: FeedPolicy,
}

impl PlayerRegistry {
    /// The registered players, in order of registration.
    pub closed spec fn players(&self) -> Seq<Player> {
        self.players@
    }

    /// Every id handed out so far, in order.
    pub closed spec fn issued(&self) -> Seq<PlayerId> {
        self.ids.issued()
    }

    /// The feed mechanic of this game.
    pub closed spec fn policy_spec(&self) -> FeedPolicy {
        self.policy
    }

    /// Whether another player can still get an id.
    pub closed spec fn has_id_room(&self) -> bool {
        self.ids@ < usize::MAX
    }

    pub closed spec fn wf(&self) -> bool {
        &&& ids_increasing(self.players@)
        &&& counts_fit(self.players@)
        &&& forall|i: int|
            0 <= i < self.players@.len() ==> (#[trigger] self.players@[i]).id.0 < self.ids@
        &&& self.issued().len() == self.ids@
        &&& forall|i: int| 0 <= i < self.issued().len() ==> (#[trigger] self.issued()[i]).0 == i
    }

    /// An empty registry whose feed actions follow `policy`.
    pub fn new(policy: FeedPolicy) -> (r: PlayerRegistry)
        ensures
            r.wf(),
            r.players() == Seq::<Player>::empty(),
            r.issued() == Seq::<PlayerId>::empty(),
            r.policy_spec() == policy,
            r.has_id_room(),
    {
        let r = PlayerRegistry { ids: PlayerIdGenerator::new(), players: Vec::new(), policy };
        r
    }

    /// The feed mechanic of this game.
    pub fn policy(&self) -> (r: FeedPolicy)
        ensures
            r == self.policy_spec(),
    {
        self.policy
    }

    /// Whether another player can still get an id.
    pub fn can_register(&self) -> (r: bool)
        ensures
            r == self.has_id_room(),
    {
        self.ids.can_issue()
    }

    /// What well-formedness says of the players themselves.
    pub proof fn lemma_wf(&self)
        requires
            self.wf(),
        ensures
            ids_increasing(self.players()),
            counts_fit(self.players()),
            forall|i: int, j: int|
                0 <= i < self.issued().len() && 0 <= j < self.issued().len() && i != j
                    ==> #[trigger] self.issued()[i] != #[trigger] self.issued()[j],
    {
        assert forall|i: int, j: int|
            0 <= i < self.issued().len() && 0 <= j < self.issued().len() && i != j
                implies #[trigger] self.issued()[i] != #[trigger] self.issued()[j] by {
            assert(self.issued()[i].0 == i && self.issued()[j].0 == j);
        }
    }

    /// Whether a player with id `id` is registered.
    pub fn contains(&self, id: PlayerId) -> (r: bool)
        requires
            self.wf(),
        ensures
            r == has_id(self.players(), id),
    {
        self.index_of(id).is_some()
    }

    /// The player at position `i`, in order of registration.
    pub fn at(&self, i: usize) -> (r: &Player)
        requires
            i < self.players().len(),
        ensures
            *r == self.players()[i as int],
    {
        &self.players[i]
    }

    /// The number of registered players.
    pub fn len(&self) -> (r: usize)
        ensures
            r == self.players().len(),
    {
        self.players.len()
    }

    /// Registers a player named `name` with score 0 and `balls` balls, whose
    /// hippo first eats one interval after `now`.
    pub fn register(&mut self, name: String, balls: usize, now: u64) -> (r: PlayerId)
        requires
            old(self).wf(),
            old(self).has_id_room(),
            now <= u64::MAX - EAT_INTERVAL_MS,
        ensures
            final(self).wf(),
            !has_id(old(self).players(), r),
            !old(self).issued().contains(r),
            final(self).issued() == old(self).issued().push(r),
            final(self).has_id_room() == (final(self).issued().len() < usize::MAX),
            final(self).players() == old(self).players().push(
                Player {
                    id: r,
                    username: name,
                    score: 0,
                    balls,
                    next_eat_time: (now + EAT_INTERVAL_MS) as u64,
                },
            ),
            final(self).policy_spec() == old(self).policy_spec(),
    {
        let id = self.ids.next_id();
        let p = Player { id, username: name, score: 0, balls, next_eat_time: now + EAT_INTERVAL_MS };
        self.players.push(p);
        assert(!old(self).issued().contains(id)) by {
            if old(self).issued().contains(id) {
                let k = choose|k: int| 0 <= k < old(self).issued().len() && old(self).issued()[k] == id;
                assert(old(self).issued()[k].0 < id.0);
            }
        }
        assert forall|i: int| 0 <= i < self.issued().len() implies (#[trigger] self.issued()[i]).0 == i by {
            if i < old(self).issued().len() {
                assert(self.issued()[i] == old(self).issued()[i]);
            }
        }
        id
    }

    /// The position of the player with id `id`, if registered.
    fn index_of(&self, id: PlayerId) -> (r: Option<usize>)
        requires
            self.wf(),
        ensures
            r is None ==> !has_id(self.players(), id),
            r matches Some(i) ==> i < self.players().len() && self.players()[i as int].id == id,
    {
        let mut i: usize = 0;
        while i < self.players.len()
            invariant
                i <= self.players@.len(),
                forall|k: int| 0 <= k < i ==> (#[trigger] self.players@[k]).id != id,
            decreases self.players@.len() - i,
        {
            if self.players[i].id == id {
                return Some(i);
            }
            i = i + 1;
        }
        None
    }

    /// Whether feeding the player with id `id` keeps its counts within a
    /// `usize`; true of an unregistered id.
    pub open spec fn feed_fits(&self, id: PlayerId) -> bool {
        forall|i: int|
            0 <= i < self.players().len() && (#[trigger] self.players()[i]).id == id
                ==> self.players()[i].score + self.players()[i].balls < usize::MAX
    }

    /// Whether feeding the player with id `id` keeps its counts within a `usize`.
    pub fn can_feed(&self, id: PlayerId) -> (r: bool)
        requires
            self.wf(),
        ensures
            r == self.feed_fits(id),
    {
        match self.index_of(id) {
            None => true,
            Some(i) => {
                let p = &self.players[i];
                proof {
                    lemma_id_unique(self.players@, i as int, id);
                }
                p.balls < usize::MAX - p.score
            },
        }
    }

    /// Feeds the player with id `id` under this game's policy, and returns
    /// the player's score afterwards; an unregistered id changes nothing.
    pub fn feed(&mut self, id: PlayerId) -> (r: Result<usize, PlayerId>)
        requires
            old(self).wf(),
            old(self).feed_fits(id),
        ensures
            final(self).wf(),
            final(self).issued() == old(self).issued(),
            final(self).has_id_room() == old(self).has_id_room(),
            final(self).policy_spec() == old(self).policy_spec(),
            !has_id(old(self).players(), id) ==> r == Err::<usize, PlayerId>(id) && *final(self)
                == *old(self),
            forall|i: int|
                0 <= i < old(self).players().len() && (#[trigger] old(self).players()[i]).id == id
                    ==> {
                    &&& final(self).players() == old(self).players().update(
                        i,
                        fed(old(self).players()[i], old(self).policy_spec()),
                    )
                    &&& r == Ok::<usize, PlayerId>(
                        fed(old(self).players()[i], old(self).policy_spec()).score,
                    )
                },
    {
        match self.index_of(id) {
            None => Err(id),
            Some(i) => {
                proof {
                    lemma_id_unique(self.players@, i as int, id);
                }
                let old_p = self.players[i].snapshot();
                let new_p = match self.policy {
                    FeedPolicy::AddResource => Player { balls: old_p.balls + 1, ..old_p },
                    FeedPolicy::AddScore => Player { score: old_p.score + 1, ..old_p },
                };
                let score = new_p.score;
                self.players.set(i, new_p);
                assert forall|k: int| 0 <= k < self.players@.len() implies (#[trigger] self.players@[k]).id.0
                    < self.ids@ by {
                    assert(self.players@[k].id == old(self).players@[k].id);
                }
                assert(ids_increasing(self.players@)) by {
                    assert forall|a: int, b: int| 0 <= a < b < self.players@.len() implies (
                    #[trigger] self.players@[a]).id.0 < (#[trigger] self.players@[b]).id.0 by {
                        assert(self.players@[a].id == old(self).players@[a].id);
                        assert(self.players@[b].id == old(self).players@[b].id);
                    }
                }
                Ok(score)
            },
        }
    }

    /// A copy of the player with id `id`, if registered.
    pub fn get(&self, id: PlayerId) -> (r: Option<Player>)
        requires
            self.wf(),
        ensures
            r is None <==> !has_id(self.players(), id),
            forall|i: int|
                0 <= i < self.players().len() && (#[trigger] self.players()[i]).id == id
                    ==> r == Some(self.players()[i]),
    {
        match self.index_of(id) {
            None => None,
            Some(i) => {
                proof {
                    lemma_id_unique(self.players@, i as int, id);
                }
                Some(self.players[i].snapshot())
            },
        }
    }

    /// Copies of all registered players, in order of registration.
    pub fn list(&self) -> (r: Vec<Player>)
        ensures
            r@ == self.players(),
    {
        let mut r: Vec<Player> = Vec::new();
        let mut i: usize = 0;
        while i < self.players.len()
            invariant
                i <= self.players@.len(),
                r@ == self.players@.subrange(0, i as int),
            decreases self.players@.len() - i,
        {
            r.push(self.players[i].snapshot());
            i = i + 1;
            assert(r@ =~= self.players@.subrange(0, i as int));
        }
        assert(r@ =~= self.players@);
        r
    }

    /// One simulation step at `now`: every ready player eats a ball, or is
    /// removed when its pile is empty. Returns what happened to each ready
    /// player, in order of registration.
    pub fn tick_consume(&mut self, now: u64) -> (r: Vec<(PlayerId, Outcome)>)
        requires
            old(self).wf(),
            now <= u64::MAX - EAT_INTERVAL_MS,
        ensures
            final(self).wf(),
            final(self).issued() == old(self).issued(),
            final(self).has_id_room() == old(self).has_id_room(),
            final(self).policy_spec() == old(self).policy_spec(),
            final(self).players() == survivors(old(self).players(), now),
            r@ == outcomes(old(self).players(), now),
    {
        let mut kept: Vec<Player> = Vec::new();
        let mut events: Vec<(PlayerId, Outcome)> = Vec::new();
        let mut i: usize = 0;
        while i < self.players.len()
            invariant
                i <= self.players@.len(),
                self.players@ == old(self).players@,
                kept@ == survivors(self.players@.subrange(0, i as int), now),
                events@ == outcomes(self.players@.subrange(0, i as int), now),
                counts_fit(self.players@),
                now <= u64::MAX - EAT_INTERVAL_MS,
            decreases self.players@.len() - i,
        {
            let ghost pre = self.players@.subrange(0, i as int + 1);
            assert(pre.drop_last() =~= self.players@.subrange(0, i as int));
            assert(pre.last() == self.players@[i as int]);
            let p = &self.players[i];
            assert(p.score + p.balls <= usize::MAX);
            if now < p.next_eat_time {
                kept.push(p.snapshot());
            } else if p.balls > 0 {
                let q = Player {
                    id: p.id,
                    username: p.username.clone(),
                    score: p.score + 1,
                    balls: p.balls - 1,
                    next_eat_time: p.next_eat_time + EAT_INTERVAL_MS,
                };
                events.push((p.id, Outcome::Ate { score: q.score, balls: q.balls }));
                kept.push(q);
            } else {
                events.push((p.id, Outcome::Eliminated { score: p.score }));
            }
            i = i + 1;
        }
        assert(self.players@.subrange(0, self.players@.len() as int) =~= self.players@);
        proof {
            lemma_survivors_from(self.players@, now);
            lemma_survivors_increasing(self.players@, now);
        }
        self.players = kept;
        events
    }
}

/// Each survivor of a step is what the step made of some player of `s`.
pub proof fn lemma_survivors_from(s: Seq<Player>, now: u64)
    ensures
        forall|k: int|
            0 <= k < survivors(s, now).len() ==> exists|j: int|
                0 <= j < s.len() && after_tick(s[j], now) == Some(#[trigger] survivors(s, now)[k]),
        counts_fit(s) ==> counts_fit(survivors(s, now)),
    decreases s.len(),
{
    if s.len() > 0 {
        let d = s.drop_last();
        lemma_survivors_from(d, now);
        let r = survivors(s, now);
        assert forall|k: int| 0 <= k < r.len() implies exists|j: int|
            0 <= j < s.len() && after_tick(s[j], now) == Some(#[trigger] r[k]) by {
            if k < survivors(d, now).len() {
                let j = choose|j: int| 0 <= j < d.len() && after_tick(d[j], now) == Some(survivors(d, now)[k]);
                assert(s[j] == d[j]);
            } else {
                assert(s[s.len() - 1] == s.last());
            }
        }
        if counts_fit(s) {
            assert forall|k: int| 0 <= k < r.len() implies (#[trigger] r[k]).score + r[k].balls <= usize::MAX by {
                let j = choose|j: int| 0 <= j < s.len() && after_tick(s[j], now) == Some(r[k]);
                assert(s[j].score + s[j].balls <= usize::MAX);
            }
        }
    }
}

/// A step keeps the order of ids and hands out no new id.
pub proof fn lemma_survivors_increasing(s: Seq<Player>, now: u64)
    requires
        ids_increasing(s),
    ensures
        ids_increasing(survivors(s, now)),
        forall|k: int|
            0 <= k < survivors(s, now).len() ==> has_id(s, #[trigger] survivors(s, now)[k].id),
    decreases s.len(),
{
    lemma_survivors_from(s, now);
    let r = survivors(s, now);
    assert forall|k: int| 0 <= k < r.len() implies has_id(s, #[trigger] r[k].id) by {
        let j = choose|j: int| 0 <= j < s.len() && after_tick(s[j], now) == Some(r[k]);
        assert(s[j].id == r[k].id);
    }
    if s.len() > 0 {
        let d = s.drop_last();
        assert(ids_increasing(d)) by {
            assert forall|a: int, b: int| 0 <= a < b < d.len() implies (#[trigger] d[a]).id.0 < (
            #[trigger] d[b]).id.0 by {
                assert(d[a] == s[a] && d[b] == s[b]);
            }
        }
        lemma_survivors_increasing(d, now);
        let rd = survivors(d, now);
        assert forall|a: int, b: int| 0 <= a < b < r.len() implies (#[trigger] r[a]).id.0 < (
        #[trigger] r[b]).id.0 by {
            if b >= rd.len() {
                assert(has_id(d, r[a].id));
                let j = choose|j: int| 0 <= j < d.len() && d[j].id == r[a].id;
                assert(s[j] == d[j]);
                assert(s[j].id.0 < s[s.len() - 1].id.0);
            }
        }
    }
}

/// A player that a step finds ready with an empty pile is absent afterwards.
pub proof fn lemma_starved_player_removed(s: Seq<Player>, now: u64, j: int)
    requires
        ids_increasing(s),
        0 <= j < s.len(),
        is_ready(s[j], now),
        s[j].balls == 0,
    ensures
        !has_id(survivors(s, now), s[j].id),
{
    lemma_survivors_from(s, now);
    let r = survivors(s, now);
    if has_id(r, s[j].id) {
        let k = choose|k: int| 0 <= k < r.len() && (#[trigger] r[k]).id == s[j].id;
        let j2 = choose|j2: int| 0 <= j2 < s.len() && after_tick(s[j2], now) == Some(r[k]);
        lemma_id_unique(s, j, s[j].id);
        assert(s[j2].id == s[j].id);
    }
}

/// A step never lowers a player's score, never renames a player, and every
/// player it keeps either ate one ball for one point or was left as it was.
pub proof fn lemma_tick_monotone(s: Seq<Player>, now: u64)
    requires
        ids_increasing(s),
        counts_fit(s),
    ensures
        forall|k: int, j: int|
            0 <= k < survivors(s, now).len() && 0 <= j < s.len() && (#[trigger] survivors(
                s,
                now,
            )[k]).id == (#[trigger] s[j]).id ==> {
                &&& survivors(s, now)[k].score >= s[j].score
                &&& survivors(s, now)[k].username == s[j].username
                &&& survivors(s, now)[k].score + survivors(s, now)[k].balls == s[j].score + s[j].balls
            },
{
    lemma_survivors_from(s, now);
    let r = survivors(s, now);
    assert forall|k: int, j: int|
        0 <= k < r.len() && 0 <= j < s.len() && (#[trigger] r[k]).id == (#[trigger] s[j]).id implies {
        &&& r[k].score >= s[j].score
        &&& r[k].username == s[j].username
        &&& r[k].score + r[k].balls == s[j].score + s[j].balls
    } by {
        let j2 = choose|j2: int| 0 <= j2 < s.len() && after_tick(s[j2], now) == Some(r[k]);
        lemma_id_unique(s, j, s[j].id);
        assert(s[j2].id == r[k].id);
        assert(s[j2].score + s[j2].balls <= usize::MAX);
    }
}

/// Feeding never lowers a player's score or pile, and changes nothing else
/// but the one count that the policy names.
pub proof fn lemma_feed_monotone(p: Player, policy: FeedPolicy)
    requires
        p.score + p.balls < usize::MAX,
    ensures
        fed(p, policy).score >= p.score,
        fed(p, policy).balls >= p.balls,
        fed(p, policy).id == p.id,
        fed(p, policy).username == p.username,
        fed(p, policy).score + fed(p, policy).balls == p.score + p.balls + 1,
{
}

/// In a sequence with increasing ids, the player at `i` is the only one with its id.
pub proof fn lemma_id_unique(s: Seq<Player>, i: int, id: PlayerId)
    requires
        ids_increasing(s),
        0 <= i < s.len(),
        s[i].id == id,
    ensures
        forall|j: int| 0 <= j < s.len() && (#[trigger] s[j]).id == id ==> j == i,
{
    assert forall|j: int| 0 <= j < s.len() && (#[trigger] s[j]).id == id implies j == i by {
        if j < i {
            assert(s[j].id.0 < s[i].id.0);
        } else if i < j {
            assert(s[i].id.0 < s[j].id.0);
        }
    }
}

} // verus!
