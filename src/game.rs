use vstd::prelude::*;
use crate::crown::{holder_after_score, CrownTracker};
use crate::events::GameEvent;
use crate::ids::PlayerId;
use crate::registry::{
    counts_fit, fed, has_id, ids_increasing, lemma_id_unique, outcomes, survivors, FeedPolicy,
    Outcome, Player, PlayerRegistry, EAT_INTERVAL_MS,
};

verus! {

/// The score of the player with id `id` in `s`.
pub open spec fn score_of(s: Seq<Player>, id: PlayerId) -> usize {
    s[choose|i: int| 0 <= i < s.len() && s[i].id == id].score
}

/// The crown is empty exactly when nobody plays, and otherwise held by a
/// registered player whose score is at least every other player's.
pub open spec fn crown_ok(s: Seq<Player>, holder: Option<PlayerId>) -> bool {
    match holder {
        None => s.len() == 0,
        Some(h) => has_id(s, h) && forall|j: int| 0 <= j < s.len() ==> #[trigger] s[j].score <= score_of(s, h),
    }
}

/// The event that announces one outcome of a simulation step.
pub open spec fn outcome_event(e: (PlayerId, Outcome)) -> GameEvent {
    match e.1 {
        Outcome::Ate { score, balls } => GameEvent::ScoreChanged { id: e.0, score, balls },
        Outcome::Eliminated { .. } => GameEvent::PlayerEliminated { id: e.0 },
    }
}

/// The holder with whom the crown step of a tick starts: the old holder if
/// still registered, else nobody.
pub open spec fn surviving_holder(holder: Option<PlayerId>, s: Seq<Player>) -> Option<PlayerId> {
    match holder {
        Some(h) => if has_id(s, h) {
            holder
        } else {
            None
        },
        None => None,
    }
}

/// The score that a new score must pass to take the crown from `holder`.
pub open spec fn holder_score_in(s: Seq<Player>, holder: Option<PlayerId>) -> usize {
    match holder {
        Some(c) => score_of(s, c),
        None => 0,
    }
}

/// The holder after the first `n` players of `s` are held, in order,
/// against a crown that starts with `start`.
pub open spec fn scan_holder(s: Seq<Player>, n: nat, start: Option<PlayerId>) -> Option<PlayerId>
    decreases n,
{
    if n == 0 {
        start
    } else {
        let h = scan_holder(s, (n - 1) as nat, start);
        holder_after_score(h, s[n - 1].id, s[n - 1].score, holder_score_in(s, h))
    }
}

/// The crown changes announced while the first `n` players of `s` are held
/// against a crown that starts with `start`.
pub open spec fn scan_events(s: Seq<Player>, n: nat, start: Option<PlayerId>) -> Seq<GameEvent>
    decreases n,
{
    if n == 0 {
        Seq::empty()
    } else {
        let prev = scan_events(s, (n - 1) as nat, start);
        if scan_holder(s, n, start) != scan_holder(s, (n - 1) as nat, start) {
            prev.push(GameEvent::CrownChanged { id: s[n - 1].id })
        } else {
            prev
        }
    }
}

/// In a sequence with increasing ids, `score_of` reads the player's own record.
pub proof fn lemma_score_of(s: Seq<Player>, i: int)
    requires
        ids_increasing(s),
        0 <= i < s.len(),
    ensures
        score_of(s, s[i].id) == s[i].score,
{
    let id = s[i].id;
    let k = choose|k: int| 0 <= k < s.len() && s[k].id == id;
    lemma_id_unique(s, i, id);
}

/// At every observation point the crown is empty exactly when nobody is
/// registered, and otherwise held by a registered player whose score is at
/// least every other registered player's.
pub proof fn lemma_crown_holder_leads(g: &Game)
    requires
        g.wf(),
    ensures
        g.holder_spec() is None <==> g.players().len() == 0,
        forall|h: PlayerId|
            g.holder_spec() == Some(h) ==> has_id(g.players(), h) && forall|j: int|
                0 <= j < g.players().len() ==> #[trigger] g.players()[j].score <= score_of(g.players(), h),
{
    g.lemma_wf();
    if g.holder_spec() is None {
    } else {
        assert(g.players().len() > 0) by {
            let h = g.holder_spec().unwrap();
            let i = choose|i: int| 0 <= i < g.players().len() && (#[trigger] g.players()[i]).id == h;
        }
    }
}

/// However registrations are interleaved with other calls, no two players
/// of one game are ever given the same id.
pub proof fn lemma_registered_ids_distinct(g: &Game)
    requires
        g.wf(),
    ensures
        forall|i: int, j: int|
            0 <= i < g.issued().len() && 0 <= j < g.issued().len() && i != j
                ==> #[trigger] g.issued()[i] != #[trigger] g.issued()[j],
{
    g.registry.lemma_wf();
}

/// The players, their crown, and the rules that change them.
pub struct Game {
    registry: PlayerRegistry,
    crown: CrownTracker,
}

impl Game {
    /// The registered players, in order of registration.
    pub closed spec fn players(&self) -> Seq<Player> {
        self.registry.players()
    }

    /// The crown holder.
    pub closed spec fn holder_spec(&self) -> Option<PlayerId> {
        self.crown@
    }

    /// Every id handed out so far, in order.
    pub closed spec fn issued(&self) -> Seq<PlayerId> {
        self.registry.issued()
    }

    /// The feed mechanic of this game.
    pub closed spec fn policy_spec(&self) -> FeedPolicy {
        self.registry.policy_spec()
    }

    /// Whether another player can still get an id.
    pub closed spec fn has_id_room(&self) -> bool {
        self.registry.has_id_room()
    }

    /// Whether feeding the player with id `id` keeps its counts within a
    /// `usize`; true of an unregistered id.
    pub open spec fn feed_fits(&self, id: PlayerId) -> bool {
        forall|i: int|
            0 <= i < self.players().len() && (#[trigger] self.players()[i]).id == id
                ==> self.players()[i].score + self.players()[i].balls < usize::MAX
    }

    pub closed spec fn wf(&self) -> bool {
        &&& self.registry.wf()
        &&& crown_ok(self.registry.players(), self.crown@)
    }

    /// What well-formedness says of the players and the crown.
    pub proof fn lemma_wf(&self)
        requires
            self.wf(),
        ensures
            ids_increasing(self.players()),
            counts_fit(self.players()),
            crown_ok(self.players(), self.holder_spec()),
    {
        self.registry.lemma_wf();
    }

    /// A game with no players whose feed actions follow `policy`.
    pub fn new(policy: FeedPolicy) -> (r: Game)
        ensures
            r.wf(),
            r.players() == Seq::<Player>::empty(),
            r.holder_spec() is None,
            r.issued() == Seq::<PlayerId>::empty(),
            r.policy_spec() == policy,
            r.has_id_room(),
    {
        Game { registry: PlayerRegistry::new(policy), crown: CrownTracker::new() }
    }

    /// The crown holder.
    pub fn holder(&self) -> (r: Option<PlayerId>)
        ensures
            r == self.holder_spec(),
    {
        self.crown.holder()
    }

    /// The feed mechanic of this game.
    pub fn policy(&self) -> (r: FeedPolicy)
        ensures
            r == self.policy_spec(),
    {
        self.registry.policy()
    }

    /// Whether another player can still get an id.
    pub fn can_register(&self) -> (r: bool)
        ensures
            r == self.has_id_room(),
    {
        self.registry.can_register()
    }

    /// Whether feeding the player with id `id` keeps its counts within a `usize`.
    pub fn can_feed(&self, id: PlayerId) -> (r: bool)
        requires
            self.wf(),
        ensures
            r == self.feed_fits(id),
    {
        let r = self.registry.can_feed(id);
        proof {
            self.lemma_feed_fits(id);
        }
        r
    }

    proof fn lemma_feed_fits(&self, id: PlayerId)
        ensures
            self.feed_fits(id) == self.registry.feed_fits(id),
    {
        let s = self.registry.players();
        assert(self.players() == s);
        if self.registry.feed_fits(id) {
            assert forall|i: int| 0 <= i < s.len() && (#[trigger] s[i]).id == id implies s[i].score + s[i].balls
                < usize::MAX by {
                assert(self.registry.players()[i] == s[i]);
            }
        }
    }

    /// A copy of the player with id `id`, if registered.
    pub fn get(&self, id: PlayerId) -> (r: Option<Player>)
        requires
            self.wf(),
        ensures
            r is None <==> !has_id(self.players(), id),
            forall|i: int|
                0 <= i < self.players().len() && (#[trigger] self.players()[i]).id == id
                    ==> r == Some(self.players()[i]),
    {
        self.registry.get(id)
    }

    /// Copies of all registered players, in order of registration.
    pub fn list(&self) -> (r: Vec<Player>)
        ensures
            r@ == self.players(),
    {
        self.registry.list()
    }

    /// Registers a player named `name` with score 0 and `balls` balls; the
    /// first player takes the empty crown. Returns the new id and the events
    /// to announce.
    pub fn register(&mut self, name: String, balls: usize, now: u64) -> (r: (PlayerId, Vec<GameEvent>))
        requires
            old(self).wf(),
            old(self).has_id_room(),
            now <= u64::MAX - EAT_INTERVAL_MS,
        ensures
            final(self).wf(),
            !has_id(old(self).players(), r.0),
            !old(self).issued().contains(r.0),
            final(self).issued() == old(self).issued().push(r.0),
            final(self).has_id_room() == (final(self).issued().len() < usize::MAX),
            final(self).policy_spec() == old(self).policy_spec(),
            final(self).players() == old(self).players().push(
                Player {
                    id: r.0,
                    username: name,
                    score: 0,
                    balls,
                    next_eat_time: (now + EAT_INTERVAL_MS) as u64,
                },
            ),
            final(self).holder_spec() == if old(self).holder_spec() is None {
                Some(r.0)
            } else {
                old(self).holder_spec()
            },
            r.1@ == if old(self).holder_spec() is None {
                seq![
                    GameEvent::PlayerRegistered { id: r.0, name },
                    GameEvent::CrownChanged { id: r.0 },
                ]
            } else {
                seq![GameEvent::PlayerRegistered { id: r.0, name }]
            },
    {
        let ghost s0 = self.players();
        let event_name = name.clone();
        let id = self.registry.register(name, balls, now);
        let mut events: Vec<GameEvent> = Vec::new();
        events.push(GameEvent::PlayerRegistered { id, name: event_name });
        if self.crown.on_register(id) {
            events.push(GameEvent::CrownChanged { id });
        }
        proof {
            self.registry.lemma_wf();
            old(self).registry.lemma_wf();
            let s = self.players();
            assert(s[s.len() - 1].id == id);
            match self.crown@ {
                Some(h) => {
                    if old(self).crown@ is None {
                        assert(s0.len() == 0);
                        lemma_score_of(s, 0);
                    } else {
                        let hi = choose|hi: int| 0 <= hi < s0.len() && s0[hi].id == h;
                        assert(s[hi] == s0[hi]);
                        lemma_score_of(s, hi);
                        lemma_score_of(s0, hi);
                        assert forall|j: int| 0 <= j < s.len() implies #[trigger] s[j].score <= score_of(s, h) by {
                            if j < s0.len() {
                                assert(s[j] == s0[j]);
                            }
                        }
                    }
                },
                None => {},
            }
        }
        (id, events)
    }

    /// Feeds the player with id `id` under this game's policy; a score that
    /// strictly passes the holder's takes the crown. Returns the player's
    /// score afterwards, or the id when it is not registered, and the events
    /// to announce.
    pub fn feed(&mut self, id: PlayerId) -> (r: (Result<usize, PlayerId>, Vec<GameEvent>))
        requires
            old(self).wf(),
            old(self).feed_fits(id),
        ensures
            final(self).wf(),
            final(self).issued() == old(self).issued(),
            final(self).has_id_room() == old(self).has_id_room(),
            final(self).policy_spec() == old(self).policy_spec(),
            !has_id(old(self).players(), id) ==> {
                &&& r.0 == Err::<usize, PlayerId>(id)
                &&& final(self).players() == old(self).players()
                &&& final(self).holder_spec() == old(self).holder_spec()
                &&& r.1@.len() == 0
            },
            forall|i: int|
                0 <= i < old(self).players().len() && (#[trigger] old(self).players()[i]).id == id
                    ==> {
                    let p = fed(old(self).players()[i], old(self).policy_spec());
                    &&& final(self).players() == old(self).players().update(i, p)
                    &&& r.0 == Ok::<usize, PlayerId>(p.score)
                    &&& old(self).holder_spec() is Some
                    &&& final(self).holder_spec() == holder_after_score(
                        old(self).holder_spec(),
                        id,
                        p.score,
                        score_of(final(self).players(), old(self).holder_spec().unwrap()),
                    )
                    &&& r.1@ == if final(self).holder_spec() != old(self).holder_spec() {
                        seq![
                            GameEvent::ScoreChanged { id, score: p.score, balls: p.balls },
                            GameEvent::CrownChanged { id },
                        ]
                    } else {
                        seq![GameEvent::ScoreChanged { id, score: p.score, balls: p.balls }]
                    }
                },
            old(self).holder_spec() is Some && final(self).holder_spec() != old(self).holder_spec()
                ==> score_of(final(self).players(), final(self).holder_spec().unwrap()) > score_of(
                final(self).players(),
                old(self).holder_spec().unwrap(),
            ),
    {
        let ghost s0 = self.players();
        proof {
            old(self).registry.lemma_wf();
            old(self).lemma_feed_fits(id);
        }
        let res = self.registry.feed(id);
        let mut events: Vec<GameEvent> = Vec::new();
        let score = match res {
            Err(e) => {
                return (Err(e), events);
            },
            Ok(score) => score,
        };
        let ghost s = self.players();
        let ghost i = choose|i: int| 0 <= i < s0.len() && s0[i].id == id;
        proof {
            self.registry.lemma_wf();
            lemma_id_unique(s0, i, id);
            lemma_score_of(s, i);
        }
        let balls = match self.registry.get(id) {
            Some(p) => p.balls,
            None => 0,
        };
        events.push(GameEvent::ScoreChanged { id, score, balls });
        let h = match self.crown.holder() {
            Some(h) => h,
            None => {
                return (Ok(score), events);
            },
        };
        let ghost hi = choose|hi: int| 0 <= hi < s0.len() && s0[hi].id == h;
        proof {
            lemma_score_of(s0, hi);
            lemma_score_of(s, hi);
        }
        let holder_score = match self.registry.get(h) {
            Some(p) => p.score,
            None => 0,
        };
        if self.crown.on_score_change(id, score, holder_score) {
            events.push(GameEvent::CrownChanged { id });
        }
        proof {
            let c = self.crown@.unwrap();
            if c == id {
                assert forall|j: int| 0 <= j < s.len() implies #[trigger] s[j].score <= score_of(s, c) by {
                    if j != i {
                        assert(s[j] == s0[j]);
                        assert(s0[j].score <= score_of(s0, h));
                    }
                }
            } else {
                assert(c == h);
                assert forall|j: int| 0 <= j < s.len() implies #[trigger] s[j].score <= score_of(s, c) by {
                    if j != i {
                        assert(s[j] == s0[j]);
                        assert(s0[j].score <= score_of(s0, h));
                    }
                }
            }
        }
        (Ok(score), events)
    }

    /// One simulation step at `now`: ready players eat or are removed, then
    /// every remaining player, in order, is held against the crown, which
    /// goes to a strictly higher score; a crown whose holder was removed
    /// starts empty. Returns the events to announce: one per outcome, then
    /// one per change of the crown.
    pub fn tick(&mut self, now: u64) -> (r: Vec<GameEvent>)
        requires
            old(self).wf(),
            now <= u64::MAX - EAT_INTERVAL_MS,
        ensures
            final(self).wf(),
            final(self).issued() == old(self).issued(),
            final(self).has_id_room() == old(self).has_id_room(),
            final(self).policy_spec() == old(self).policy_spec(),
            final(self).players() == survivors(old(self).players(), now),
            r@.len() >= outcomes(old(self).players(), now).len(),
            forall|k: int|
                0 <= k < outcomes(old(self).players(), now).len() ==> r@[k] == outcome_event(
                    #[trigger] outcomes(old(self).players(), now)[k],
                ),
            forall|k: int|
                outcomes(old(self).players(), now).len() <= k < r@.len() ==> #[trigger] r@[k] is CrownChanged,
            (r@.len() == outcomes(old(self).players(), now).len()) <==> final(self).holder_spec()
                == surviving_holder(old(self).holder_spec(), final(self).players()),
            r@.len() > outcomes(old(self).players(), now).len() ==> final(self).holder_spec() is Some
                && r@.last() == (GameEvent::CrownChanged { id: final(self).holder_spec().unwrap() }),
            final(self).holder_spec() == scan_holder(
                final(self).players(),
                final(self).players().len(),
                surviving_holder(old(self).holder_spec(), final(self).players()),
            ),
            r@.subrange(outcomes(old(self).players(), now).len() as int, r@.len() as int) == scan_events(
                final(self).players(),
                final(self).players().len(),
                surviving_holder(old(self).holder_spec(), final(self).players()),
            ),
            surviving_holder(old(self).holder_spec(), final(self).players()) is Some
                && final(self).holder_spec() != old(self).holder_spec() ==> score_of(
                final(self).players(),
                final(self).holder_spec().unwrap(),
            ) > score_of(final(self).players(), old(self).holder_spec().unwrap()),
    {
        let outs = self.registry.tick_consume(now);
        let ghost s = self.players();
        let ghost n_out = outs@.len();
        let ghost reg = self.registry;
        proof {
            self.registry.lemma_wf();
        }
        let mut events: Vec<GameEvent> = Vec::new();
        let mut i: usize = 0;
        while i < outs.len()
            invariant
                i <= outs@.len(),
                events@.len() == i,
                forall|k: int| 0 <= k < i ==> events@[k] == outcome_event(#[trigger] outs@[k]),
            decreases outs@.len() - i,
        {
            let (id, outcome) = outs[i];
            match outcome {
                Outcome::Ate { score, balls } => events.push(GameEvent::ScoreChanged { id, score, balls }),
                Outcome::Eliminated { .. } => events.push(GameEvent::PlayerEliminated { id }),
            }
            i = i + 1;
        }
        let mut holder_score: usize = 0;
        match self.crown.holder() {
            Some(h) => {
                if self.registry.contains(h) {
                    let ghost hi = choose|hi: int| 0 <= hi < s.len() && s[hi].id == h;
                    proof {
                        lemma_score_of(s, hi);
                    }
                    match self.registry.get(h) {
                        Some(p) => {
                            holder_score = p.score;
                        },
                        None => {},
                    }
                } else {
                    self.crown.clear();
                }
            },
            None => {},
        }
        let ghost start = self.crown@;
        assert(start == surviving_holder(old(self).crown@, s));
        let n = self.registry.len();
        let mut j: usize = 0;
        while j < n
            invariant
                self.registry == reg,
                reg.wf(),
                reg.players() == s,
                n_out == outs@.len(),
                ids_increasing(s),
                n == s.len(),
                j <= n,
                start == surviving_holder(old(self).crown@, s),
                self.crown@ is None ==> j == 0 && start is None,
                self.crown@ matches Some(c) ==> {
                    &&& has_id(s, c)
                    &&& holder_score == score_of(s, c)
                    &&& forall|k: int| 0 <= k < j ==> #[trigger] s[k].score <= holder_score
                },
                events@.len() >= n_out,
                forall|k: int| 0 <= k < n_out ==> events@[k] == outcome_event(#[trigger] outs@[k]),
                forall|k: int| n_out <= k < events@.len() ==> #[trigger] events@[k] is CrownChanged,
                (events@.len() == n_out) <==> self.crown@ == start,
                events@.len() > n_out ==> self.crown@ is Some && events@.last() == (GameEvent::CrownChanged {
                    id: self.crown@.unwrap(),
                }),
                start matches Some(h) ==> (self.crown@ != start ==> holder_score > score_of(s, h)),
                start matches Some(h) ==> has_id(s, h),
                self.crown@ == scan_holder(s, j as nat, start),
                self.crown@ is None ==> holder_score == 0,
                events@.subrange(n_out as int, events@.len() as int) == scan_events(s, j as nat, start),
            decreases n - j,
        {
            let p = self.registry.at(j);
            proof {
                lemma_score_of(s, j as int);
            }
            let ghost before = self.crown@;
            let ghost ev0 = events@;
            let pid = p.id;
            let pscore = p.score;
            if self.crown.on_score_change(pid, pscore, holder_score) {
                holder_score = pscore;
                events.push(GameEvent::CrownChanged { id: pid });
                proof {
                    if let Some(h) = start {
                        if self.crown@ == start {
                            lemma_id_unique(s, j as int, pid);
                        }
                    }
                }
            }
            proof {
                assert(events@.subrange(n_out as int, events@.len() as int) =~= if self.crown@ != before {
                    ev0.subrange(n_out as int, ev0.len() as int).push(GameEvent::CrownChanged { id: pid })
                } else {
                    ev0.subrange(n_out as int, ev0.len() as int)
                });
            }
            j = j + 1;
        }
        events
    }
}

} // verus!
