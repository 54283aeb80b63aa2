use vstd::prelude::*;
use crate::ids::PlayerId;

verus! {

/// What happened to a player who tried to leave the round.
#[derive(Debug, Clone, Copy, PartialEq, Eq, Structural)]
pub enum NoseGoesResponse {
    /// The player got out; others remain.
    Survived,
    /// The player was the last one left, and loses.
    Died,
}

/// The state of the elimination round.
#[derive(Debug, PartialEq, Eq)]
pub enum NoseGoes {
    /// No round is running.
    Inactive,
    /// A round is running among the players who have not left yet.
    InProgress { remaining_players: Vec<PlayerId> },
}

/// The abstract round: `None` when inactive, else the players remaining.
pub type RoundView = Option<Seq<PlayerId>>;

/// The state and the answer after `id` tries to leave; `None` as answer is
/// a rejected attempt.
pub open spec fn leave_step(round: RoundView, id: PlayerId) -> (RoundView, Option<NoseGoesResponse>) {
    match round {
        None => (round, None),
        Some(rem) => if !rem.contains(id) {
            (round, None)
        } else if rem.len() > 1 {
            (Some(rem.remove(rem.index_of(id))), Some(NoseGoesResponse::Survived))
        } else {
            (Some(Seq::empty()), Some(NoseGoesResponse::Died))
        },
    }
}

/// The answers to a run of leave attempts, in order.
pub open spec fn leave_answers(round: RoundView, ids: Seq<PlayerId>) -> Seq<Option<NoseGoesResponse>>
    decreases ids.len(),
{
    if ids.len() == 0 {
        Seq::empty()
    } else {
        let (next, a) = leave_step(round, ids[0]);
        seq![a] + leave_answers(next, ids.subrange(1, ids.len() as int))
    }
}

/// `n - 1` survivals followed by one death.
pub open spec fn survivors_then_loser(n: nat) -> Seq<Option<NoseGoesResponse>> {
    Seq::new(
        n,
        |i: int|
            if i < n - 1 {
                Some(NoseGoesResponse::Survived)
            } else {
                Some(NoseGoesResponse::Died)
            },
    )
}

/// A round that is over, or not running, rejects every attempt to leave.
pub proof fn lemma_over_round_rejects(round: RoundView, ids: Seq<PlayerId>)
    requires
        round is None || round == Some(Seq::<PlayerId>::empty()),
    ensures
        leave_answers(round, ids) == Seq::new(ids.len(), |i: int| None::<NoseGoesResponse>),
    decreases ids.len(),
{
    if ids.len() > 0 {
        let rest = ids.subrange(1, ids.len() as int);
        lemma_over_round_rejects(round, rest);
        assert(leave_answers(round, ids) =~= Seq::new(ids.len(), |i: int| None::<NoseGoesResponse>));
    }
}

/// In a round among `n` distinct players where each of them tries to leave
/// once, in any order, the first `n - 1` attempts survive and the last one
/// dies; every attempt after that is rejected.
pub proof fn lemma_round_runs_to_loser(rem: Seq<PlayerId>, ids: Seq<PlayerId>, later: Seq<PlayerId>)
    requires
        rem.no_duplicates(),
        ids.no_duplicates(),
        rem.len() == ids.len(),
        ids.len() >= 1,
        forall|i: int| 0 <= i < ids.len() ==> rem.contains(#[trigger] ids[i]),
    ensures
        leave_answers(Some(rem), ids + later) == survivors_then_loser(ids.len()) + Seq::new(
            later.len(),
            |i: int| None::<NoseGoesResponse>,
        ),
    decreases ids.len(),
{
    let all = ids + later;
    let id = ids[0];
    assert(all[0] == id);
    let tail = all.subrange(1, all.len() as int);
    let none_tail = Seq::new(later.len(), |i: int| None::<NoseGoesResponse>);
    if ids.len() == 1 {
        assert(rem.contains(id));
        assert(tail =~= later);
        lemma_over_round_rejects(Some(Seq::<PlayerId>::empty()), later);
        assert(leave_answers(Some(rem), all) =~= survivors_then_loser(ids.len()) + none_tail);
    } else {
        assert(rem.contains(id));
        let k = rem.index_of(id);
        let rem2 = rem.remove(k);
        rem.remove_ensures(k);
        let ids2 = ids.subrange(1, ids.len() as int);
        assert(tail =~= ids2 + later);
        assert forall|a: int, b: int| 0 <= a < b < rem2.len() implies rem2[a] != rem2[b] by {
            let a2 = if a < k { a } else { a + 1 };
            let b2 = if b < k { b } else { b + 1 };
            assert(rem2[a] == rem[a2] && rem2[b] == rem[b2]);
        }
        assert forall|i: int| 0 <= i < ids2.len() implies rem2.contains(#[trigger] ids2[i]) by {
            let x = ids2[i];
            assert(x == ids[i + 1]);
            assert(x != id);
            assert(rem.contains(x));
            let j = choose|j: int| 0 <= j < rem.len() && rem[j] == x;
            assert(j != k);
            if j < k {
                assert(rem2[j] == x);
            } else {
                assert(rem2[j - 1] == x);
            }
        }
        lemma_round_runs_to_loser(rem2, ids2, later);
        assert(leave_answers(Some(rem), all) =~= survivors_then_loser(ids.len()) + none_tail);
    }
}

impl NoseGoes {
    pub open spec fn view(&self) -> RoundView {
        match self {
            NoseGoes::Inactive => None,
            NoseGoes::InProgress { remaining_players } => Some(remaining_players@),
        }
    }

    /// No player is listed twice.
    pub open spec fn wf(&self) -> bool {
        match self {
            NoseGoes::Inactive => true,
            NoseGoes::InProgress { remaining_players } => remaining_players@.no_duplicates(),
        }
    }

    /// A round that is not running.
    pub fn new() -> (r: NoseGoes)
        ensures
            r.view() is None,
            r.wf(),
    {
        NoseGoes::Inactive
    }

    /// Whether a round is running.
    pub fn is_active(&self) -> (r: bool)
        ensures
            r == (self.view() is Some),
    {
        match self {
            NoseGoes::Inactive => false,
            NoseGoes::InProgress { .. } => true,
        }
    }

    /// Starts a round among `players`, each counted once. Returns false, and
    /// changes nothing, when a round is already running.
    pub fn start(&mut self, players: &Vec<PlayerId>) -> (r: bool)
        ensures
            r == (old(self).view() is None),
            !r ==> *final(self) == *old(self),
            r ==> final(self).wf(),
            r ==> (final(self).view() matches Some(rem) && forall|x: PlayerId| #[trigger] rem.contains(x) <==> players@.contains(x)),
    {
        if self.is_active() {
            return false;
        }
        let mut rem: Vec<PlayerId> = Vec::new();
        let mut i: usize = 0;
        while i < players.len()
            invariant
                i <= players@.len(),
                rem@.no_duplicates(),
                rem@.to_set() == players@.subrange(0, i as int).to_set(),
            decreases players@.len() - i,
        {
            let id = players[i];
            let mut seen = false;
            let mut k: usize = 0;
            while k < rem.len()
                invariant
                    k <= rem@.len(),
                    seen == exists|m: int| 0 <= m < k && rem@[m] == id,
                decreases rem@.len() - k,
            {
                if rem[k] == id {
                    seen = true;
                }
                k = k + 1;
            }
            let ghost old_rem = rem@;
            if !seen {
                rem.push(id);
            }
            proof {
                assert(players@.subrange(0, i as int + 1) =~= players@.subrange(0, i as int).push(id));
                assert(rem@.to_set() =~= players@.subrange(0, i as int + 1).to_set()) by {
                    players@.subrange(0, i as int).lemma_push_to_set_commute(id);
                    if !seen {
                        old_rem.lemma_push_to_set_commute(id);
                    } else {
                        assert(old_rem.contains(id));
                    }
                }
            }
            i = i + 1;
        }
        assert(players@.subrange(0, players@.len() as int) =~= players@);
        assert forall|x: PlayerId| #[trigger] rem@.contains(x) <==> players@.contains(x) by {
            assert(rem@.to_set().contains(x) == rem@.contains(x));
            assert(players@.to_set().contains(x) == players@.contains(x));
        }
        *self = NoseGoes::InProgress { remaining_players: rem };
        true
    }

    /// Ends the round, whatever its state.
    pub fn reset(&mut self)
        ensures
            final(self).view() is None,
            final(self).wf(),
    {
        *self = NoseGoes::Inactive;
    }

    /// The player `id` tries to leave the round. A player not in a running
    /// round is rejected (`None`); the last one left dies, and the round is
    /// then over, with nobody left to leave.
    pub fn attempt_leave(&mut self, id: PlayerId) -> (r: Option<NoseGoesResponse>)
        requires
            old(self).wf(),
        ensures
            final(self).wf(),
            (final(self).view(), r) == leave_step(old(self).view(), id),
    {
        match self {
            NoseGoes::Inactive => None,
            NoseGoes::InProgress { remaining_players } => {
                let n = remaining_players.len();
                let mut k: usize = n;
                let mut m: usize = 0;
                while m < n
                    invariant
                        n == remaining_players@.len(),
                        m <= n,
                        k <= n,
                        k == n ==> forall|q: int| 0 <= q < m ==> remaining_players@[q] != id,
                        k < n ==> remaining_players@[k as int] == id,
                    decreases n - m,
                {
                    if k == n && remaining_players[m] == id {
                        k = m;
                    }
                    m = m + 1;
                }
                if k == n {
                    return None;
                }
                let ghost rem = remaining_players@;
                proof {
                    assert(rem[k as int] == id);
                    assert(rem.contains(id));
                    assert(rem.index_of(id) == k as int);
                }
                if remaining_players.len() > 1 {
                    remaining_players.remove(k);
                    proof {
                        rem.remove_ensures(k as int);
                        let after = rem.remove(k as int);
                        assert forall|a: int, b: int| 0 <= a < b < after.len() implies after[a] != after[b] by {
                            let a2 = if a < k { a } else { a + 1 };
                            let b2 = if b < k { b } else { b + 1 };
                            assert(after[a] == rem[a2] && after[b] == rem[b2]);
                        }
                    }
                    Some(NoseGoesResponse::Survived)
                } else {
                    remaining_players.clear();
                    assert(remaining_players@ =~= Seq::<PlayerId>::empty());
                    Some(NoseGoesResponse::Died)
                }
            },
        }
    }
}

} // verus!
