use vstd::prelude::*;
use crate::events::GameEvent;
use crate::crown::holder_after_score;
use crate::game::{score_of, Game};
use crate::ids::PlayerId;
use crate::nose_goes::{leave_step, NoseGoes, NoseGoesResponse};
use crate::registry::{fed, has_id, Player, EAT_INTERVAL_MS};

verus! {

/// The state of a player that the host displays need.
#[derive(Debug)]
pub struct PlayerData {
    /// The player's id.
    pub id: PlayerId,
    /// The player's display name.
    pub name: String,
    /// The player's current score.
    pub score: usize,
    /// Whether the player holds the crown, that is, is winning.
    pub has_crown: bool,
}

/// A request to feed a player.
#[derive(Debug, Clone, Copy, PartialEq, Eq, Structural)]
pub struct FeedMeRequest {
    /// The player whose "Feed Me" button was pressed.
    pub id: PlayerId,
}

/// The answer to a feed request.
#[derive(Debug, Clone, Copy, PartialEq, Eq, Structural)]
pub struct FeedMeResponse {
    /// The player's score after the feed.
    pub score: usize,
}

/// Every player, for a host that has just connected.
#[derive(Debug)]
pub struct PlayersResponse {
    pub players: Vec<PlayerData>,
}

/// Why a request was rejected.
#[derive(Debug, Clone, Copy, PartialEq, Eq, Structural)]
pub enum Error {
    /// The request named a player that is not registered.
    InvalidPlayer(PlayerId),
    /// An elimination request came while no round ran, or from a player
    /// who is not in the running round.
    InvalidRound,
}

/// What the host displays are shown of player `p` when `holder` has the crown.
pub open spec fn player_data(p: Player, holder: Option<PlayerId>) -> PlayerData {
    PlayerData { id: p.id, name: p.username, score: p.score, has_crown: holder == Some(p.id) }
}

fn data_of(p: &Player, holder: Option<PlayerId>) -> (r: PlayerData)
    ensures
        r == player_data(*p, holder),
{
    let has_crown = match holder {
        Some(h) => h == p.id,
        None => false,
    };
    PlayerData { id: p.id, name: p.username.clone(), score: p.score, has_crown }
}

/// Registers a new player named `name` with `balls` balls at time `now`.
/// Returns what the hosts are shown of the player and the events to announce.
pub fn register_player(game: &mut Game, name: String, balls: usize, now: u64) -> (r: (PlayerData, Vec<GameEvent>))
    requires
        old(game).wf(),
        old(game).has_id_room(),
        now <= u64::MAX - EAT_INTERVAL_MS,
    ensures
        final(game).wf(),
        !has_id(old(game).players(), r.0.id),
        !old(game).issued().contains(r.0.id),
        final(game).issued() == old(game).issued().push(r.0.id),
        final(game).has_id_room() == (final(game).issued().len() < usize::MAX),
        final(game).policy_spec() == old(game).policy_spec(),
        final(game).players() == old(game).players().push(
            Player {
                id: r.0.id,
                username: name,
                score: 0,
                balls,
                next_eat_time: (now + EAT_INTERVAL_MS) as u64,
            },
        ),
        r.0 == (PlayerData { id: r.0.id, name, score: 0, has_crown: old(game).holder_spec() is None }),
        final(game).holder_spec() == if old(game).holder_spec() is None {
            Some(r.0.id)
        } else {
            old(game).holder_spec()
        },
        r.1@ == if old(game).holder_spec() is None {
            seq![
                GameEvent::PlayerRegistered { id: r.0.id, name },
                GameEvent::CrownChanged { id: r.0.id },
            ]
        } else {
            seq![GameEvent::PlayerRegistered { id: r.0.id, name }]
        },
{
    let had_holder = game.holder().is_some();
    let shown = name.clone();
    let (id, events) = game.register(name, balls, now);
    (PlayerData { id, name: shown, score: 0, has_crown: !had_holder }, events)
}

/// Feeds the player named in `payload`. Returns the player's new score, or
/// `InvalidPlayer` when the id is not registered, and the events to announce.
pub fn feed_player(game: &mut Game, payload: FeedMeRequest) -> (r: (Result<FeedMeResponse, Error>, Vec<GameEvent>))
    requires
        old(game).wf(),
        old(game).feed_fits(payload.id),
    ensures
        final(game).wf(),
        final(game).issued() == old(game).issued(),
        final(game).has_id_room() == old(game).has_id_room(),
        final(game).policy_spec() == old(game).policy_spec(),
        !has_id(old(game).players(), payload.id) ==> {
            &&& r.0 == Err::<FeedMeResponse, Error>(Error::InvalidPlayer(payload.id))
            &&& final(game).players() == old(game).players()
            &&& final(game).holder_spec() == old(game).holder_spec()
            &&& r.1@.len() == 0
        },
        forall|i: int|
            0 <= i < old(game).players().len() && (#[trigger] old(game).players()[i]).id == payload.id
                ==> {
                let p = fed(old(game).players()[i], old(game).policy_spec());
                &&& final(game).players() == old(game).players().update(i, p)
                &&& r.0 == Ok::<FeedMeResponse, Error>(FeedMeResponse { score: p.score })
                &&& final(game).holder_spec() == holder_after_score(
                    old(game).holder_spec(),
                    payload.id,
                    p.score,
                    score_of(final(game).players(), old(game).holder_spec().unwrap()),
                )
                &&& r.1@ == if final(game).holder_spec() != old(game).holder_spec() {
                    seq![
                        GameEvent::ScoreChanged { id: payload.id, score: p.score, balls: p.balls },
                        GameEvent::CrownChanged { id: payload.id },
                    ]
                } else {
                    seq![GameEvent::ScoreChanged { id: payload.id, score: p.score, balls: p.balls }]
                }
            },
{
    let (res, events) = game.feed(payload.id);
    match res {
        Ok(score) => (Ok(FeedMeResponse { score }), events),
        Err(id) => (Err(Error::InvalidPlayer(id)), events),
    }
}

/// Starts an elimination round among `players`, who must all be registered.
pub fn start_nose_goes(game: &Game, round: &mut NoseGoes, players: &Vec<PlayerId>) -> (r: Result<(), Error>)
    requires
        game.wf(),
    ensures
        old(round).view() is Some ==> r == Err::<(), Error>(Error::InvalidRound) && *final(round) == *old(round),
        old(round).view() is None && (exists|k: int| 0 <= k < players@.len() && !has_id(game.players(), #[trigger] players@[k])) ==> {
            &&& *final(round) == *old(round)
            &&& exists|k: int| {
                &&& 0 <= k < players@.len()
                &&& !has_id(game.players(), #[trigger] players@[k])
                &&& r == Err::<(), Error>(Error::InvalidPlayer(players@[k]))
                &&& forall|m: int| 0 <= m < k ==> has_id(game.players(), #[trigger] players@[m])
            }
        },
        old(round).view() is None && (forall|k: int| 0 <= k < players@.len() ==> has_id(game.players(), #[trigger] players@[k])) ==> {
            &&& r is Ok
            &&& final(round).wf()
            &&& final(round).view() matches Some(rem) && forall|x: PlayerId| #[trigger] rem.contains(x) <==> players@.contains(x)
        },
{
    if round.is_active() {
        return Err(Error::InvalidRound);
    }
    let mut i: usize = 0;
    while i < players.len()
        invariant
            game.wf(),
            *round == *old(round),
            old(round).view() is None,
            i <= players@.len(),
            forall|k: int| 0 <= k < i ==> has_id(game.players(), #[trigger] players@[k]),
        decreases players@.len() - i,
    {
        let id = players[i];
        if game.get(id).is_none() {
            assert(!has_id(game.players(), players@[i as int]));
            return Err(Error::InvalidPlayer(id));
        }
        i = i + 1;
    }
    round.start(players);
    Ok(())
}

/// The player `id` tries to leave the running elimination round.
pub fn nose_goes(id: PlayerId, round: &mut NoseGoes) -> (r: Result<NoseGoesResponse, Error>)
    requires
        old(round).wf(),
    ensures
        final(round).wf(),
        final(round).view() == leave_step(old(round).view(), id).0,
        r == match leave_step(old(round).view(), id).1 {
            Some(a) => Ok::<NoseGoesResponse, Error>(a),
            None => Err(Error::InvalidRound),
        },
{
    match round.attempt_leave(id) {
        Some(a) => Ok(a),
        None => Err(Error::InvalidRound),
    }
}

/// What the hosts are shown of player `id`, if registered.
pub fn get_player(id: PlayerId, game: &Game) -> (r: Option<PlayerData>)
    requires
        game.wf(),
    ensures
        r is None <==> !has_id(game.players(), id),
        forall|i: int|
            0 <= i < game.players().len() && (#[trigger] game.players()[i]).id == id ==> r == Some(
                player_data(game.players()[i], game.holder_spec()),
            ),
{
    match game.get(id) {
        Some(p) => Some(data_of(&p, game.holder())),
        None => None,
    }
}

/// What the hosts are shown of every player, in order of registration.
pub fn get_players(game: &Game) -> (r: PlayersResponse)
    ensures
        r.players@ == game.players().map_values(|p: Player| player_data(p, game.holder_spec())),
{
    let all = game.list();
    let holder = game.holder();
    let mut out: Vec<PlayerData> = Vec::new();
    let mut i: usize = 0;
    while i < all.len()
        invariant
            i <= all@.len(),
            all@ == game.players(),
            holder == game.holder_spec(),
            out@ == all@.subrange(0, i as int).map_values(|p: Player| player_data(p, holder)),
        decreases all@.len() - i,
    {
        out.push(data_of(&all[i], holder));
        i = i + 1;
        assert(out@ =~= all@.subrange(0, i as int).map_values(|p: Player| player_data(p, holder)));
    }
    assert(all@.subrange(0, all@.len() as int) =~= all@);
    PlayersResponse { players: out }
}

} // verus!
