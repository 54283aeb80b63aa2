use hippos::api::{
    feed_player, get_player, get_players, nose_goes, register_player, start_nose_goes, Error,
    FeedMeRequest, FeedMeResponse,
};
use hippos::events::GameEvent;
use hippos::game::Game;
use hippos::ids::{PlayerId, PlayerIdGenerator};
use hippos::nose_goes::{NoseGoes, NoseGoesResponse};
use hippos::registry::{FeedPolicy, Outcome, PlayerRegistry, EAT_INTERVAL_MS};

fn crown_changes(events: &[GameEvent]) -> Vec<PlayerId> {
    events
        .iter()
        .filter_map(|e| match e {
            GameEvent::CrownChanged { id } => Some(*id),
            _ => None,
        })
        .collect()
}

#[test]
fn generator_ids_are_distinct_and_increasing() {
    let mut g = PlayerIdGenerator::new();
    let a = g.next_id();
    let b = g.next_id();
    let c = g.next_id();
    assert_eq!(a, PlayerId(0));
    assert_eq!(b, PlayerId(1));
    assert_eq!(c, PlayerId(2));
    assert!(g.can_issue());
}

#[test]
fn registered_ids_are_pairwise_distinct() {
    let mut game = Game::new(FeedPolicy::AddResource);
    let mut ids = Vec::new();
    for k in 0..20u64 {
        let (id, _) = game.register(format!("p{}", k), 1, k);
        ids.push(id);
    }
    for i in 0..ids.len() {
        for j in 0..ids.len() {
            if i != j {
                assert_ne!(ids[i], ids[j]);
            }
        }
    }
}

#[test]
fn feed_unknown_player_is_rejected_and_changes_nothing() {
    let mut game = Game::new(FeedPolicy::AddScore);
    let (id, _) = game.register("a".to_string(), 2, 0);
    let before: Vec<(PlayerId, usize, usize)> =
        game.list().iter().map(|p| (p.id, p.score, p.balls)).collect();
    let (res, events) = feed_player(&mut game, FeedMeRequest { id: PlayerId(99) });
    assert_eq!(res, Err(Error::InvalidPlayer(PlayerId(99))));
    assert!(events.is_empty());
    let after: Vec<(PlayerId, usize, usize)> =
        game.list().iter().map(|p| (p.id, p.score, p.balls)).collect();
    assert_eq!(before, after);
    assert_eq!(game.holder(), Some(id));
}

#[test]
fn registry_feed_unknown_player_returns_id() {
    let mut reg = PlayerRegistry::new(FeedPolicy::AddResource);
    reg.register("x".to_string(), 0, 0);
    assert_eq!(reg.feed(PlayerId(5)), Err(PlayerId(5)));
    assert_eq!(reg.len(), 1);
}

#[test]
fn feed_adds_a_ball_under_resource_policy() {
    let mut game = Game::new(FeedPolicy::AddResource);
    let (id, _) = game.register("a".to_string(), 2, 0);
    let (res, events) = game.feed(id);
    assert_eq!(res, Ok(0));
    let p = game.get(id).unwrap();
    assert_eq!(p.balls, 3);
    assert_eq!(p.score, 0);
    assert_eq!(events, vec![GameEvent::ScoreChanged { id, score: 0, balls: 3 }]);
}

#[test]
fn feed_adds_a_point_under_score_policy() {
    let mut game = Game::new(FeedPolicy::AddScore);
    let (id, _) = game.register("a".to_string(), 2, 0);
    let (res, _) = feed_player(&mut game, FeedMeRequest { id });
    assert_eq!(res, Ok(FeedMeResponse { score: 1 }));
    assert_eq!(game.get(id).unwrap().balls, 2);
}

#[test]
fn starved_player_is_removed_by_tick() {
    let mut game = Game::new(FeedPolicy::AddResource);
    let (a, _) = game.register("a".to_string(), 0, 0);
    let (b, _) = game.register("b".to_string(), 3, 0);
    let events = game.tick(EAT_INTERVAL_MS);
    assert_eq!(
        events,
        vec![
            GameEvent::PlayerEliminated { id: a },
            GameEvent::ScoreChanged { id: b, score: 1, balls: 2 },
            GameEvent::CrownChanged { id: b },
        ]
    );
    assert!(game.get(a).is_none());
    assert!(game.list().iter().all(|p| p.id != a));
    assert_eq!(game.holder(), Some(b));
}

#[test]
fn tick_ignores_players_not_yet_ready() {
    let mut reg = PlayerRegistry::new(FeedPolicy::AddResource);
    let a = reg.register("a".to_string(), 0, 100);
    let out = reg.tick_consume(100 + EAT_INTERVAL_MS - 1);
    assert!(out.is_empty());
    assert!(reg.get(a).is_some());
    let out = reg.tick_consume(100 + EAT_INTERVAL_MS);
    assert_eq!(out, vec![(a, Outcome::Eliminated { score: 0 })]);
    assert_eq!(reg.len(), 0);
}

#[test]
fn scores_never_drop_and_counts_stay_consistent() {
    let mut game = Game::new(FeedPolicy::AddResource);
    let (a, _) = game.register("a".to_string(), 3, 0);
    let mut last = 0usize;
    let mut now = 0u64;
    for _ in 0..6 {
        now += EAT_INTERVAL_MS;
        game.tick(now);
        if let Some(p) = game.get(a) {
            assert!(p.score >= last);
            last = p.score;
        }
    }
    assert_eq!(last, 3);
    assert!(game.get(a).is_none());
}

#[test]
fn eat_time_advances_by_one_interval() {
    let mut reg = PlayerRegistry::new(FeedPolicy::AddResource);
    let a = reg.register("a".to_string(), 2, 0);
    assert_eq!(reg.get(a).unwrap().next_eat_time, EAT_INTERVAL_MS);
    reg.tick_consume(EAT_INTERVAL_MS + 10);
    assert_eq!(reg.get(a).unwrap().next_eat_time, 2 * EAT_INTERVAL_MS);
}

#[test]
fn crown_holder_leads_after_every_step() {
    let mut game = Game::new(FeedPolicy::AddResource);
    game.register("a".to_string(), 1, 0);
    game.register("b".to_string(), 4, 0);
    game.register("c".to_string(), 2, 0);
    let mut now = 0u64;
    for _ in 0..6 {
        now += EAT_INTERVAL_MS;
        game.tick(now);
        let players = game.list();
        match game.holder() {
            None => assert!(players.is_empty()),
            Some(h) => {
                let hs = players.iter().find(|p| p.id == h).unwrap().score;
                assert!(players.iter().all(|p| p.score <= hs));
            }
        }
    }
}

#[test]
fn crown_stays_with_incumbent_on_tie() {
    let mut game = Game::new(FeedPolicy::AddScore);
    let (a, _) = game.register("a".to_string(), 0, 0);
    let (b, _) = game.register("b".to_string(), 0, 0);
    let (_, e1) = game.feed(a);
    assert!(crown_changes(&e1).is_empty());
    let (_, e2) = game.feed(b);
    assert!(crown_changes(&e2).is_empty());
    assert_eq!(game.holder(), Some(a));
    let (_, e3) = game.feed(b);
    assert_eq!(crown_changes(&e3), vec![b]);
    assert_eq!(game.holder(), Some(b));
}

#[test]
fn crown_moves_when_holder_is_eliminated() {
    let mut game = Game::new(FeedPolicy::AddResource);
    let (a, _) = game.register("a".to_string(), 0, 0);
    let (b, _) = game.register("b".to_string(), 0, 10_000);
    assert_eq!(game.holder(), Some(a));
    let events = game.tick(EAT_INTERVAL_MS);
    assert_eq!(events, vec![GameEvent::PlayerEliminated { id: a }, GameEvent::CrownChanged { id: b }]);
    assert_eq!(game.holder(), Some(b));
}

#[test]
fn scenario_a_three_players_eat_then_starve() {
    let mut game = Game::new(FeedPolicy::AddResource);
    let (p1, _) = game.register("P1".to_string(), 1, 0);
    let (p2, _) = game.register("P2".to_string(), 1, 0);
    let (p3, _) = game.register("P3".to_string(), 1, 0);
    let first = game.tick(EAT_INTERVAL_MS);
    assert_eq!(
        &first[..3],
        &[
            GameEvent::ScoreChanged { id: p1, score: 1, balls: 0 },
            GameEvent::ScoreChanged { id: p2, score: 1, balls: 0 },
            GameEvent::ScoreChanged { id: p3, score: 1, balls: 0 },
        ]
    );
    for id in [p1, p2, p3] {
        let p = game.get(id).unwrap();
        assert_eq!(p.score, 1);
        assert_eq!(p.balls, 0);
    }
    let second = game.tick(2 * EAT_INTERVAL_MS);
    assert_eq!(
        second,
        vec![
            GameEvent::PlayerEliminated { id: p1 },
            GameEvent::PlayerEliminated { id: p2 },
            GameEvent::PlayerEliminated { id: p3 },
        ]
    );
    assert!(game.list().is_empty());
    assert_eq!(game.holder(), None);
}

#[test]
fn scenario_b_one_crown_change_for_overtaking() {
    let mut game = Game::new(FeedPolicy::AddScore);
    let (d1, e1) = register_player(&mut game, "P1".to_string(), 0, 0);
    assert!(d1.has_crown);
    assert_eq!(crown_changes(&e1), vec![d1.id]);
    let (d2, e2) = register_player(&mut game, "P2".to_string(), 0, 0);
    assert!(!d2.has_crown);
    assert!(crown_changes(&e2).is_empty());
    let mut changes = Vec::new();
    let mut score = 0;
    for _ in 0..5 {
        let (res, events) = feed_player(&mut game, FeedMeRequest { id: d2.id });
        score = res.unwrap().score;
        changes.extend(crown_changes(&events));
    }
    assert_eq!(score, 5);
    assert_eq!(changes, vec![d2.id]);
    assert_eq!(get_player(d1.id, &game).unwrap().score, 0);
    assert!(get_player(d2.id, &game).unwrap().has_crown);
}

#[test]
fn scenario_c_round_ends_with_a_loser() {
    let mut game = Game::new(FeedPolicy::AddResource);
    let (p1, _) = game.register("P1".to_string(), 1, 0);
    let (p2, _) = game.register("P2".to_string(), 1, 0);
    let (p3, _) = game.register("P3".to_string(), 1, 0);
    let mut round = NoseGoes::new();
    assert_eq!(start_nose_goes(&game, &mut round, &vec![p1, p2, p3]), Ok(()));
    assert_eq!(nose_goes(p1, &mut round), Ok(NoseGoesResponse::Survived));
    assert_eq!(nose_goes(p2, &mut round), Ok(NoseGoesResponse::Survived));
    assert_eq!(nose_goes(p3, &mut round), Ok(NoseGoesResponse::Died));
    for id in [p1, p2, p3] {
        assert_eq!(nose_goes(id, &mut round), Err(Error::InvalidRound));
    }
}

#[test]
fn round_of_five_survives_four_times_then_dies() {
    let ids: Vec<PlayerId> = (10..15).map(PlayerId).collect();
    let mut round = NoseGoes::new();
    assert!(round.start(&ids));
    let order = [ids[3], ids[0], ids[4], ids[1], ids[2]];
    for (k, id) in order.iter().enumerate() {
        let expected = if k < 4 { NoseGoesResponse::Survived } else { NoseGoesResponse::Died };
        assert_eq!(round.attempt_leave(*id), Some(expected));
    }
}

#[test]
fn round_rejects_outsiders_and_inactive_state() {
    let mut round = NoseGoes::new();
    assert_eq!(nose_goes(PlayerId(1), &mut round), Err(Error::InvalidRound));
    assert!(round.start(&vec![PlayerId(1), PlayerId(2), PlayerId(1)]));
    assert_eq!(nose_goes(PlayerId(7), &mut round), Err(Error::InvalidRound));
    assert!(!round.start(&vec![PlayerId(3)]));
    assert_eq!(nose_goes(PlayerId(1), &mut round), Ok(NoseGoesResponse::Survived));
    assert_eq!(nose_goes(PlayerId(1), &mut round), Err(Error::InvalidRound));
    assert_eq!(nose_goes(PlayerId(2), &mut round), Ok(NoseGoesResponse::Died));
    round.reset();
    assert!(!round.is_active());
}

#[test]
fn start_round_checks_players_and_state() {
    let mut game = Game::new(FeedPolicy::AddResource);
    let (p1, _) = game.register("P1".to_string(), 1, 0);
    let mut round = NoseGoes::new();
    assert_eq!(
        start_nose_goes(&game, &mut round, &vec![p1, PlayerId(42)]),
        Err(Error::InvalidPlayer(PlayerId(42)))
    );
    assert!(!round.is_active());
    assert_eq!(start_nose_goes(&game, &mut round, &vec![p1]), Ok(()));
    assert_eq!(start_nose_goes(&game, &mut round, &vec![p1]), Err(Error::InvalidRound));
}

#[test]
fn players_listing_marks_the_crown() {
    let mut game = Game::new(FeedPolicy::AddScore);
    let (a, _) = game.register("alpha".to_string(), 0, 0);
    let (b, _) = game.register("beta".to_string(), 0, 0);
    let resp = get_players(&game);
    assert_eq!(resp.players.len(), 2);
    assert_eq!(resp.players[0].id, a);
    assert_eq!(resp.players[0].name, "alpha");
    assert!(resp.players[0].has_crown);
    assert_eq!(resp.players[1].id, b);
    assert!(!resp.players[1].has_crown);
    assert!(get_player(PlayerId(77), &game).is_none());
}
