use hippos::events::GameEvent;
use hippos::hub::{announce, BroadcastHub, SubscriberId};
use hippos::ids::PlayerId;
use hippos::names::{generate_username, username_at};

#[test]
fn every_subscriber_gets_events_in_order() {
    let mut hub = BroadcastHub::new(8);
    let s1 = hub.subscribe();
    let s2 = hub.subscribe();
    assert_ne!(s1, s2);
    hub.publish(GameEvent::CrownChanged { id: PlayerId(1) });
    hub.publish(GameEvent::PlayerEliminated { id: PlayerId(2) });
    let expected = || {
        vec![
            GameEvent::CrownChanged { id: PlayerId(1) },
            GameEvent::PlayerEliminated { id: PlayerId(2) },
        ]
    };
    assert_eq!(hub.drain(s1), Some(expected()));
    assert_eq!(hub.drain(s2), Some(expected()));
    assert_eq!(hub.drain(s1), Some(vec![]));
}

#[test]
fn full_subscriber_is_dropped() {
    let mut hub = BroadcastHub::new(1);
    let slow = hub.subscribe();
    let fast = hub.subscribe();
    hub.publish(GameEvent::CrownChanged { id: PlayerId(1) });
    assert_eq!(hub.drain(fast).unwrap().len(), 1);
    hub.publish(GameEvent::CrownChanged { id: PlayerId(2) });
    assert_eq!(hub.subscriber_count(), 1);
    assert_eq!(hub.drain(slow), None);
    assert_eq!(hub.drain(fast), Some(vec![GameEvent::CrownChanged { id: PlayerId(2) }]));
}

#[test]
fn unsubscribe_is_idempotent() {
    let mut hub = BroadcastHub::new(4);
    let s = hub.subscribe();
    hub.unsubscribe(s);
    hub.unsubscribe(s);
    hub.unsubscribe(SubscriberId(50));
    assert_eq!(hub.subscriber_count(), 0);
    assert_eq!(hub.drain(s), None);
}

#[test]
fn announce_keeps_registrations_from_players() {
    let mut hosts = BroadcastHub::new(8);
    let mut players = BroadcastHub::new(8);
    let h = hosts.subscribe();
    let p = players.subscribe();
    let events = vec![
        GameEvent::PlayerRegistered { id: PlayerId(0), name: "Steve".to_string() },
        GameEvent::CrownChanged { id: PlayerId(0) },
    ];
    announce(&mut hosts, &mut players, events);
    assert_eq!(hosts.drain(h).unwrap().len(), 2);
    assert_eq!(players.drain(p), Some(vec![GameEvent::CrownChanged { id: PlayerId(0) }]));
}

fn table() -> Vec<String> {
    ["Hiphopopotamus", "Rhymenocerous", "Steve"].iter().map(|s| s.to_string()).collect()
}

#[test]
fn name_table_lookup() {
    let names = table();
    assert_eq!(username_at(&names, 0), "Hiphopopotamus");
    assert_eq!(username_at(&names, 2), "Steve");
}

#[test]
fn generated_names_come_from_the_table() {
    let names = table();
    for _ in 0..50 {
        let name = generate_username(&names);
        assert!(names.contains(&name));
    }
}

#[test]
fn single_name_table_always_gives_that_name() {
    let names = vec!["Steve".to_string()];
    assert_eq!(generate_username(&names), "Steve");
}
