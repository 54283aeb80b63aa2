use vstd::prelude::*;
use crate::events::GameEvent;

verus! {

/// Identifies one subscriber of a hub.
#[derive(Debug, Clone, Copy, PartialEq, Eq, Hash, Structural)]
pub struct SubscriberId(pub usize);

/// One subscriber and the events sent to it and not yet taken.
#[derive(Debug)]
struct Subscriber {
    id: SubscriberId,
    queue: Vec<GameEvent>,
}

/// A subscriber as the contracts see it: its id and its pending events.
pub type SubscriberView = (SubscriberId, Seq<GameEvent>);

spec fn sub_view(s: Subscriber) -> SubscriberView {
    (s.id, s.queue@)
}

spec fn subs_view(s: Seq<Subscriber>) -> Seq<SubscriberView> {
    s.map_values(|x: Subscriber| sub_view(x))
}

/// The subscribers after `e` is published to `s`: each one with room for
/// another event gets it, each one whose queue holds `capacity` events is
/// dropped.
pub open spec fn published(s: Seq<SubscriberView>, e: GameEvent, capacity: nat) -> Seq<SubscriberView>
    decreases s.len(),
{
    if s.len() == 0 {
        Seq::empty()
    } else {
        let rest = published(s.drop_last(), e, capacity);
        if s.last().1.len() < capacity {
            rest.push((s.last().0, s.last().1.push(e)))
        } else {
            rest
        }
    }
}

/// Whether `s` lists a subscriber with id `id`.
pub open spec fn has_subscriber(s: Seq<SubscriberView>, id: SubscriberId) -> bool {
    exists|i: int| 0 <= i < s.len() && (#[trigger] s[i]).0 == id
}

/// In-process fan-out of events to a changing set of subscribers.
pub struct BroadcastHub {
    next_sub: usize,
    subs: Vec<Subscriber>,
    capacity: usize,
}

impl BroadcastHub {
    /// The subscribers, oldest first.
    pub closed spec fn subscribers(&self) -> Seq<SubscriberView> {
        subs_view(self.subs@)
    }

    /// How many undelivered events a subscriber may hold before it is dropped.
    pub closed spec fn capacity_spec(&self) -> nat {
        self.capacity as nat
    }

    /// Whether another subscriber can still get an id.
    pub closed spec fn has_sub_room(&self) -> bool {
        self.next_sub < usize::MAX
    }

    pub closed spec fn wf(&self) -> bool {
        &&& forall|i: int, j: int|
            0 <= i < j < self.subs@.len() ==> (#[trigger] self.subs@[i]).id.0 < (#[trigger] self.subs@[j]).id.0
        &&& forall|i: int| 0 <= i < self.subs@.len() ==> (#[trigger] self.subs@[i]).id.0 < self.next_sub
        &&& forall|i: int| 0 <= i < self.subs@.len() ==> (#[trigger] self.subs@[i]).queue@.len() <= self.capacity
    }

    /// A hub without subscribers whose subscribers may each hold up to
    /// `capacity` undelivered events.
    pub fn new(capacity: usize) -> (r: BroadcastHub)
        ensures
            r.wf(),
            r.subscribers() == Seq::<SubscriberView>::empty(),
            r.capacity_spec() == capacity,
            r.has_sub_room(),
    {
        let r = BroadcastHub { next_sub: 0, subs: Vec::new(), capacity };
        assert(r.subscribers() =~= Seq::<SubscriberView>::empty());
        r
    }

    /// The number of subscribers.
    pub fn subscriber_count(&self) -> (r: usize)
        ensures
            r == self.subscribers().len(),
    {
        self.subs.len()
    }

    /// Whether another subscriber can still get an id.
    pub fn can_subscribe(&self) -> (r: bool)
        ensures
            r == self.has_sub_room(),
    {
        self.next_sub < usize::MAX
    }

    /// Adds a subscriber with nothing pending, and returns its id.
    pub fn subscribe(&mut self) -> (r: SubscriberId)
        requires
            old(self).wf(),
            old(self).has_sub_room(),
        ensures
            final(self).wf(),
            !has_subscriber(old(self).subscribers(), r),
            final(self).subscribers() == old(self).subscribers().push((r, Seq::<GameEvent>::empty())),
            final(self).capacity_spec() == old(self).capacity_spec(),
    {
        let id = SubscriberId(self.next_sub);
        self.next_sub = self.next_sub + 1;
        self.subs.push(Subscriber { id, queue: Vec::new() });
        assert(self.subscribers() =~= old(self).subscribers().push((id, Seq::<GameEvent>::empty())));
        assert(!has_subscriber(old(self).subscribers(), id)) by {
            if has_subscriber(old(self).subscribers(), id) {
                let i = choose|i: int| 0 <= i < old(self).subscribers().len() && (#[trigger] old(self).subscribers()[i]).0 == id;
                assert(old(self).subs@[i].id.0 < old(self).next_sub);
            }
        }
        id
    }

    /// The position of subscriber `id`, if present.
    fn position(&self, id: SubscriberId) -> (r: Option<usize>)
        requires
            self.wf(),
        ensures
            r is None ==> !has_subscriber(self.subscribers(), id),
            r matches Some(i) ==> i < self.subs@.len() && self.subs@[i as int].id == id && forall|j: int|
                0 <= j < self.subs@.len() && (#[trigger] self.subs@[j]).id == id ==> j == i,
    {
        let mut i: usize = 0;
        while i < self.subs.len()
            invariant
                self.wf(),
                i <= self.subs@.len(),
                forall|k: int| 0 <= k < i ==> (#[trigger] self.subs@[k]).id != id,
            decreases self.subs@.len() - i,
        {
            if self.subs[i].id == id {
                assert forall|j: int| 0 <= j < self.subs@.len() && (#[trigger] self.subs@[j]).id == id implies j
                    == i by {
                    if j < i {
                    } else if j > i {
                        assert(self.subs@[i as int].id.0 < self.subs@[j].id.0);
                    }
                }
                return Some(i);
            }
            i = i + 1;
        }
        assert forall|k: int| 0 <= k < self.subscribers().len() implies (#[trigger] self.subscribers()[k]).0 != id by {
            assert(self.subscribers()[k].0 == self.subs@[k].id);
        }
        None
    }

    /// Removes subscriber `id`; removing one that is not there changes nothing.
    pub fn unsubscribe(&mut self, id: SubscriberId)
        requires
            old(self).wf(),
        ensures
            final(self).wf(),
            !has_subscriber(final(self).subscribers(), id),
            final(self).subscribers() == old(self).subscribers().filter(|s: SubscriberView| s.0 != id),
            final(self).capacity_spec() == old(self).capacity_spec(),
            final(self).has_sub_room() == old(self).has_sub_room(),
    {
        match self.position(id) {
            None => {
                proof {
                    let s = old(self).subscribers();
                    assert forall|k: int| 0 <= k < s.len() implies (#[trigger] s[k]).0 != id by {
                    }
                    lemma_filter_keeps_all(s, id);
                }
            },
            Some(i) => {
                let ghost s = old(self).subscribers();
                self.subs.remove(i);
                proof {
                    old(self).subs@.remove_ensures(i as int);
                    lemma_filter_drops_one(s, i as int, id);
                    assert(self.subscribers() =~= s.remove(i as int));
                    assert forall|k: int| 0 <= k < self.subscribers().len() implies (#[trigger] self.subscribers()[k]).0
                        != id by {
                        let k2 = if k < i { k } else { k + 1 };
                        assert(self.subs@[k] == old(self).subs@[k2]);
                    }
                    assert forall|a: int, b: int| 0 <= a < b < self.subs@.len() implies (#[trigger] self.subs@[a]).id.0
                        < (#[trigger] self.subs@[b]).id.0 by {
                        let a2 = if a < i { a } else { a + 1 };
                        let b2 = if b < i { b } else { b + 1 };
                        assert(self.subs@[a] == old(self).subs@[a2] && self.subs@[b] == old(self).subs@[b2]);
                    }
                    assert forall|k: int| 0 <= k < self.subs@.len() implies (#[trigger] self.subs@[k]).id.0 < self.next_sub
                        && self.subs@[k].queue@.len() <= self.capacity by {
                        let k2 = if k < i { k } else { k + 1 };
                        assert(self.subs@[k] == old(self).subs@[k2]);
                    }
                }
            },
        }
    }
}

impl BroadcastHub {
    /// Sends `e` to every subscriber that has room for it, and drops every
    /// subscriber whose queue is full. Subscribers keep their order, so all
    /// of them see events in the order they were published.
    pub fn publish(&mut self, e: GameEvent)
        requires
            old(self).wf(),
        ensures
            final(self).wf(),
            final(self).subscribers() == published(old(self).subscribers(), e, old(self).capacity_spec()),
            final(self).capacity_spec() == old(self).capacity_spec(),
            final(self).has_sub_room() == old(self).has_sub_room(),
    {
        let mut rest: Vec<Subscriber> = Vec::new();
        std::mem::swap(&mut self.subs, &mut rest);
        let ghost orig = rest@;
        let total = rest.len();
        let ghost cap = self.capacity as nat;
        let mut kept: Vec<Subscriber> = Vec::new();
        let mut i: usize = 0;
        while rest.len() > 0
            invariant
                i <= orig.len(),
                total == orig.len(),
                rest@ == orig.subrange(i as int, orig.len() as int),
                subs_view(kept@) == published(subs_view(orig.subrange(0, i as int)), e, cap),
                cap == self.capacity,
                forall|a: int, b: int|
                    0 <= a < b < orig.len() ==> (#[trigger] orig[a]).id.0 < (#[trigger] orig[b]).id.0,
                forall|a: int| 0 <= a < orig.len() ==> (#[trigger] orig[a]).id.0 < self.next_sub,
                forall|a: int| 0 <= a < kept@.len() ==> (#[trigger] kept@[a]).queue@.len() <= self.capacity,
                forall|a: int| 0 <= a < kept@.len() ==> (#[trigger] kept@[a]).id.0 < self.next_sub,
                forall|a: int| 0 <= a < kept@.len() ==> exists|b: int| 0 <= b < i && (#[trigger] kept@[a]).id
                    == #[trigger] orig[b].id,
                forall|a: int, b: int|
                    0 <= a < b < kept@.len() ==> (#[trigger] kept@[a]).id.0 < (#[trigger] kept@[b]).id.0,
            decreases rest@.len(),
        {
            let ghost pre = orig.subrange(0, i as int + 1);
            let mut sub = rest.remove(0);
            proof {
                assert(sub == orig[i as int]);
                assert(rest@ =~= orig.subrange(i as int + 1, orig.len() as int));
                assert(subs_view(pre).drop_last() =~= subs_view(orig.subrange(0, i as int)));
                assert(subs_view(pre).last() == sub_view(sub));
                assert forall|a: int| 0 <= a < kept@.len() implies (#[trigger] kept@[a]).id.0 < sub.id.0 by {
                    let b = choose|b: int| 0 <= b < i && kept@[a].id == orig[b].id;
                    assert(orig[b].id.0 < orig[i as int].id.0);
                }
            }
            let ghost kept0 = kept@;
            if sub.queue.len() < self.capacity {
                sub.queue.push(e.duplicate());
                kept.push(sub);
                proof {
                    assert(subs_view(kept@) =~= subs_view(kept0).push(sub_view(sub)));
                    assert forall|a: int| 0 <= a < kept@.len() implies exists|b: int| 0 <= b < i + 1 && (
                    #[trigger] kept@[a]).id == #[trigger] orig[b].id by {
                        if a < kept0.len() {
                            let b = choose|b: int| 0 <= b < i && kept0[a].id == orig[b].id;
                            assert(kept@[a] == kept0[a]);
                        } else {
                            assert(kept@[a].id == orig[i as int].id);
                        }
                    }
                }
            } else {
                proof {
                    assert forall|a: int| 0 <= a < kept@.len() implies exists|b: int| 0 <= b < i + 1 && (
                    #[trigger] kept@[a]).id == #[trigger] orig[b].id by {
                        let b = choose|b: int| 0 <= b < i && kept0[a].id == orig[b].id;
                    }
                }
            }
            i = i + 1;
        }
        assert(orig.subrange(0, orig.len() as int) =~= orig);
        self.subs = kept;
    }

    /// Takes the events pending for subscriber `id`, oldest first; `None`
    /// when `id` is not subscribed, for instance after being dropped.
    pub fn drain(&mut self, id: SubscriberId) -> (r: Option<Vec<GameEvent>>)
        requires
            old(self).wf(),
        ensures
            final(self).wf(),
            final(self).capacity_spec() == old(self).capacity_spec(),
            final(self).has_sub_room() == old(self).has_sub_room(),
            !has_subscriber(old(self).subscribers(), id) ==> r is None && final(self).subscribers()
                == old(self).subscribers(),
            forall|i: int|
                0 <= i < old(self).subscribers().len() && (#[trigger] old(self).subscribers()[i]).0 == id
                    ==> {
                    &&& r matches Some(v) && v@ == old(self).subscribers()[i].1
                    &&& final(self).subscribers() == old(self).subscribers().update(
                        i,
                        (id, Seq::<GameEvent>::empty()),
                    )
                },
    {
        match self.position(id) {
            None => None,
            Some(i) => {
                let mut taken: Vec<GameEvent> = Vec::new();
                let mut sub = self.subs.remove(i);
                std::mem::swap(&mut sub.queue, &mut taken);
                self.subs.insert(i, sub);
                proof {
                    old(self).subs@.remove_ensures(i as int);
                    assert(self.subs@.len() == old(self).subs@.len());
                    assert(self.subs@[i as int].queue@ =~= Seq::<GameEvent>::empty());
                    assert forall|k: int| 0 <= k < self.subs@.len() && k != i implies #[trigger] self.subs@[k]
                        == old(self).subs@[k] by {
                    }
                    assert(self.subscribers() =~= old(self).subscribers().update(i as int, (id, Seq::<GameEvent>::empty())));
                    assert(old(self).subscribers()[i as int] == sub_view(old(self).subs@[i as int]));
                }
                Some(taken)
            },
        }
    }
}

/// The subscribers after each of `es` is published to `s`, in order.
pub open spec fn published_all(s: Seq<SubscriberView>, es: Seq<GameEvent>, capacity: nat) -> Seq<SubscriberView>
    decreases es.len(),
{
    if es.len() == 0 {
        s
    } else {
        published(published_all(s, es.drop_last(), capacity), es.last(), capacity)
    }
}

/// The events of `es` that players' devices are sent.
pub open spec fn player_events(es: Seq<GameEvent>) -> Seq<GameEvent> {
    es.filter(|e: GameEvent| e.for_players_spec())
}

/// Publishes `events`, in order, to the hosts' hub, and those meant for
/// players to the players' hub.
pub fn announce(host: &mut BroadcastHub, players: &mut BroadcastHub, events: Vec<GameEvent>)
    requires
        old(host).wf(),
        old(players).wf(),
    ensures
        final(host).wf(),
        final(players).wf(),
        final(host).subscribers() == published_all(old(host).subscribers(), events@, old(host).capacity_spec()),
        final(players).subscribers() == published_all(
            old(players).subscribers(),
            player_events(events@),
            old(players).capacity_spec(),
        ),
        final(host).capacity_spec() == old(host).capacity_spec(),
        final(players).capacity_spec() == old(players).capacity_spec(),
        final(host).has_sub_room() == old(host).has_sub_room(),
        final(players).has_sub_room() == old(players).has_sub_room(),
{
    let mut i: usize = 0;
    while i < events.len()
        invariant
            i <= events@.len(),
            host.wf(),
            players.wf(),
            host.subscribers() == published_all(
                old(host).subscribers(),
                events@.subrange(0, i as int),
                old(host).capacity_spec(),
            ),
            players.subscribers() == published_all(
                old(players).subscribers(),
                player_events(events@.subrange(0, i as int)),
                old(players).capacity_spec(),
            ),
            host.capacity_spec() == old(host).capacity_spec(),
            players.capacity_spec() == old(players).capacity_spec(),
            host.has_sub_room() == old(host).has_sub_room(),
            players.has_sub_room() == old(players).has_sub_room(),
        decreases events@.len() - i,
    {
        let e = &events[i];
        let ghost pre = events@.subrange(0, i as int);
        let ghost next = events@.subrange(0, i as int + 1);
        proof {
            assert(next.drop_last() =~= pre);
            assert(next.last() == *e);
            reveal(Seq::filter);
            let f = |x: GameEvent| x.for_players_spec();
            assert(next.filter(f) == if e.for_players_spec() {
                pre.filter(f).push(*e)
            } else {
                pre.filter(f)
            });
            assert(pre.filter(f).push(*e).drop_last() =~= pre.filter(f));
        }
        host.publish(e.duplicate());
        if e.for_players() {
            players.publish(e.duplicate());
        }
        i = i + 1;
    }
    assert(events@.subrange(0, events@.len() as int) =~= events@);
}

/// Filtering out an id that no subscriber has keeps every subscriber.
proof fn lemma_filter_keeps_all(s: Seq<SubscriberView>, id: SubscriberId)
    requires
        forall|k: int| 0 <= k < s.len() ==> (#[trigger] s[k]).0 != id,
    ensures
        s.filter(|x: SubscriberView| x.0 != id) == s,
    decreases s.len(),
{
    reveal(Seq::filter);
    if s.len() > 0 {
        lemma_filter_keeps_all(s.drop_last(), id);
        assert(s.drop_last().push(s.last()) =~= s);
    }
}

/// Filtering out the id that only position `i` holds removes just that position.
proof fn lemma_filter_drops_one(s: Seq<SubscriberView>, i: int, id: SubscriberId)
    requires
        0 <= i < s.len(),
        s[i].0 == id,
        forall|k: int| 0 <= k < s.len() && (#[trigger] s[k]).0 == id ==> k == i,
    ensures
        s.filter(|x: SubscriberView| x.0 != id) == s.remove(i),
    decreases s.len(),
{
    reveal(Seq::filter);
    let d = s.drop_last();
    if i == s.len() - 1 {
        assert forall|k: int| 0 <= k < d.len() implies (#[trigger] d[k]).0 != id by {
            assert(d[k] == s[k]);
        }
        lemma_filter_keeps_all(d, id);
        assert(s.remove(i) =~= d);
    } else {
        assert forall|k: int| 0 <= k < d.len() && (#[trigger] d[k]).0 == id implies k == i by {
            assert(d[k] == s[k]);
        }
        lemma_filter_drops_one(d, i, id);
        assert(s.remove(i) =~= d.remove(i).push(s.last()));
    }
}

} // verus!
