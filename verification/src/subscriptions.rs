//! The event types a client has subscribed to.

use vstd::prelude::*;

verus! {

/// A set of event type names. The name `*` subscribes to every event type.
#[derive(Debug, Clone)]
pub struct Subscriptions {
    names: Vec<String>,
}

/// The set of names held by a vector of strings.
pub open spec fn name_set(v: Seq<String>) -> Set<Seq<char>> {
    Set::new(|k: Seq<char>| exists|i: int| 0 <= i < v.len() && #[trigger] v[i]@ == k)
}

/// The names of a slice of event types.
pub open spec fn event_names(events: Seq<String>) -> Set<Seq<char>> {
    name_set(events)
}

proof fn lemma_name_set_push(v: Seq<String>, x: String)
    ensures
        name_set(v.push(x)) == name_set(v).insert(x@),
{
    let t = v.push(x);
    assert forall|k: Seq<char>| #[trigger] name_set(t).contains(k) <==> name_set(v).insert(x@).contains(k) by {
        if name_set(t).contains(k) {
            let j = choose|j: int| 0 <= j < t.len() && #[trigger] t[j]@ == k;
            if j < v.len() {
                assert(v[j] == t[j]);
                assert(v[j]@ == k);
            }
        }
        if name_set(v).contains(k) {
            let j = choose|j: int| 0 <= j < v.len() && #[trigger] v[j]@ == k;
            assert(t[j] == v[j]);
            assert(t[j]@ == k);
        }
        if k == x@ {
            assert(t[v.len() as int]@ == k);
        }
    }
    assert(name_set(t) =~= name_set(v).insert(x@));
}

/// After subscribing to a list of event types, each of them is subscribed.
pub proof fn law_subscribe_then_subscribed(before: Set<Seq<char>>, events: Seq<String>, i: int)
    requires
        0 <= i < events.len(),
    ensures
        before.union(event_names(events)).contains(events[i]@),
{
    assert(name_set(events).contains(events[i]@));
}

/// After unsubscribing from a list of event types, none of them is
/// subscribed any more (though `*` may still cover them).
pub proof fn law_unsubscribe_then_gone(before: Set<Seq<char>>, events: Seq<String>, i: int)
    requires
        0 <= i < events.len(),
    ensures
        !before.difference(event_names(events)).contains(events[i]@),
{
    assert(name_set(events).contains(events[i]@));
}

/// Whether an event type is covered by a set of subscriptions: named, or
/// covered by `*`.
pub open spec fn subscribed(names: Set<Seq<char>>, event_type: Seq<char>) -> bool {
    names.contains(event_type) || names.contains(seq!['*'])
}

/// Subscribing to `*` subscribes to every event type.
pub proof fn law_wildcard_subscribes_all(before: Set<Seq<char>>, events: Seq<String>, i: int, event_type: Seq<char>)
    requires
        0 <= i < events.len(),
        events[i]@ == seq!['*'],
    ensures
        subscribed(before.union(event_names(events)), event_type),
{
    assert(name_set(events).contains(events[i]@));
}

/// A client that subscribed to at least one event type has subscriptions,
/// so its connection stays open.
pub proof fn law_subscribe_keeps_open(before: Set<Seq<char>>, events: Seq<String>)
    requires
        events.len() > 0,
    ensures
        before.union(event_names(events)) != Set::<Seq<char>>::empty(),
{
    assert(name_set(events).contains(events[0]@));
    assert(!Set::<Seq<char>>::empty().contains(events[0]@));
}

impl View for Subscriptions {
    type V = Set<Seq<char>>;

    closed spec fn view(&self) -> Set<Seq<char>> {
        name_set(self.names@)
    }
}

/// Whether `name` is among the strings.
fn holds(v: &Vec<String>, name: &String) -> (r: bool)
    ensures
        r == name_set(v@).contains(name@),
{
    let mut i: usize = 0;
    while i < v.len()
        invariant
            i <= v@.len(),
            forall|k: int| 0 <= k < i ==> #[trigger] v@[k]@ != name@,
        decreases v@.len() - i,
    {
        if v[i] == *name {
            proof {
                assert(name_set(v@).contains(name@));
            }
            return true;
        }
        i = i + 1;
    }
    false
}

impl Subscriptions {
    /// No subscriptions.
    pub fn new() -> (r: Self)
        ensures
            r@ == Set::<Seq<char>>::empty(),
    {
        let r = Subscriptions { names: Vec::new() };
        proof {
            assert(r@ =~= Set::<Seq<char>>::empty());
        }
        r
    }

    /// Subscribe to event types.
    pub fn subscribe(&mut self, events: &[String])
        ensures
            final(self)@ == old(self)@.union(event_names(events@)),
    {
        let ghost s0 = name_set(self.names@);
        let mut i: usize = 0;
        while i < events.len()
            invariant
                i <= events@.len(),
                name_set(self.names@) == s0.union(name_set(events@.take(i as int))),
            decreases events@.len() - i,
        {
            let e = &events[i];
            let ghost before = self.names@;
            if !holds(&self.names, e) {
                self.names.push(e.clone());
            }
            proof {
                let t = events@.take(i + 1);
                assert(t =~= events@.take(i as int).push(events@[i as int]));
                lemma_name_set_push(events@.take(i as int), events@[i as int]);
                if name_set(before).contains(e@) {
                    assert(self.names@ == before);
                } else {
                    lemma_name_set_push(before, *e);
                }
                assert(name_set(self.names@) =~= s0.union(name_set(t)));
            }
            i = i + 1;
        }
        proof {
            assert(events@.take(events@.len() as int) =~= events@);
        }
    }

    /// Unsubscribe from event types.
    pub fn unsubscribe(&mut self, events: &[String])
        ensures
            final(self)@ == old(self)@.difference(event_names(events@)),
    {
        let mut kept: Vec<String> = Vec::new();
        let mut i: usize = 0;
        while i < self.names.len()
            invariant
                i <= self.names@.len(),
                name_set(kept@) == name_set(self.names@.take(i as int)).difference(event_names(events@)),
            decreases self.names@.len() - i,
        {
            let name = &self.names[i];
            let mut listed = false;
            let mut j: usize = 0;
            while j < events.len()
                invariant
                    j <= events@.len(),
                    listed == name_set(events@.take(j as int)).contains(name@),
                decreases events@.len() - j,
            {
                proof {
                    let t = events@.take(j + 1);
                    assert(t =~= events@.take(j as int).push(events@[j as int]));
                    assert(name_set(t).contains(name@) == (name_set(events@.take(j as int)).contains(name@) || events@[j as int]@ == name@)) by {
                        if name_set(t).contains(name@) {
                            let q = choose|q: int| 0 <= q < t.len() && #[trigger] t[q]@ == name@;
                            if q < j {
                                assert(events@.take(j as int)[q]@ == name@);
                            }
                        }
                        if name_set(events@.take(j as int)).contains(name@) {
                            let q = choose|q: int| 0 <= q < j && #[trigger] events@.take(j as int)[q]@ == name@;
                            assert(t[q]@ == name@);
                        }
                        if events@[j as int]@ == name@ {
                            assert(t[j as int]@ == name@);
                        }
                    }
                }
                if events[j] == *name {
                    listed = true;
                }
                j = j + 1;
            }
            proof {
                assert(events@.take(events@.len() as int) =~= events@);
            }
            let ghost before = kept@;
            if !listed {
                kept.push(name.clone());
            }
            proof {
                let t = self.names@.take(i + 1);
                let s = self.names@.take(i as int);
                assert(t =~= s.push(self.names@[i as int]));
                assert forall|k: Seq<char>| #[trigger] name_set(kept@).contains(k) <==> name_set(t).difference(event_names(events@)).contains(k) by {
                    if name_set(kept@).contains(k) {
                        let q = choose|q: int| 0 <= q < kept@.len() && #[trigger] kept@[q]@ == k;
                        if q < before.len() {
                            assert(name_set(before).contains(k));
                            let w = choose|w: int| 0 <= w < s.len() && #[trigger] s[w]@ == k;
                            assert(t[w]@ == k);
                        } else {
                            assert(t[i as int]@ == k);
                        }
                    }
                    if name_set(t).difference(event_names(events@)).contains(k) {
                        let q = choose|q: int| 0 <= q < t.len() && #[trigger] t[q]@ == k;
                        if q < i {
                            assert(s[q]@ == k);
                            assert(name_set(before).contains(k));
                            let w = choose|w: int| 0 <= w < before.len() && #[trigger] before[w]@ == k;
                            assert(kept@[w]@ == k);
                        } else {
                            assert(kept@[before.len() as int]@ == k);
                        }
                    }
                }
                assert(name_set(kept@) =~= name_set(t).difference(event_names(events@)));
            }
            i = i + 1;
        }
        proof {
            assert(self.names@.take(self.names@.len() as int) =~= self.names@);
        }
        self.names = kept;
    }

    /// Check if subscribed to an event type (directly or through `*`).
    pub fn is_subscribed(&self, event_type: &str) -> (r: bool)
        ensures
            r == subscribed(self@, event_type@),
    {
        let name = event_type.to_owned();
        let star = "*".to_owned();
        proof {
            reveal_strlit("*");
            assert(star@ =~= seq!['*']);
        }
        holds(&self.names, &name) || holds(&self.names, &star)
    }

    /// Check if any event type is subscribed (the connection stays open).
    pub fn has_subscriptions(&self) -> (r: bool)
        ensures
            r == (self@ != Set::<Seq<char>>::empty()),
    {
        if self.names.len() == 0 {
            proof {
                assert(name_set(self.names@) =~= Set::<Seq<char>>::empty());
            }
            false
        } else {
            proof {
                assert(name_set(self.names@).contains(self.names@[0]@));
            }
            true
        }
    }
}

} // verus!
