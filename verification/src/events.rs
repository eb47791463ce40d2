//! The describe-then-update event protocol, as a model over the table's map
//! abstraction, together with the laws the protocol obeys.

use vstd::prelude::*;
use crate::registry::Control;
use crate::registry::ControlRegistry;

verus! {

/// One event delivered by the device: either a full description of a control
/// or a new value for one.
pub enum Event {
    Description { addr: u32, control: Control },
    Value { addr: u32, value: u8 },
}

impl Event {
    /// The address the event speaks of.
    pub open spec fn addr(self) -> u32 {
        match self {
            Event::Description { addr, .. } => addr,
            Event::Value { addr, .. } => addr,
        }
    }

    /// Whether this is a value event.
    pub open spec fn is_value(self) -> bool {
        self is Value
    }

    /// The value a value event carries.
    pub open spec fn value(self) -> u8
        recommends
            self is Value,
    {
        match self {
            Event::Description { control, .. } => control.value,
            Event::Value { value, .. } => value,
        }
    }

    /// An exact copy of the event.
    pub fn duplicate(&self) -> (r: Event)
        ensures
            r == *self,
    {
        match self {
            Event::Description { addr, control } => Event::Description {
                addr: *addr,
                control: control.duplicate(),
            },
            Event::Value { addr, value } => Event::Value { addr: *addr, value: *value },
        }
    }
}

/// What one event does to the table: a description upserts the whole record,
/// a value event replaces the value of a present record and is a no-op for an
/// address never described.
pub open spec fn apply_event(m: Map<u32, Control>, e: Event) -> Map<u32, Control> {
    match e {
        Event::Description { addr, control } => m.insert(addr, control),
        Event::Value { addr, value } => if m.contains_key(addr) {
            m.insert(addr, m[addr].with_value(value))
        } else {
            m
        },
    }
}

/// The table after a whole sequence of events, applied left to right.
pub open spec fn apply_events(m: Map<u32, Control>, s: Seq<Event>) -> Map<u32, Control>
    decreases s.len(),
{
    if s.len() == 0 {
        m
    } else {
        apply_event(apply_events(m, s.drop_last()), s.last())
    }
}

/// What one event hands to the change callback: the fully updated record for
/// a value event on a described address, nothing otherwise.
pub open spec fn delivery(m: Map<u32, Control>, e: Event) -> Option<Control> {
    match e {
        Event::Value { addr, value } => if m.contains_key(addr) {
            Some(m[addr].with_value(value))
        } else {
            None
        },
        Event::Description { .. } => None,
    }
}

/// How many of the events in `s`, applied in order to `m`, hand a record to
/// the change callback.
pub open spec fn count_deliveries(m: Map<u32, Control>, s: Seq<Event>) -> nat
    decreases s.len(),
{
    if s.len() == 0 {
        0
    } else {
        count_deliveries(m, s.drop_last()) + if delivery(
            apply_events(m, s.drop_last()),
            s.last(),
        ) is Some {
            1nat
        } else {
            0nat
        }
    }
}

/// The last value that `s` delivers for address `a`, or `dflt` if `s` holds
/// no value event for `a`.
pub open spec fn last_value(s: Seq<Event>, a: u32, dflt: u8) -> u8
    decreases s.len(),
{
    if s.len() == 0 {
        dflt
    } else if s.last().is_value() && s.last().addr() == a {
        s.last().value()
    } else {
        last_value(s.drop_last(), a, dflt)
    }
}

/// The control carried by the last description event for `a` in `s`, if any.
pub open spec fn last_described(s: Seq<Event>, a: u32) -> Option<Control>
    decreases s.len(),
{
    if s.len() == 0 {
        None
    } else if s.last() matches Event::Description { addr, .. } && addr == a {
        Some(s.last()->Description_control)
    } else {
        last_described(s.drop_last(), a)
    }
}

/// Every event in `s` is a description event.
pub open spec fn all_descriptions(s: Seq<Event>) -> bool {
    forall|i: int| 0 <= i < s.len() ==> (#[trigger] s[i]) is Description
}

/// Every event in `s` is a value event for an address `m` already describes.
pub open spec fn all_values_described(m: Map<u32, Control>, s: Seq<Event>) -> bool {
    forall|i: int|
        0 <= i < s.len() ==> (#[trigger] s[i]).is_value() && m.contains_key(s[i].addr())
}

/// The records handed to the change callback by the events of `s`, applied
/// in order to `m`, in delivery order.
pub open spec fn deliveries_of(m: Map<u32, Control>, s: Seq<Event>) -> Seq<Control>
    decreases s.len(),
{
    if s.len() == 0 {
        Seq::empty()
    } else {
        match delivery(apply_events(m, s.drop_last()), s.last()) {
            Some(c) => deliveries_of(m, s.drop_last()).push(c),
            None => deliveries_of(m, s.drop_last()),
        }
    }
}

impl ControlRegistry {
    /// Apply one protocol event to the table: the single point through which
    /// the event bridge mutates it.  The result is what the change callback
    /// is to be handed, exactly as the event model says.
    pub fn apply(&mut self, e: Event) -> (r: Option<Control>)
        requires
            old(self).wf(),
        ensures
            final(self).wf(),
            final(self)@ == apply_event(old(self)@, e),
            r == delivery(old(self)@, e),
    {
        match e {
            Event::Description { addr, control } => {
                self.on_description(addr, control);
                None
            }
            Event::Value { addr, value } => self.on_value(addr, value),
        }
    }

    /// Drain one burst of events into the table, in order, collecting the
    /// records to hand to the change callback: one per value event on a
    /// described address, each fully updated, in delivery order.
    pub fn apply_all(&mut self, events: Vec<Event>) -> (deliveries: Vec<Control>)
        requires
            old(self).wf(),
        ensures
            final(self).wf(),
            final(self)@ == apply_events(old(self)@, events@),
            deliveries@ == deliveries_of(old(self)@, events@),
    {
        let ghost m0 = self@;
        let mut deliveries: Vec<Control> = Vec::new();
        let n = events.len();
        let mut i: usize = 0;
        while i < n
            invariant
                self.wf(),
                n == events@.len(),
                i <= n,
                self@ == apply_events(m0, events@.take(i as int)),
                deliveries@ == deliveries_of(m0, events@.take(i as int)),
            decreases n - i,
        {
            proof {
                assert(events@.take(i + 1).drop_last() =~= events@.take(i as int));
                assert(events@.take(i + 1).last() == events@[i as int]);
            }
            let e = events[i].duplicate();
            let d = self.apply(e);
            if let Some(c) = d {
                deliveries.push(c);
            }
            i += 1;
        }
        proof {
            assert(events@.take(n as int) =~= events@);
        }
        deliveries
    }
}

/// A value event for an address never described is a no-op: the table — its
/// size and every value it holds — is left untouched, and nothing is handed
/// to the change callback.
pub proof fn lemma_unknown_value_is_noop(m: Map<u32, Control>, addr: u32, value: u8)
    requires
        !m.contains_key(addr),
    ensures
        apply_event(m, Event::Value { addr, value }) == m,
        delivery(m, Event::Value { addr, value }) is None,
{
}

/// A description burst upserts, and nothing else: afterwards an address that
/// was described holds exactly its last described record, and an address
/// that was not is exactly as it stood before the burst.
pub proof fn lemma_description_burst(m: Map<u32, Control>, s: Seq<Event>)
    requires
        all_descriptions(s),
    ensures
        forall|a: u32|
            #[trigger] last_described(s, a) matches Some(c) ==> apply_events(m, s).contains_key(a)
                && apply_events(m, s)[a] == c,
        forall|a: u32|
            #[trigger] last_described(s, a) is None ==> apply_events(m, s).contains_key(a)
                == m.contains_key(a) && (m.contains_key(a) ==> apply_events(m, s)[a] == m[a]),
    decreases s.len(),
{
    if s.len() > 0 {
        let s0 = s.drop_last();
        assert(all_descriptions(s0)) by {
            assert forall|i: int| 0 <= i < s0.len() implies (#[trigger] s0[i]) is Description by {
                assert(s0[i] == s[i]);
            }
        }
        lemma_description_burst(m, s0);
        let e = s.last();
        assert(e is Description) by {
            assert(s[s.len() - 1] == e);
        }
        let ad = e.addr();
        let c = e->Description_control;
        assert(apply_events(m, s) == apply_events(m, s0).insert(ad, c));
        assert forall|a: u32| (#[trigger] last_described(s, a)) is Some implies apply_events(
            m,
            s,
        ).contains_key(a) && apply_events(m, s)[a] == last_described(s, a)->Some_0 by {
            if a != ad {
                assert(last_described(s, a) == last_described(s0, a));
            }
        }
        assert forall|a: u32| #[trigger] last_described(s, a) is None implies apply_events(
            m,
            s,
        ).contains_key(a) == m.contains_key(a) && (m.contains_key(a) ==> apply_events(m, s)[a]
            == m[a]) by {
            assert(a != ad);
            assert(last_described(s, a) == last_described(s0, a));
        }
    }
}

/// After any table left by a description burst, a run of value events for
/// described addresses leaves exactly the last delivered value per address:
/// no address appears or disappears, every identity field is untouched, and
/// each value is the last one delivered for its address (or the described
/// value, if none was).
pub proof fn lemma_last_value_per_address(m: Map<u32, Control>, s: Seq<Event>)
    requires
        all_values_described(m, s),
    ensures
        apply_events(m, s).dom() == m.dom(),
        forall|a: u32|
            m.contains_key(a) ==> apply_events(m, s)[a] == (#[trigger] m[a]).with_value(
                last_value(s, a, m[a].value),
            ),
    decreases s.len(),
{
    if s.len() > 0 {
        let s0 = s.drop_last();
        assert(all_values_described(m, s0)) by {
            assert forall|i: int| 0 <= i < s0.len() implies (#[trigger] s0[i]).is_value()
                && m.contains_key(s0[i].addr()) by {
                assert(s0[i] == s[i]);
            }
        }
        lemma_last_value_per_address(m, s0);
        let e = s.last();
        assert(e.is_value() && m.contains_key(e.addr())) by {
            assert(s[s.len() - 1] == e);
        }
        assert(apply_events(m, s).dom() =~= m.dom());
    }
}

/// The describe-then-update protocol end to end: after description events
/// followed by value events for described addresses, the table holds exactly
/// the described addresses, each carrying the identity fields of its last
/// description and the last value delivered for it — or the described value,
/// if none was delivered.
pub proof fn lemma_describe_then_update(ds: Seq<Event>, vs: Seq<Event>)
    requires
        all_descriptions(ds),
        all_values_described(apply_events(Map::empty(), ds), vs),
    ensures
        forall|a: u32|
            (#[trigger] last_described(ds, a)) matches Some(c) ==> apply_events(
                apply_events(Map::empty(), ds),
                vs,
            ).contains_key(a) && apply_events(apply_events(Map::empty(), ds), vs)[a]
                == c.with_value(last_value(vs, a, c.value)),
        forall|a: u32|
            (#[trigger] last_described(ds, a)) is None ==> !apply_events(
                apply_events(Map::empty(), ds),
                vs,
            ).contains_key(a),
{
    let md = apply_events(Map::<u32, Control>::empty(), ds);
    lemma_description_burst(Map::<u32, Control>::empty(), ds);
    lemma_last_value_per_address(md, vs);
}

/// Delivering N value events for described addresses notifies the change
/// callback exactly N times, each time with the fully updated record — the
/// very record the table holds once the event is applied, never a stale or
/// partially-updated one.
pub proof fn lemma_callback_invoked_per_event(m: Map<u32, Control>, s: Seq<Event>)
    requires
        all_values_described(m, s),
    ensures
        count_deliveries(m, s) == s.len(),
        deliveries_of(m, s).len() == s.len(),
        forall|i: int|
            0 <= i < s.len() ==> delivery(apply_events(m, s.take(i)), #[trigger] s[i]) == Some(
                apply_events(m, s.take(i))[s[i].addr()].with_value(s[i].value()),
            ),
        forall|i: int|
            0 <= i < s.len() ==> delivery(apply_events(m, s.take(i)), #[trigger] s[i]) == Some(
                apply_events(m, s.take(i + 1))[s[i].addr()],
            ),
    decreases s.len(),
{
    if s.len() > 0 {
        let s0 = s.drop_last();
        assert(all_values_described(m, s0)) by {
            assert forall|i: int| 0 <= i < s0.len() implies (#[trigger] s0[i]).is_value()
                && m.contains_key(s0[i].addr()) by {
                assert(s0[i] == s[i]);
            }
        }
        lemma_callback_invoked_per_event(m, s0);
        lemma_last_value_per_address(m, s0);
        let e = s.last();
        assert(e.is_value() && m.contains_key(e.addr())) by {
            assert(s[s.len() - 1] == e);
        }
        assert(apply_events(m, s0).contains_key(e.addr()));
        assert(delivery(apply_events(m, s0), e) is Some);
        assert(count_deliveries(m, s) == s.len());
        assert forall|i: int| 0 <= i < s.len() implies delivery(
            apply_events(m, s.take(i)),
            #[trigger] s[i],
        ) == Some(apply_events(m, s.take(i))[s[i].addr()].with_value(s[i].value())) && delivery(
            apply_events(m, s.take(i)),
            s[i],
        ) == Some(apply_events(m, s.take(i + 1))[s[i].addr()]) by {
            if i < s.len() - 1 {
                assert(s.take(i) == s0.take(i));
                assert(s.take(i + 1) == s0.take(i + 1));
                assert(s0[i] == s[i]);
            } else {
                assert(s.take(i) == s0);
                assert(s[i] == e);
                assert(s.take(i + 1) == s);
                assert(s.take(i + 1).drop_last() == s0);
                assert(apply_events(m, s) == apply_event(apply_events(m, s0), e));
            }
        }
    }
}

} // verus!
