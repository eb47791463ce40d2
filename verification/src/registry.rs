//! The control table: a mapping from device-assigned addresses to control
//! records, mutated only through the describe-then-update event protocol.

use vstd::prelude::*;

verus! {

/// One named control together with its current value.
///
/// `group`, `name` and `func` identify the control and never change after a
/// description; `value` is replaced wholesale by each value event.
#[derive(Clone, Debug)]
pub struct Control {
    pub group: String,
    pub name: String,
    pub func: String,
    pub value: u8,
}

impl Control {
    /// The same control with its value replaced wholesale.
    pub open spec fn with_value(self, value: u8) -> Control {
        Control { group: self.group, name: self.name, func: self.func, value }
    }

    /// An exact copy, made field by field so the copy is known to equal the
    /// original.
    pub fn duplicate(&self) -> (r: Control)
        ensures
            r == *self,
    {
        Control {
            group: self.group.clone(),
            name: self.name.clone(),
            func: self.func.clone(),
            value: self.value,
        }
    }

    /// A copy of this control carrying `value` in place of its current value.
    pub fn replaced(&self, value: u8) -> (r: Control)
        ensures
            r == self.with_value(value),
    {
        Control {
            group: self.group.clone(),
            name: self.name.clone(),
            func: self.func.clone(),
            value,
        }
    }
}

/// The mapping an association list denotes: later entries win.
pub open spec fn map_of(s: Seq<(u32, Control)>) -> Map<u32, Control>
    decreases s.len(),
{
    if s.len() == 0 {
        Map::empty()
    } else {
        map_of(s.drop_last()).insert(s.last().0, s.last().1)
    }
}

/// The table of controls, keyed by address.
///
/// Addresses are unique; iteration order carries no meaning.  The table is
/// abstracted as the map `self@` from address to control.
pub struct ControlRegistry {
    entries: Vec<(u32, Control)>,
}

impl View for ControlRegistry {
    type V = Map<u32, Control>;

    closed spec fn view(&self) -> Map<u32, Control> {
        map_of(self.entries@)
    }
}

impl ControlRegistry {
    /// Each address appears at most once in the table.
    pub closed spec fn wf(self) -> bool {
        forall|i: int, j: int|
            0 <= i < j < self.entries@.len() ==> (#[trigger] self.entries@[i]).0
                != (#[trigger] self.entries@[j]).0
    }

    /// The table's entries in their storage order, exposed so a snapshot can
    /// be described exactly; no meaning attaches to the order itself.
    pub closed spec fn seq_view(self) -> Seq<(u32, Control)> {
        self.entries@
    }

    /// An empty table, as stands at device-open time.
    pub fn new() -> (r: ControlRegistry)
        ensures
            r@ == Map::<u32, Control>::empty(),
            r.wf(),
            r.seq_view() == Seq::<(u32, Control)>::empty(),
    {
        ControlRegistry { entries: Vec::new() }
    }

    /// The index holding `addr`, if any.
    fn find(&self, addr: u32) -> (r: Option<usize>)
        ensures
            match r {
                Some(i) => i < self.entries@.len() && self.entries@[i as int].0 == addr,
                None => forall|i: int|
                    0 <= i < self.entries@.len() ==> (#[trigger] self.entries@[i]).0 != addr,
            },
    {
        let n = self.entries.len();
        for i in 0..n
            invariant
                n == self.entries@.len(),
                forall|j: int| 0 <= j < i ==> (#[trigger] self.entries@[j]).0 != addr,
        {
            if self.entries[i].0 == addr {
                return Some(i);
            }
        }
        None
    }

    /// A description event: insert or replace the control at `addr`.
    ///
    /// An address already present is re-described, which replaces its whole
    /// record; a new address extends the table.  Either way the table becomes
    /// the old mapping with `addr` bound to `control`.
    pub fn on_description(&mut self, addr: u32, control: Control)
        requires
            old(self).wf(),
        ensures
            final(self).wf(),
            final(self)@ == old(self)@.insert(addr, control),
    {
        match self.find(addr) {
            Some(i) => {
                proof {
                    lemma_map_of_update(self.entries@, i as int, addr, control);
                }
                self.entries[i] = (addr, control);
            }
            None => {
                proof {
                    lemma_map_of_push(self.entries@, addr, control);
                }
                self.entries.push((addr, control));
            }
        }
    }

    /// A value event: if `addr` was described, replace its value wholesale
    /// and hand back the fully updated record for notification; otherwise do
    /// nothing at all.
    ///
    /// The record handed back is exactly the record left in the table: a
    /// notified callback never sees a stale or partially-updated control.
    pub fn on_value(&mut self, addr: u32, value: u8) -> (r: Option<Control>)
        requires
            old(self).wf(),
        ensures
            final(self).wf(),
            old(self)@.contains_key(addr) ==> final(self)@ == old(self)@.insert(
                addr,
                old(self)@[addr].with_value(value),
            ),
            old(self)@.contains_key(addr) ==> r == Some(old(self)@[addr].with_value(value)),
            !old(self)@.contains_key(addr) ==> final(self)@ == old(self)@ && r is None,
            r is Some ==> final(self)@.contains_key(addr) && r == Some(final(self)@[addr]),
    {
        proof {
            lemma_map_of_contains(self.entries@, addr);
        }
        match self.find(addr) {
            Some(i) => {
                proof {
                    lemma_map_of_index(self.entries@, i as int);
                }
                let updated = self.entries[i].1.replaced(value);
                let delivered = updated.duplicate();
                proof {
                    lemma_map_of_update(self.entries@, i as int, addr, updated);
                }
                self.entries[i] = (addr, updated);
                Some(delivered)
            }
            None => None,
        }
    }

    /// A snapshot of every control currently in the table, in no meaningful
    /// order.  Each element is a full copy of a record the table holds at the
    /// moment of the call — nothing torn, nothing stale — and the snapshot
    /// holds exactly one element per table address: its slots carry distinct
    /// addresses, and every address of the table appears in one.
    pub fn controls(&self) -> (r: Vec<Control>)
        requires
            self.wf(),
        ensures
            r@.len() == self@.dom().len(),
            r@.len() == self.seq_view().len(),
            forall|i: int| 0 <= i < r@.len() ==> r@[i] == (#[trigger] self.seq_view()[i]).1,
            forall|i: int|
                0 <= i < r@.len() ==> self@.contains_key((#[trigger] self.seq_view()[i]).0)
                    && r@[i] == self@[self.seq_view()[i].0],
            forall|i: int, j: int|
                0 <= i < j < self.seq_view().len() ==> (#[trigger] self.seq_view()[i]).0
                    != (#[trigger] self.seq_view()[j]).0,
            forall|k: u32|
                #[trigger] self@.contains_key(k) ==> exists|i: int|
                    0 <= i < self.seq_view().len() && (#[trigger] self.seq_view()[i]).0 == k,
    {
        let n = self.entries.len();
        let mut r: Vec<Control> = Vec::new();
        for i in 0..n
            invariant
                n == self.entries@.len(),
                r@.len() == i,
                forall|j: int| 0 <= j < i ==> r@[j] == (#[trigger] self.entries@[j]).1,
        {
            r.push(self.entries[i].1.duplicate());
        }
        proof {
            lemma_map_of_dom_len(self.entries@);
            assert forall|i: int| 0 <= i < r@.len() implies self@.contains_key(
                (#[trigger] self.seq_view()[i]).0,
            ) && r@[i] == self@[self.seq_view()[i].0] by {
                lemma_map_of_index(self.entries@, i);
            }
            assert forall|k: u32| #[trigger] self@.contains_key(k) implies exists|i: int|
                0 <= i < self.seq_view().len() && (#[trigger] self.seq_view()[i]).0 == k by {
                lemma_map_of_contains(self.entries@, k);
                let i = choose|i: int|
                    0 <= i < self.entries@.len() && (#[trigger] self.entries@[i]).0 == k;
                assert(0 <= i < self.seq_view().len() && self.seq_view()[i].0 == k);
            }
        }
        r
    }

    /// How many controls the table holds.
    pub fn len(&self) -> (n: usize)
        requires
            self.wf(),
        ensures
            n == self@.dom().len(),
            n == self.seq_view().len(),
    {
        proof {
            lemma_map_of_dom_len(self.entries@);
        }
        self.entries.len()
    }
}

proof fn lemma_map_of_dom_len(s: Seq<(u32, Control)>)
    requires
        forall|p: int, q: int| 0 <= p < q < s.len() ==> (#[trigger] s[p]).0 != (#[trigger] s[q]).0,
    ensures
        map_of(s).dom().finite(),
        map_of(s).dom().len() == s.len(),
    decreases s.len(),
{
    if s.len() > 0 {
        lemma_map_of_dom_len(s.drop_last());
        lemma_map_of_contains(s.drop_last(), s.last().0);
        assert forall|i: int| 0 <= i < s.drop_last().len() implies (#[trigger] s.drop_last()[i]).0
            != s.last().0 by {
            assert(s.drop_last()[i] == s[i]);
        }
        assert(!map_of(s.drop_last()).contains_key(s.last().0));
    }
}

proof fn lemma_map_of_push(s: Seq<(u32, Control)>, addr: u32, c: Control)
    ensures
        map_of(s.push((addr, c))) == map_of(s).insert(addr, c),
{
    assert(s.push((addr, c)).drop_last() == s);
}

proof fn lemma_map_of_update(s: Seq<(u32, Control)>, i: int, addr: u32, c: Control)
    requires
        forall|p: int, q: int| 0 <= p < q < s.len() ==> (#[trigger] s[p]).0 != (#[trigger] s[q]).0,
        0 <= i < s.len(),
        s[i].0 == addr,
    ensures
        map_of(s.update(i, (addr, c))) == map_of(s).insert(addr, c),
    decreases s.len(),
{
    let t = s.update(i, (addr, c));
    if i == s.len() - 1 {
        assert(t.drop_last() == s.drop_last());
        assert(t.last() == (addr, c));
        assert(map_of(t) == map_of(s.drop_last()).insert(addr, c));
        assert(map_of(s).insert(addr, c) =~= map_of(s.drop_last()).insert(addr, c));
    } else {
        assert(t.drop_last() == s.drop_last().update(i, (addr, c)));
        assert(t.last() == s.last());
        assert(s.drop_last()[i] == s[i]);
        lemma_map_of_update(s.drop_last(), i, addr, c);
        // the updated address differs from the last entry's, so the two
        // inserts commute
        assert(addr != s.last().0);
        assert(map_of(s.drop_last()).insert(addr, c).insert(s.last().0, s.last().1) =~= map_of(
            s.drop_last(),
        ).insert(s.last().0, s.last().1).insert(addr, c));
    }
}

proof fn lemma_map_of_contains(s: Seq<(u32, Control)>, k: u32)
    ensures
        map_of(s).contains_key(k) <==> exists|i: int| 0 <= i < s.len() && (#[trigger] s[i]).0 == k,
    decreases s.len(),
{
    if s.len() > 0 {
        lemma_map_of_contains(s.drop_last(), k);
        if s.last().0 == k {
            assert(s[s.len() - 1].0 == k);
        } else if map_of(s).contains_key(k) {
            let i = choose|i: int| 0 <= i < s.drop_last().len() && (#[trigger] s.drop_last()[i]).0 == k;
            assert(s[i].0 == k);
        } else {
            assert forall|i: int| 0 <= i < s.len() implies (#[trigger] s[i]).0 != k by {
                if i < s.len() - 1 {
                    assert(s.drop_last()[i] == s[i]);
                }
            }
        }
    }
}

proof fn lemma_map_of_index(s: Seq<(u32, Control)>, i: int)
    requires
        forall|p: int, q: int| 0 <= p < q < s.len() ==> (#[trigger] s[p]).0 != (#[trigger] s[q]).0,
        0 <= i < s.len(),
    ensures
        map_of(s).contains_key(s[i].0),
        map_of(s)[s[i].0] == s[i].1,
    decreases s.len(),
{
    if i == s.len() - 1 {
        assert(map_of(s) == map_of(s.drop_last()).insert(s.last().0, s.last().1));
    } else {
        assert(s.drop_last()[i] == s[i]);
        lemma_map_of_index(s.drop_last(), i);
        assert(s[i].0 != s.last().0);
    }
}

} // verus!
