use vstd::prelude::*;

verus! {

/// The payloads of the records that are still unconsumed, in buffer order.
pub open spec fn unconsumed<E>(s: Seq<Option<E>>) -> Seq<E>
    decreases s.len(),
{
    if s.len() == 0 {
        Seq::empty()
    } else {
        let rest = unconsumed(s.drop_last());
        match s.last() {
            Some(e) => rest.push(e),
            None => rest,
        }
    }
}

/// Reading the concatenation of two buffers reads the first, then the second.
pub proof fn lemma_unconsumed_concat<E>(s: Seq<Option<E>>, t: Seq<Option<E>>)
    ensures
        unconsumed(s + t) == unconsumed(s) + unconsumed(t),
    decreases t.len(),
{
    if t.len() == 0 {
        assert(s + t =~= s);
        assert(unconsumed(t) =~= Seq::<E>::empty());
        assert(unconsumed(s) + unconsumed(t) =~= unconsumed(s));
    } else {
        lemma_unconsumed_concat(s, t.drop_last());
        assert((s + t).drop_last() =~= s + t.drop_last());
        assert((s + t).last() == t.last());
        match t.last() {
            Some(e) => {
                assert(unconsumed(s) + unconsumed(t.drop_last()).push(e)
                    =~= (unconsumed(s) + unconsumed(t.drop_last())).push(e));
            },
            None => {},
        }
    }
}

/// Each payload as a fresh, unconsumed record.
pub open spec fn records_of<E>(ps: Seq<E>) -> Seq<Option<E>> {
    ps.map_values(|e: E| Some(e))
}

/// Fresh records read back as exactly their payloads.
pub proof fn lemma_unconsumed_records_of<E>(ps: Seq<E>)
    ensures
        unconsumed(records_of(ps)) == ps,
    decreases ps.len(),
{
    if ps.len() == 0 {
        assert(records_of(ps) =~= Seq::<Option<E>>::empty());
        assert(ps =~= Seq::<E>::empty());
    } else {
        lemma_unconsumed_records_of(ps.drop_last());
        assert(records_of(ps).drop_last() =~= records_of(ps.drop_last()));
        assert(ps.drop_last().push(ps.last()) =~= ps);
    }
}

/// Reading from `i` on reads the record at `i`, if unconsumed, then the rest.
pub proof fn lemma_unconsumed_skip<E>(s: Seq<Option<E>>, i: int)
    requires
        0 <= i < s.len(),
    ensures
        unconsumed(s.skip(i)) == match s[i] {
            Some(e) => seq![e] + unconsumed(s.skip(i + 1)),
            None => unconsumed(s.skip(i + 1)),
        },
{
    let head = seq![s[i]];
    assert(s.skip(i) =~= head + s.skip(i + 1));
    lemma_unconsumed_concat(head, s.skip(i + 1));
    assert(head.drop_last() =~= Seq::<Option<E>>::empty());
    assert(unconsumed(head.drop_last()) =~= Seq::<E>::empty());
    match s[i] {
        Some(e) => {
            assert(unconsumed(head) =~= seq![e]);
        },
        None => {
            assert(unconsumed(head) =~= Seq::<E>::empty());
            assert(unconsumed(head) + unconsumed(s.skip(i + 1)) =~= unconsumed(s.skip(i + 1)));
        },
    }
}

/// A record store for one event type, in the order the events were sent.
/// `None` marks a consumed record.
pub struct ConsumableEvents<E> {
    events: Vec<Option<E>>,
}

impl<E> View for ConsumableEvents<E> {
    type V = Seq<Option<E>>;

    closed spec fn view(&self) -> Seq<Option<E>> {
        self.events@
    }
}

impl<E> Default for ConsumableEvents<E> {
    fn default() -> (r: Self)
        ensures
            r@ == Seq::<Option<E>>::empty(),
    {
        ConsumableEvents::new()
    }
}

impl<E> ConsumableEvents<E> {
    /// An empty buffer.
    pub fn new() -> (r: Self)
        ensures
            r@ == Seq::<Option<E>>::empty(),
    {
        ConsumableEvents { events: Vec::new() }
    }

    /// Whether the record at `i` exists and has not been consumed.
    pub open spec fn is_unconsumed(&self, i: int) -> bool {
        0 <= i < self@.len() && self@[i] is Some
    }

    /// Number of records held, consumed ones included.
    pub fn len(&self) -> (r: usize)
        ensures
            r == self@.len(),
    {
        self.events.len()
    }

    /// "Sends" `event` by writing it, unconsumed, at the end of the buffer.
    pub fn send(&mut self, event: E)
        ensures
            final(self)@ == old(self)@.push(Some(event)),
    {
        self.events.push(Some(event));
    }

    /// Starts a read pass over the unconsumed records, from the first one.
    pub fn read(&self) -> (r: ConsumableEventIterator)
        ensures
            r.position() == 0,
            r.remaining(self@) == unconsumed(self@),
    {
        proof {
            assert(self@.skip(0) =~= self@);
        }
        ConsumableEventIterator { pos: 0 }
    }

    /// Sends `events` all at once, in their order, after one reservation.
    pub fn send_batch(&mut self, events: Vec<E>)
        ensures
            final(self)@ == old(self)@ + records_of(events@),
    {
        self.events.reserve(events.len());
        let ghost start = self@;
        for e in it: events
            invariant
                it.seq() == events@,
                self@ == start + records_of(it.seq().take(it.index() as int)),
        {
            proof {
                let ps = it.seq();
                let i = it.index() as int;
                assert(ps.take(i + 1) =~= ps.take(i).push(ps[i]));
                assert(records_of(ps.take(i + 1)) =~= records_of(ps.take(i)).push(Some(ps[i])));
            }
            self.events.push(Some(e));
        }
        assert(self@ =~= start + records_of(events@));
    }

    /// Sends the default value of the event type.
    pub fn send_default(&mut self)
        where
            E: Default,
        ensures
            exists|d: E| call_ensures(E::default, (), d) && final(self)@ == old(self)@.push(Some(d)),
    {
        let d = E::default();
        self.send(d);
    }

    /// Removes every record, consumed or not.
    pub fn clear(&mut self)
        ensures
            final(self)@ == Seq::<Option<E>>::empty(),
    {
        self.events.clear();
    }

    /// Removes the consumed records; the unconsumed ones stay, in their order.
    pub fn clear_consumed(&mut self)
        ensures
            final(self)@ == records_of(unconsumed(old(self)@)),
    {
        let mut old_events: Vec<Option<E>> = Vec::new();
        std::mem::swap(&mut self.events, &mut old_events);
        let ghost before = old_events@;
        let n = old_events.len();
        let mut i: usize = 0;
        while i < n
            invariant
                n == before.len(),
                i <= n,
                old_events@.len() == n,
                forall|k: int| i <= k < n ==> old_events@[k] == before[k],
                self@ == records_of(unconsumed(before.take(i as int))),
            decreases n - i,
        {
            let slot = old_events[i].take();
            proof {
                assert(before.take(i + 1).drop_last() =~= before.take(i as int));
            }
            match slot {
                Some(e) => {
                    self.events.push(Some(e));
                    proof {
                        assert(records_of(unconsumed(before.take(i as int)).push(e))
                            =~= records_of(unconsumed(before.take(i as int))).push(Some(e)));
                    }
                },
                None => {},
            }
            i = i + 1;
        }
        proof {
            assert(before.take(n as int) =~= before);
        }
    }

    /// Takes one step of `pass`: consumes the next unconsumed record ahead of
    /// it and hands its payload out, or `None` when none is left ahead.
    pub fn consume_next(&mut self, pass: &mut ConsumableEventIterator) -> (r: Option<E>)
        ensures
            match r {
                None => {
                    &&& old(pass).remaining(old(self)@) == Seq::<E>::empty()
                    &&& final(self)@ == old(self)@
                    &&& forall|k: int|
                        old(pass).position() <= k < old(self)@.len() ==> old(self)@[k] is None
                },
                Some(e) => exists|k: int|
                    {
                        &&& old(pass).position() <= k < old(self)@.len()
                        &&& old(self)@[k] == Some(e)
                        &&& forall|j: int| old(pass).position() <= j < k ==> old(self)@[j] is None
                        &&& final(self)@ == old(self)@.update(k, None)
                        &&& final(pass).position() == k + 1
                        &&& old(pass).remaining(old(self)@) == seq![e] + final(pass).remaining(
                            final(self)@,
                        )
                    },
            },
    {
        match pass.next(self) {
            None => None,
            Some(event) => {
                let ghost k = event.index();
                let ghost before = self@;
                let e = event.consume(self);
                proof {
                    let p = k + 1;
                    assert(self@.skip(p) =~= before.skip(p));
                }
                Some(e)
            },
        }
    }

    /// Consumes every unconsumed record, and hands their payloads out in order.
    pub fn read_and_consume_all(&mut self) -> (r: Vec<E>)
        ensures
            r@ == unconsumed(old(self)@),
            final(self)@.len() == old(self)@.len(),
            forall|k: int| 0 <= k < final(self)@.len() ==> final(self)@[k] is None,
    {
        let ghost before = self@;
        let n = self.events.len();
        let mut out: Vec<E> = Vec::new();
        let mut i: usize = 0;
        while i < n
            invariant
                n == before.len(),
                i <= n,
                self@.len() == n,
                forall|k: int| 0 <= k < i ==> self@[k] is None,
                forall|k: int| i <= k < n ==> self@[k] == before[k],
                out@ == unconsumed(before.take(i as int)),
            decreases n - i,
        {
            let slot = self.events[i].take();
            proof {
                assert(before.take(i + 1).drop_last() =~= before.take(i as int));
            }
            match slot {
                Some(e) => {
                    out.push(e);
                },
                None => {},
            }
            i = i + 1;
        }
        proof {
            assert(before.take(n as int) =~= before);
        }
        out
    }
}

/// A handle on one unconsumed record, handed out by a read pass. The payload
/// is read, changed or consumed through the buffer the pass ran over.
pub struct Consume {
    index: usize,
}

impl Consume {
    /// Index of the record in its buffer.
    pub closed spec fn index(&self) -> int {
        self.index as int
    }

    /// Whether the record is still unconsumed in `events`, so that it can be
    /// read, changed or consumed there.
    pub fn is_live<E>(&self, events: &ConsumableEvents<E>) -> (r: bool)
        ensures
            r == events.is_unconsumed(self.index()),
    {
        self.index < events.events.len() && events.events[self.index].is_some()
    }

    /// The payload of the record.
    pub fn get<'a, E>(&self, events: &'a ConsumableEvents<E>) -> (r: &'a E)
        requires
            events.is_unconsumed(self.index()),
        ensures
            events@[self.index()] == Some(*r),
    {
        events.events[self.index].as_ref().unwrap()
    }

    /// The payload of the record, for changing it in place.
    pub fn get_mut<'a, E>(&self, events: &'a mut ConsumableEvents<E>) -> (r: &'a mut E)
        requires
            old(events).is_unconsumed(self.index()),
        ensures
            old(events)@[self.index()] == Some(*r),
            final(events)@ == old(events)@.update(self.index(), Some(*final(r))),
    {
        events.events[self.index].as_mut().unwrap()
    }

    /// Consumes the record: no read pass sees it again, and its payload is
    /// handed back.
    pub fn consume<E>(self, events: &mut ConsumableEvents<E>) -> (r: E)
        requires
            old(events).is_unconsumed(self.index()),
        ensures
            old(events)@[self.index()] == Some(r),
            final(events)@ == old(events)@.update(self.index(), None),
    {
        events.events[self.index].take().unwrap()
    }
}

/// A forward read pass over a buffer. Each step looks at the records as they
/// are at that moment, so records consumed meanwhile are skipped and every
/// unconsumed record ahead is still found.
pub struct ConsumableEventIterator {
    pos: usize,
}

impl ConsumableEventIterator {
    /// Index of the next record the pass will look at.
    pub closed spec fn position(&self) -> nat {
        self.pos as nat
    }

    /// The payloads this pass will still yield from `s` if nothing changes.
    pub open spec fn remaining<E>(&self, s: Seq<Option<E>>) -> Seq<E> {
        if self.position() <= s.len() {
            unconsumed(s.skip(self.position() as int))
        } else {
            Seq::empty()
        }
    }

    /// Moves to the next unconsumed record of `events` and hands it out, or
    /// `None` when no unconsumed record is left ahead.
    pub fn next<E>(&mut self, events: &ConsumableEvents<E>) -> (r: Option<Consume>)
        ensures
            match r {
                None => {
                    &&& old(self).remaining(events@) == Seq::<E>::empty()
                    &&& final(self).remaining(events@) == Seq::<E>::empty()
                    &&& final(self).position() == if old(self).position() >= events@.len() {
                        old(self).position()
                    } else {
                        events@.len() as nat
                    }
                    &&& forall|k: int|
                        old(self).position() <= k < events@.len() ==> events@[k] is None
                },
                Some(g) => {
                    &&& old(self).position() <= g.index()
                    &&& events.is_unconsumed(g.index())
                    &&& forall|k: int| old(self).position() <= k < g.index() ==> events@[k] is None
                    &&& final(self).position() == g.index() + 1
                    &&& old(self).remaining(events@) == seq![events@[g.index()]->Some_0]
                        + final(self).remaining(events@)
                },
            },
    {
        let n = events.events.len();
        if self.pos >= n {
            return None;
        }
        let mut i = self.pos;
        while i < n
            invariant
                n == events@.len(),
                old(self).pos <= i <= n,
                *self == *old(self),
                forall|k: int| old(self).pos <= k < i ==> events@[k] is None,
                unconsumed(events@.skip(old(self).pos as int)) == unconsumed(events@.skip(i as int)),
            decreases n - i,
        {
            proof {
                lemma_unconsumed_skip(events@, i as int);
            }
            if events.events[i].is_some() {
                self.pos = i + 1;
                return Some(Consume { index: i });
            }
            i = i + 1;
        }
        self.pos = n;
        proof {
            assert(events@.skip(n as int) =~= Seq::<Option<E>>::empty());
        }
        None
    }
}

} // verus!
