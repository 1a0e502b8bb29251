//! The single-producer, single-consumer ring of records: two cursors that
//! only grow, and a fixed array of slots indexed by the cursors modulo the
//! capacity.
use crate::record::{Action, Record, Side, Source};
use vstd::prelude::*;

verus! {

/// The number of slots, a power of two.
pub const CAPACITY: u64 = 16384;

/// The slot that the producer may write next, given both cursors: the write
/// cursor's slot while fewer than `CAPACITY` records are unread, and `None`
/// while the ring is full (the producer then waits for the consumer).
pub fn publish_slot(write_index: u64, read_index: u64) -> (r: Option<usize>)
    requires
        read_index <= write_index,
    ensures
        r is Some <==> write_index - read_index < CAPACITY,
        r is Some ==> r->Some_0 == write_index % CAPACITY,
{
    if write_index - read_index >= CAPACITY {
        None
    } else {
        Some((write_index % CAPACITY) as usize)
    }
}

/// The slot that the consumer may read next, given both cursors: the read
/// cursor's slot while a record is unread, and `None` while the ring is empty.
pub fn consume_slot(write_index: u64, read_index: u64) -> (r: Option<usize>)
    requires
        read_index <= write_index,
    ensures
        r is Some <==> read_index < write_index,
        r is Some ==> r->Some_0 == read_index % CAPACITY,
{
    if read_index == write_index {
        None
    } else {
        Some((read_index % CAPACITY) as usize)
    }
}

/// Two cursors less than `CAPACITY` apart never share a slot.
proof fn lemma_distinct_slots(r: int, i: int, n: int)
    requires
        r >= 0,
        0 <= i < n,
        n - i < CAPACITY,
    ensures
        (r + i) % (CAPACITY as int) != (r + n) % (CAPACITY as int),
{
    let c = CAPACITY as int;
    vstd::arithmetic::div_mod::lemma_fundamental_div_mod(r + i, c);
    vstd::arithmetic::div_mod::lemma_fundamental_div_mod(r + n, c);
    if (r + i) % c == (r + n) % c {
        let qa = (r + i) / c;
        let qb = (r + n) / c;
        assert(n - i == c * (qb - qa)) by (nonlinear_arith)
            requires
                r + i == c * qa + (r + i) % c,
                r + n == c * qb + (r + n) % c,
                (r + i) % c == (r + n) % c,
        ;
        assert(false) by (nonlinear_arith)
            requires
                n - i == c * (qb - qa),
                0 < n - i < c,
        ;
    }
}

/// A ring held in this process's memory, following the same cursor
/// discipline as the shared one.
pub struct RingBuffer {
    slots: Vec<Record>,
    write_index: u64,
    read_index: u64,
}

impl RingBuffer {
    /// The producer's cursor: how many records were ever published.
    pub closed spec fn writes(&self) -> nat {
        self.write_index as nat
    }

    /// The consumer's cursor: how many records were ever consumed.
    pub closed spec fn reads(&self) -> nat {
        self.read_index as nat
    }

    /// The slots hold `CAPACITY` records and the cursors are at most
    /// `CAPACITY` apart, the write cursor ahead.
    pub closed spec fn wf(&self) -> bool {
        &&& self.slots@.len() == CAPACITY
        &&& self.read_index <= self.write_index
        &&& self.write_index - self.read_index <= CAPACITY
    }

    /// The records published and not yet consumed, oldest first.
    pub closed spec fn pending(&self) -> Seq<Record> {
        Seq::new(
            (self.write_index - self.read_index) as nat,
            |i: int| self.slots@[(self.read_index + i) % (CAPACITY as int)],
        )
    }

    /// What a well-formed ring shows of its cursors.
    pub proof fn lemma_cursors(&self)
        requires
            self.wf(),
        ensures
            self.reads() <= self.writes() <= self.reads() + CAPACITY,
            self.pending().len() == self.writes() - self.reads(),
    {
    }

    /// An empty ring with both cursors at zero.
    pub fn new() -> (r: RingBuffer)
        ensures
            r.wf(),
            r.writes() == 0,
            r.reads() == 0,
            r.pending() == Seq::<Record>::empty(),
    {
        let blank = Record {
            id: 0,
            price: 0,
            size: 0,
            side: Side::Bid,
            action: Action::Upsert,
            source: Source::Book,
        };
        let mut slots: Vec<Record> = Vec::new();
        while (slots.len() as u64) < CAPACITY
            invariant
                slots@.len() <= CAPACITY,
            decreases CAPACITY - slots@.len(),
        {
            slots.push(blank);
        }
        let r = RingBuffer { slots, write_index: 0, read_index: 0 };
        assert(r.pending() =~= Seq::<Record>::empty());
        r
    }

    /// The producer's cursor.
    pub fn write_index(&self) -> (r: u64)
        ensures
            r == self.writes(),
    {
        self.write_index
    }

    /// The consumer's cursor.
    pub fn read_index(&self) -> (r: u64)
        ensures
            r == self.reads(),
    {
        self.read_index
    }

    /// How many records wait for the consumer.
    pub fn len(&self) -> (r: u64)
        requires
            self.wf(),
        ensures
            r == self.pending().len(),
    {
        self.write_index - self.read_index
    }

    /// Publishes `rec` where a slot is free; returns whether it was. A full
    /// ring is left as it is: the producer retries once the consumer has
    /// advanced, so no record is dropped.
    pub fn try_publish(&mut self, rec: Record) -> (r: bool)
        requires
            old(self).wf(),
            old(self).writes() < u64::MAX,
        ensures
            final(self).wf(),
            r == (old(self).pending().len() < CAPACITY),
            r ==> final(self).pending() == old(self).pending().push(rec),
            r ==> final(self).writes() == old(self).writes() + 1,
            !r ==> final(self).pending() == old(self).pending(),
            !r ==> final(self).writes() == old(self).writes(),
            final(self).reads() == old(self).reads(),
    {
        match publish_slot(self.write_index, self.read_index) {
            None => false,
            Some(slot) => {
                let ghost before = self.pending();
                self.slots.set(slot, rec);
                self.write_index = self.write_index + 1;
                proof {
                    let n = before.len() as int;
                    let r0 = self.read_index as int;
                    assert forall|i: int| 0 <= i < n implies #[trigger] self.pending()[i] == before[i] by {
                        lemma_distinct_slots(r0, i, n);
                    }
                    assert(self.pending() =~= before.push(rec));
                }
                true
            },
        }
    }

    /// Takes the oldest unread record, where there is one.
    pub fn try_consume(&mut self) -> (r: Option<Record>)
        requires
            old(self).wf(),
        ensures
            final(self).wf(),
            r is None <==> old(self).pending().len() == 0,
            r is None ==> final(self).pending() == old(self).pending() && final(self).reads() == old(self).reads(),
            r is Some ==> r->Some_0 == old(self).pending()[0],
            r is Some ==> final(self).pending() == old(self).pending().drop_first(),
            r is Some ==> final(self).reads() == old(self).reads() + 1,
            final(self).writes() == old(self).writes(),
    {
        match consume_slot(self.write_index, self.read_index) {
            None => None,
            Some(slot) => {
                let ghost before = self.pending();
                let rec = self.slots[slot];
                self.read_index = self.read_index + 1;
                proof {
                    assert(self.pending() =~= before.drop_first());
                }
                Some(rec)
            },
        }
    }
}

} // verus!
