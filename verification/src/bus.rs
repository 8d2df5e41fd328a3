//! The in-process notification bus: fan-out of relay events to live
//! observers.
//!
//! Publication is fire-and-forget: a publish appends to every subscriber's
//! queue, and a subscriber that has fallen a full capacity behind loses its
//! oldest message rather than slowing the publisher. The event store, not
//! the bus, is the durable record.

use vstd::prelude::*;

verus! {

/// The message one successful attestation publishes.
pub struct AttestationNotice {
    pub kind: String,
    pub hash_hex: String,
    pub src_tx: String,
    pub lt: u64,
    pub utime: u64,
    pub amount_raw: String,
}

/// The mathematical view of a notice.
#[verifier::ext_equal]
pub ghost struct NoticeView {
    pub kind: Seq<char>,
    pub hash_hex: Seq<char>,
    pub src_tx: Seq<char>,
    pub lt: u64,
    pub utime: u64,
    pub amount_raw: Seq<char>,
}

impl View for AttestationNotice {
    type V = NoticeView;

    open spec fn view(&self) -> NoticeView {
        NoticeView {
            kind: self.kind@,
            hash_hex: self.hash_hex@,
            src_tx: self.src_tx@,
            lt: self.lt,
            utime: self.utime,
            amount_raw: self.amount_raw@,
        }
    }
}

impl Clone for AttestationNotice {
    fn clone(&self) -> (r: Self)
        ensures
            r@ == self@,
    {
        AttestationNotice {
            kind: self.kind.clone(),
            hash_hex: self.hash_hex.clone(),
            src_tx: self.src_tx.clone(),
            lt: self.lt,
            utime: self.utime,
            amount_raw: self.amount_raw.clone(),
        }
    }
}

/// The mathematical state of the bus: one bounded queue per subscriber.
#[verifier::ext_equal]
pub ghost struct BusView {
    pub capacity: nat,
    pub queues: Seq<Seq<NoticeView>>,
}

/// Every queue respects the capacity, which is positive.
pub open spec fn bus_wf(b: BusView) -> bool {
    &&& b.capacity >= 1
    &&& forall|i: int| 0 <= i < b.queues.len() ==> (#[trigger] b.queues[i]).len() <= b.capacity
}

/// What one queue holds after a publish: the message appended, behind the
/// oldest entry dropped if the subscriber had fallen a full capacity behind.
pub open spec fn queue_after_publish(q: Seq<NoticeView>, m: NoticeView, cap: nat) -> Seq<
    NoticeView,
> {
    if q.len() < cap {
        q.push(m)
    } else {
        q.drop_first().push(m)
    }
}

/// The view of one exec queue.
pub open spec fn queue_view(q: Seq<AttestationNotice>) -> Seq<NoticeView> {
    q.map_values(|n: AttestationNotice| n@)
}

/// The in-process broadcast bus.
pub struct Bus {
    capacity: usize,
    queues: Vec<Vec<AttestationNotice>>,
}

impl View for Bus {
    type V = BusView;

    closed spec fn view(&self) -> BusView {
        BusView {
            capacity: self.capacity as nat,
            queues: self.queues@.map_values(|q: Vec<AttestationNotice>| queue_view(q@)),
        }
    }
}

impl Bus {
    /// A bus with no subscribers whose queues will hold up to `capacity`
    /// messages each.
    pub fn new(capacity: usize) -> (r: Bus)
        requires
            capacity >= 1,
        ensures
            r@.capacity == capacity,
            r@.queues == Seq::<Seq<NoticeView>>::empty(),
            bus_wf(r@),
    {
        let r = Bus { capacity, queues: Vec::new() };
        proof {
            assert(r@.queues =~~= Seq::<Seq<NoticeView>>::empty());
        }
        r
    }

    /// Attaches an observer; it receives every message published after this
    /// call. The returned identifier addresses its queue.
    pub fn subscribe(&mut self) -> (id: usize)
        requires
            bus_wf(old(self)@),
        ensures
            bus_wf(final(self)@),
            final(self)@.capacity == old(self)@.capacity,
            id == old(self)@.queues.len(),
            final(self)@.queues == old(self)@.queues.push(Seq::<NoticeView>::empty()),
    {
        let id = self.queues.len();
        self.queues.push(Vec::new());
        proof {
            assert(self@.queues =~~= old(self)@.queues.push(Seq::<NoticeView>::empty()));
        }
        id
    }

    /// Publishes a message to every subscriber, dropping the oldest entry of
    /// any queue that is full. Never blocks and never fails: a slow observer
    /// costs messages, not relay liveness.
    pub fn publish(&mut self, m: &AttestationNotice)
        requires
            bus_wf(old(self)@),
        ensures
            bus_wf(final(self)@),
            final(self)@.capacity == old(self)@.capacity,
            final(self)@.queues.len() == old(self)@.queues.len(),
            forall|i: int|
                0 <= i < old(self)@.queues.len() ==> (#[trigger] final(self)@.queues[i])
                    == queue_after_publish(old(self)@.queues[i], m@, old(self)@.capacity),
    {
        let n = self.queues.len();
        let mut i: usize = 0;
        while i < n
            invariant
                i <= n,
                n == self.queues@.len(),
                self@.capacity == old(self)@.capacity,
                self@.queues.len() == old(self)@.queues.len(),
                bus_wf(old(self)@),
                forall|k: int| i <= k < n ==> (#[trigger] self@.queues[k]) == old(self)@.queues[k],
                forall|k: int|
                    0 <= k < i ==> (#[trigger] self@.queues[k]) == queue_after_publish(
                        old(self)@.queues[k],
                        m@,
                        old(self)@.capacity,
                    ),
            decreases n - i,
        {
            let ghost pre_loop = self@;
            let qlen = self.queues[i].len();
            let drop_front = qlen >= self.capacity;
            let mut newq: Vec<AttestationNotice> = Vec::new();
            let mut j: usize = if drop_front {
                1
            } else {
                0
            };
            let ghost jstart = j as int;
            proof {
                assert(queue_view(newq@) =~~= queue_view(self.queues@[i as int]@).subrange(
                    jstart,
                    j as int,
                ));
            }
            while j < qlen
                invariant
                    jstart <= j <= qlen,
                    0 <= jstart <= 1,
                    i < n,
                    n == self.queues@.len(),
                    qlen == self.queues@[i as int]@.len(),
                    queue_view(newq@) == queue_view(self.queues@[i as int]@).subrange(
                        jstart,
                        j as int,
                    ),
                decreases qlen - j,
            {
                let item = self.queues[i][j].clone();
                proof {
                    assert(item@ == self.queues@[i as int]@[j as int]@);
                    assert(queue_view(self.queues@[i as int]@)[j as int] == self.queues@[i as int]@[j as int]@);
                }
                let ghost prevq = newq@;
                newq.push(item);
                j = j + 1;
                proof {
                    let src = queue_view(self.queues@[i as int]@);
                    assert(queue_view(newq@) =~~= queue_view(prevq).push(item@));
                    assert(queue_view(prevq).push(item@) =~~= src.subrange(jstart, j as int));
                    assert(queue_view(newq@) == src.subrange(jstart, j as int));
                }
            }
            newq.push(m.clone());
            proof {
                let cap = self@.capacity;
                let oldq = queue_view(self.queues@[i as int]@);
                assert(self@.queues[i as int] == oldq);
                assert(oldq.len() == qlen);
                assert(queue_view(newq@) =~~= oldq.subrange(jstart, qlen as int).push(m@));
                if drop_front {
                    assert(oldq.subrange(1, qlen as int) =~~= oldq.drop_first());
                } else {
                    assert(oldq.subrange(0, qlen as int) =~~= oldq);
                }
                assert(queue_view(newq@) =~~= queue_after_publish(oldq, m@, cap));
            }
            let ghost newq_v = queue_view(newq@);
            self.queues.set(i, newq);
            proof {
                assert(self@.queues =~~= pre_loop.queues.update(i as int, newq_v));
                assert(self@.queues[i as int] == queue_after_publish(
                    pre_loop.queues[i as int],
                    m@,
                    old(self)@.capacity,
                ));
                assert(pre_loop.queues[i as int] == old(self)@.queues[i as int]);
            }
            i = i + 1;
        }
        proof {
            assert forall|i2: int| 0 <= i2 < self@.queues.len() implies (
            #[trigger] self@.queues[i2]).len() <= self@.capacity by {
                let oldq = old(self)@.queues[i2];
                assert(oldq.len() <= old(self)@.capacity);
                assert(self@.queues[i2] == queue_after_publish(oldq, m@, old(self)@.capacity));
            }
        }
    }

    /// Takes everything a subscriber's queue holds, oldest first, leaving it
    /// empty. An unknown identifier yields nothing.
    pub fn drain(&mut self, id: usize) -> (r: Vec<AttestationNotice>)
        requires
            bus_wf(old(self)@),
        ensures
            bus_wf(final(self)@),
            final(self)@.capacity == old(self)@.capacity,
            final(self)@.queues.len() == old(self)@.queues.len(),
            if id < old(self)@.queues.len() {
                &&& queue_view(r@) == old(self)@.queues[id as int]
                &&& final(self)@.queues[id as int] == Seq::<NoticeView>::empty()
                &&& forall|k: int|
                    0 <= k < old(self)@.queues.len() && k != id ==> (
                    #[trigger] final(self)@.queues[k]) == old(self)@.queues[k]
            } else {
                r@.len() == 0 && final(self)@ == old(self)@
            },
    {
        if id >= self.queues.len() {
            return Vec::new();
        }
        let qlen = self.queues[id].len();
        let mut out: Vec<AttestationNotice> = Vec::new();
        proof {
            assert(queue_view(out@) =~~= queue_view(self.queues@[id as int]@).subrange(0, 0));
        }
        let mut j: usize = 0;
        while j < qlen
            invariant
                j <= qlen,
                id < self.queues@.len(),
                qlen == self.queues@[id as int]@.len(),
                queue_view(out@) == queue_view(self.queues@[id as int]@).subrange(0, j as int),
            decreases qlen - j,
        {
            let item = self.queues[id][j].clone();
            proof {
                assert(item@ == self.queues@[id as int]@[j as int]@);
                assert(queue_view(self.queues@[id as int]@)[j as int] == self.queues@[id as int]@[j
                    as int]@);
            }
            let ghost prev = out@;
            out.push(item);
            j = j + 1;
            proof {
                let src = queue_view(self.queues@[id as int]@);
                assert(queue_view(out@) =~~= queue_view(prev).push(item@));
                assert(queue_view(prev).push(item@) =~~= src.subrange(0, j as int));
                assert(queue_view(out@) == src.subrange(0, j as int));
            }
        }
        proof {
            assert(queue_view(self.queues@[id as int]@) == self@.queues[id as int]);
            assert(self@.queues[id as int].subrange(0, qlen as int) =~~= self@.queues[id as int]);
        }
        self.queues.set(id, Vec::new());
        proof {
            assert(self@.queues =~~= old(self)@.queues.update(
                id as int,
                Seq::<NoticeView>::empty(),
            ));
        }
        out
    }

    /// How many observers are attached.
    pub fn subscriber_count(&self) -> (r: usize)
        ensures
            r == self@.queues.len(),
    {
        self.queues.len()
    }
}

} // verus!
