//! The order in which requests reach the engine.
//!
//! Every request draws a ticket. At most one ticket holds the engine at a
//! time; the others wait in the order in which they arrived, and the engine
//! passes to the oldest waiter as soon as its holder leaves.
use vstd::prelude::*;

verus! {

/// Tickets for exclusive access to the engine, granted first come, first served.
pub struct AccessQueue {
    next_ticket: u64,
    holder: Option<u64>,
    waiting: Vec<u64>,
}

/// The state of an [`AccessQueue`]: the next ticket to draw, the ticket that
/// holds the engine, and the waiting tickets, oldest first.
pub struct QueueView {
    pub next_ticket: nat,
    pub holder: Option<nat>,
    pub waiting: Seq<nat>,
}

impl View for AccessQueue {
    type V = QueueView;

    closed spec fn view(&self) -> QueueView {
        QueueView {
            next_ticket: self.next_ticket as nat,
            holder: match self.holder {
                Some(t) => Some(t as nat),
                None => None,
            },
            waiting: self.waiting@.map_values(|t: u64| t as nat),
        }
    }
}

impl QueueView {
    /// Tickets wait in the order they were drawn, each is drawn once, and
    /// nobody waits while the engine is free.
    pub open spec fn wf(self) -> bool {
        &&& forall|i: int, j: int|
            0 <= i < j < self.waiting.len() ==> #[trigger] self.waiting[i]
                < #[trigger] self.waiting[j]
        &&& forall|i: int| 0 <= i < self.waiting.len() ==> #[trigger] self.waiting[i] < self.next_ticket
        &&& forall|i: int| 0 <= i < self.waiting.len() ==> Some(#[trigger] self.waiting[i]) != self.holder
        &&& match self.holder {
            Some(h) => h < self.next_ticket,
            None => self.waiting.len() == 0,
        }
        &&& self.next_ticket <= u64::MAX
    }

    pub open spec fn is_waiting(self, t: nat) -> bool {
        self.waiting.contains(t)
    }

    /// How many times the engine must change hands before `t` holds it:
    /// 0 for the holder, one more than its place in line for a waiter.
    pub open spec fn rank(self, t: nat) -> nat {
        if self.holder == Some(t) {
            0
        } else {
            (self.waiting.index_of(t) + 1) as nat
        }
    }

    /// The queue after a new ticket is drawn: it holds the engine if the
    /// engine is free, else it joins the end of the line.
    pub open spec fn arrive(self) -> QueueView {
        match self.holder {
            None => QueueView {
                next_ticket: self.next_ticket + 1,
                holder: Some(self.next_ticket),
                waiting: self.waiting,
            },
            Some(_) => QueueView {
                next_ticket: self.next_ticket + 1,
                holder: self.holder,
                waiting: self.waiting.push(self.next_ticket),
            },
        }
    }

    /// The queue after ticket `t` leaves: a holder hands the engine to the
    /// oldest waiter, a waiter leaves the line, anything else changes nothing.
    pub open spec fn leave(self, t: nat) -> QueueView {
        if self.holder == Some(t) {
            if self.waiting.len() == 0 {
                QueueView { holder: None, ..self }
            } else {
                QueueView {
                    holder: Some(self.waiting[0]),
                    waiting: self.waiting.drop_first(),
                    ..self
                }
            }
        } else if self.waiting.contains(t) {
            QueueView { waiting: self.waiting.remove(self.waiting.index_of(t)), ..self }
        } else {
            self
        }
    }
}

/// In a line of strictly increasing tickets, a ticket's place is the one index
/// that holds it.
proof fn lemma_place_in_line(s: Seq<nat>, k: int)
    requires
        forall|i: int, j: int| 0 <= i < j < s.len() ==> #[trigger] s[i] < #[trigger] s[j],
        0 <= k < s.len(),
    ensures
        s.index_of(s[k]) == k,
{
    let m = s.index_of(s[k]);
    assert(s.contains(s[k]));
    assert(0 <= m < s.len() && s[m] == s[k]);
    if m < k {
        assert(s[m] < s[k]);
    } else if k < m {
        assert(s[k] < s[m]);
    }
}

/// Drawing a ticket and leaving both keep a well-formed queue well-formed.
pub proof fn lemma_queue_stays_well_formed(v: QueueView, t: nat)
    requires
        v.wf(),
    ensures
        v.leave(t).wf(),
        v.next_ticket < u64::MAX ==> v.arrive().wf(),
{
    let w = v.waiting;
    if v.holder == Some(t) {
        if w.len() > 0 {
            let d = w.drop_first();
            assert forall|i: int| 0 <= i < d.len() implies Some(#[trigger] d[i]) != Some(w[0]) by {
                assert(w[0] < w[i + 1]);
            }
        }
    } else if w.contains(t) {
        let m = w.index_of(t);
        let d = w.remove(m);
        assert forall|i: int, j: int| 0 <= i < j < d.len() implies #[trigger] d[i] < #[trigger] d[j] by {
            let a = if i < m { i } else { i + 1 };
            let b = if j < m { j } else { j + 1 };
            assert(d[i] == w[a] && d[j] == w[b]);
        }
        assert forall|i: int| 0 <= i < d.len() implies #[trigger] d[i] < v.next_ticket
            && Some(d[i]) != v.holder by {
            let a = if i < m { i } else { i + 1 };
            assert(d[i] == w[a]);
        }
    }
    if v.next_ticket < u64::MAX && v.holder is Some {
        let p = w.push(v.next_ticket);
        assert forall|i: int, j: int| 0 <= i < j < p.len() implies #[trigger] p[i] < #[trigger] p[j] by {
            if j == w.len() {
                assert(p[i] == w[i]);
            }
        }
        assert forall|i: int| 0 <= i < p.len() implies Some(#[trigger] p[i]) != v.holder by {
            if i < w.len() {
                assert(p[i] == w[i]);
            }
        }
    }
}

/// The engine has at most one holder, and it changes hands only when its
/// holder leaves: a new arrival gets the engine only when nobody holds it,
/// and a waiter who leaves takes nothing from the holder.
pub proof fn lemma_exclusive_access(v: QueueView, t: nat)
    requires
        v.wf(),
    ensures
        v.holder is Some ==> v.arrive().holder == v.holder,
        v.holder is None ==> v.arrive().holder == Some(v.next_ticket),
        v.holder != Some(t) ==> v.leave(t).holder == v.holder,
        forall|i: int| 0 <= i < v.waiting.len() ==> Some(#[trigger] v.waiting[i]) != v.holder,
{
}

/// No waiter starves. Whatever else happens, a ticket that neither leaves
/// nor holds the engine never loses its place: arrivals and other departures
/// never raise its rank, and each handover by the holder lowers it by one, so
/// it holds the engine after at most `rank` handovers.
pub proof fn lemma_no_starvation(v: QueueView, t: nat, u: nat)
    requires
        v.wf(),
        v.is_waiting(t),
        u != t,
    ensures
        v.rank(t) >= 1,
        v.next_ticket < u64::MAX ==> v.arrive().is_waiting(t) && v.arrive().rank(t) == v.rank(t),
        v.leave(u).holder == Some(t) || v.leave(u).is_waiting(t),
        v.leave(u).rank(t) <= v.rank(t),
        v.holder == Some(u) ==> v.leave(u).rank(t) == v.rank(t) - 1,
{
    let w = v.waiting;
    let k = w.index_of(t);
    assert(0 <= k < w.len() && w[k] == t);
    assert(v.holder != Some(t));
    if v.next_ticket < u64::MAX {
        let a = v.arrive();
        let p = w.push(v.next_ticket);
        assert(a.waiting == p);
        assert(p[k] == t);
        assert(p.contains(t));
        assert forall|i: int, j: int| 0 <= i < j < p.len() implies #[trigger] p[i] < #[trigger] p[j] by {
            if j == w.len() {
                assert(p[i] == w[i]);
            }
        }
        lemma_place_in_line(p, k);
        assert(a.holder != Some(t)) by {
            if v.holder is None {
                assert(w.len() == 0);
            }
        }
    }
    let l = v.leave(u);
    if v.holder == Some(u) {
        assert(w.len() > 0);
        if k == 0 {
            assert(l.holder == Some(t));
        } else {
            let d = w.drop_first();
            assert(d[k - 1] == t);
            assert(d.contains(t));
            lemma_place_in_line(d, k - 1);
            assert(l.holder == Some(w[0]));
            assert(w[0] < w[k]);
        }
    } else if w.contains(u) {
        let m = w.index_of(u);
        assert(0 <= m < w.len() && w[m] == u);
        let d = w.remove(m);
        assert forall|i: int, j: int| 0 <= i < j < d.len() implies #[trigger] d[i] < #[trigger] d[j] by {
            let a = if i < m { i } else { i + 1 };
            let b = if j < m { j } else { j + 1 };
            assert(d[i] == w[a] && d[j] == w[b]);
        }
        let k2 = if k < m { k } else { k - 1 };
        assert(d[k2] == t);
        assert(d.contains(t));
        lemma_place_in_line(d, k2);
    }
}

impl AccessQueue {
    /// An empty queue: nobody holds the engine and nobody waits.
    pub fn new() -> (r: AccessQueue)
        ensures
            r@.wf(),
            r@.next_ticket == 0,
            r@.holder == None::<nat>,
            r@.waiting.len() == 0,
    {
        let r = AccessQueue { next_ticket: 0, holder: None, waiting: Vec::new() };
        assert(r@.waiting.len() == 0);
        r
    }

    /// Whether ticket `t` holds the engine.
    pub fn is_granted(&self, t: u64) -> (r: bool)
        ensures
            r == (self@.holder == Some(t as nat)),
    {
        match self.holder {
            Some(h) => h == t,
            None => false,
        }
    }

    /// Draws a ticket. It holds the engine at once when the engine is free,
    /// else it waits behind every ticket drawn before it. Gives `None`, and
    /// changes nothing, when the tickets are exhausted.
    pub fn arrive(&mut self) -> (r: Option<u64>)
        requires
            old(self)@.wf(),
        ensures
            final(self)@.wf(),
            old(self)@.next_ticket < u64::MAX ==> r == Some(old(self)@.next_ticket as u64)
                && final(self)@ == old(self)@.arrive(),
            old(self)@.next_ticket == u64::MAX ==> r.is_none() && final(self)@ == old(self)@,
    {
        if self.next_ticket == u64::MAX {
            return None;
        }
        let t = self.next_ticket;
        let ghost before = self@;
        match self.holder {
            None => {
                self.holder = Some(t);
            },
            Some(_) => {
                self.waiting.push(t);
            },
        }
        self.next_ticket = t + 1;
        assert(self@.waiting =~= before.arrive().waiting);
        Some(t)
    }

    /// Ticket `t` gives up its claim: as holder it hands the engine to the
    /// oldest waiter; as a waiter it leaves the line without ever holding the
    /// engine. Returns whether `t` held the engine.
    pub fn leave(&mut self, t: u64) -> (r: bool)
        requires
            old(self)@.wf(),
        ensures
            final(self)@.wf(),
            final(self)@ == old(self)@.leave(t as nat),
            r == (old(self)@.holder == Some(t as nat)),
    {
        let ghost before = self@;
        let ghost w = self.waiting@;
        if self.is_granted(t) {
            if self.waiting.len() == 0 {
                self.holder = None;
            } else {
                let next = self.waiting.remove(0);
                self.holder = Some(next);
                assert(self@.waiting =~= before.waiting.drop_first());
            }
            true
        } else {
            let mut i: usize = 0;
            while i < self.waiting.len()
                invariant
                    self.waiting@ == w,
                    self@ == before,
                    before.wf(),
                    i <= w.len(),
                    forall|j: int| 0 <= j < i ==> w[j] != t,
                ensures
                    i <= w.len(),
                    i < w.len() ==> w[i as int] == t,
                    forall|j: int| 0 <= j < i ==> w[j] != t,
                decreases w.len() - i,
            {
                if self.waiting[i] == t {
                    break;
                }
                i = i + 1;
            }
            if i < self.waiting.len() {
                proof {
                    let k = before.waiting.index_of(t as nat);
                    assert(before.waiting[i as int] == t as nat);
                    assert(before.waiting.contains(t as nat));
                    assert(0 <= k < before.waiting.len() && before.waiting[k] == t as nat);
                    assert(k == i as int);
                }
                self.waiting.remove(i);
                assert(self@.waiting =~= before.waiting.remove(i as int));
            } else {
                proof {
                    if before.waiting.contains(t as nat) {
                        let k = choose|k: int|
                            0 <= k < before.waiting.len() && before.waiting[k] == t as nat;
                        assert(w[k] == t);
                    }
                }
            }
            false
        }
    }
}

} // verus!
