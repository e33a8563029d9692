//! The blocking task channel: the scheduling state of the bounded-concurrency
//! execution facility.
//!
//! A submission is admitted with a fresh ticket, waits in a FIFO queue, is
//! started on a free worker slot, is completed with its outcome, and the
//! outcome is collected exactly once by the submitting caller.  The contracts
//! of the four operations carry the guarantees: FIFO admission, at most
//! `capacity` units executing at once, every outcome delivered verbatim to the
//! ticket that owns it, and never twice.

use vstd::prelude::*;

verus! {

use crate::errors::ChannelError;
use crate::errors::DbError;

/// One completed submission: the ticket it was admitted under, together with
/// the outcome its unit of work produced, held until the caller collects it.
pub struct Completion<T> {
    pub ticket: u64,
    pub outcome: Result<T, DbError>,
}

/// The scheduling state of the blocking task channel.  `T` is the payload a
/// unit of work produces on success.
pub struct TaskChannel<T> {
    pub workers: usize,
    pub next_ticket: u64,
    pub pending: Vec<u64>,
    pub running: Vec<u64>,
    pub done: Vec<Completion<T>>,
    pub shutting_down: bool,
}

impl<T> TaskChannel<T> {
    /// The worker count fixed at construction: the concurrency bound.
    pub open spec fn capacity(self) -> int {
        self.workers as int
    }

    /// The ticket the next admitted submission will receive; every ticket the
    /// channel has ever issued is below it.
    pub open spec fn next_ticket(self) -> u64 {
        self.next_ticket
    }

    /// The admitted tickets not yet started, oldest first.
    pub open spec fn queued(self) -> Seq<u64> {
        self.pending@
    }

    /// The tickets whose units of work are executing right now.
    pub open spec fn executing(self) -> Seq<u64> {
        self.running@
    }

    /// The completions produced by workers and not yet collected.
    pub open spec fn completions(self) -> Seq<Completion<T>> {
        self.done@
    }

    /// The ticket of each uncollected completion, in the order produced.
    pub open spec fn completed_tickets(self) -> Seq<u64> {
        self.done@.map_values(|c: Completion<T>| c.ticket)
    }

    /// Whether the channel has been asked to shut down: it then rejects new
    /// submissions while the in-flight ones drain.
    pub open spec fn is_shutting_down(self) -> bool {
        self.shutting_down
    }

    /// Whether the channel holds `t` at any stage.
    pub open spec fn holds(self, t: u64) -> bool {
        self.queued().contains(t) || self.executing().contains(t)
            || self.completed_tickets().contains(t)
    }

    /// Every ticket the channel holds was issued: it is below `next_ticket`.
    pub open spec fn tickets_issued(self) -> bool {
        &&& (forall|i: int|
            0 <= i < self.queued().len() ==> #[trigger] self.queued()[i] < self.next_ticket())
        &&& (forall|i: int|
            0 <= i < self.executing().len() ==> #[trigger] self.executing()[i]
                < self.next_ticket())
        &&& (forall|i: int|
            0 <= i < self.completions().len() ==> #[trigger] self.completions()[i].ticket
                < self.next_ticket())
    }

    /// Within each stage, no ticket occurs twice.
    pub open spec fn tickets_distinct(self) -> bool {
        &&& (forall|i: int, j: int|
            0 <= i < j < self.queued().len() ==> self.queued()[i] != self.queued()[j])
        &&& (forall|i: int, j: int|
            0 <= i < j < self.executing().len() ==> self.executing()[i] != self.executing()[j])
        &&& (forall|i: int, j: int|
            0 <= i < j < self.completions().len() ==> self.completions()[i].ticket
                != self.completions()[j].ticket)
    }

    /// No ticket stands in two stages at once: each submission is in exactly
    /// one place on its way through.
    pub open spec fn stages_disjoint(self) -> bool {
        &&& (forall|i: int, j: int|
            0 <= i < self.queued().len() && 0 <= j < self.executing().len()
                ==> self.queued()[i] != self.executing()[j])
        &&& (forall|i: int, j: int|
            0 <= i < self.queued().len() && 0 <= j < self.completions().len()
                ==> self.queued()[i] != self.completions()[j].ticket)
        &&& (forall|i: int, j: int|
            0 <= i < self.executing().len() && 0 <= j < self.completions().len()
                ==> self.executing()[i] != self.completions()[j].ticket)
    }

    /// The channel's invariant: a positive worker count, no more units
    /// executing than workers, and every ticket issued once, held at most
    /// once, in at most one stage.
    pub open spec fn wf(self) -> bool {
        &&& 1 <= self.capacity()
        &&& self.executing().len() <= self.capacity()
        &&& self.tickets_issued()
        &&& self.tickets_distinct()
        &&& self.stages_disjoint()
    }

    /// How many submissions are in flight: admitted and not yet collected,
    /// whatever their stage.
    pub open spec fn in_flight(self) -> int {
        self.queued().len() as int + self.executing().len() as int
            + self.completions().len() as int
    }

    /// The work the channel still owes: three steps for a queued ticket
    /// (start, complete, collect), two for an executing one, one for an
    /// uncollected completion.  Every draining step decreases it by one.
    pub open spec fn load(self) -> int {
        3 * self.queued().len() as int + 2 * self.executing().len() as int
            + self.completions().len() as int
    }

    /// A fresh channel for a pool of `workers` workers: nothing queued,
    /// nothing executing, nothing to collect, accepting submissions.
    pub fn new(workers: usize) -> (c: Self)
        requires
            1 <= workers,
        ensures
            c.wf(),
            c.capacity() == workers,
            c.next_ticket() == 0,
            c.queued().len() == 0,
            c.executing().len() == 0,
            c.completions().len() == 0,
            !c.is_shutting_down(),
    {
        TaskChannel {
            workers,
            next_ticket: 0,
            pending: Vec::new(),
            running: Vec::new(),
            done: Vec::new(),
            shutting_down: false,
        }
    }

    /// Whether a queued ticket can be started now: something is waiting and a
    /// worker slot is free.
    pub open spec fn can_start(self) -> bool {
        self.queued().len() > 0 && self.executing().len() < self.capacity()
    }

    /// Admit one submission.  While the channel is open it hands back a fresh
    /// ticket — one the channel did not hold anywhere — and appends it to the
    /// back of the queue; once shutdown has been requested it rejects the
    /// submission with a channel-level error and changes nothing.
    pub fn submit(&mut self) -> (r: Result<u64, DbError>)
        requires
            old(self).wf(),
            old(self).next_ticket() < u64::MAX,
        ensures
            final(self).wf(),
            final(self).capacity() == old(self).capacity(),
            final(self).is_shutting_down() == old(self).is_shutting_down(),
            final(self).executing() == old(self).executing(),
            final(self).completions() == old(self).completions(),
            old(self).is_shutting_down() ==> {
                &&& r == Err::<u64, DbError>(DbError::Channel(ChannelError::ShutDown))
                &&& final(self).queued() == old(self).queued()
                &&& final(self).next_ticket() == old(self).next_ticket()
            },
            !old(self).is_shutting_down() ==> {
                &&& r == Ok::<u64, DbError>(old(self).next_ticket())
                &&& !old(self).holds(old(self).next_ticket())
                &&& final(self).queued() == old(self).queued().push(old(self).next_ticket())
                &&& final(self).next_ticket() == old(self).next_ticket() + 1
                &&& final(self).load() == old(self).load() + 3
            },
    {
        if self.shutting_down {
            Err(DbError::Channel(ChannelError::ShutDown))
        } else {
            let t = self.next_ticket;
            self.next_ticket = self.next_ticket + 1;
            self.pending.push(t);
            proof {
                assert(self.pending@ == old(self).pending@.push(t));
                assert forall|i: int| 0 <= i < self.pending@.len() implies #[trigger] self.pending@[i]
                    < self.next_ticket by {
                    if i < old(self).pending@.len() {
                        assert(old(self).queued()[i] < t);
                    }
                }
                assert forall|i: int, j: int| 0 <= i < j < self.pending@.len() implies self.pending@[i]
                    != self.pending@[j] by {
                    if j == old(self).pending@.len() {
                        assert(old(self).queued()[i] < t);
                    }
                }
                assert forall|i: int, j: int|
                    0 <= i < self.pending@.len() && 0 <= j < self.running@.len() implies self.pending@[i]
                    != self.running@[j] by {
                    if i == old(self).pending@.len() {
                        assert(old(self).executing()[j] < t);
                    } else {
                        assert(old(self).queued()[i] != old(self).executing()[j]);
                    }
                }
                assert forall|i: int, j: int|
                    0 <= i < self.pending@.len() && 0 <= j < self.done@.len() implies self.pending@[i]
                    != self.done@[j].ticket by {
                    if i == old(self).pending@.len() {
                        assert(old(self).completions()[j].ticket < t);
                    } else {
                        assert(old(self).queued()[i] != old(self).completions()[j].ticket);
                    }
                }
            }
            Ok(t)
        }
    }

    /// Move the oldest queued ticket onto a free worker slot: admission into
    /// the pool is FIFO, and never exceeds the concurrency bound.  With
    /// nothing queued, or every slot taken, nothing changes.
    pub fn start_next(&mut self) -> (r: Option<u64>)
        requires
            old(self).wf(),
        ensures
            final(self).wf(),
            final(self).capacity() == old(self).capacity(),
            final(self).is_shutting_down() == old(self).is_shutting_down(),
            final(self).next_ticket() == old(self).next_ticket(),
            final(self).completions() == old(self).completions(),
            old(self).can_start() ==> {
                &&& r == Some(old(self).queued()[0])
                &&& final(self).queued() == old(self).queued().drop_first()
                &&& final(self).executing() == old(self).executing().push(old(self).queued()[0])
                &&& final(self).load() == old(self).load() - 1
            },
            !old(self).can_start() ==> {
                &&& r is None
                &&& final(self).queued() == old(self).queued()
                &&& final(self).executing() == old(self).executing()
            },
    {
        if self.pending.len() > 0 && self.running.len() < self.workers {
            let t = self.pending.remove(0);
            self.running.push(t);
            proof {
                old(self).queued().remove_ensures(0);
                assert(self.pending@ =~= old(self).queued().drop_first());
                assert(self.running@ == old(self).executing().push(t));
                assert forall|i: int| 0 <= i < self.pending@.len() implies #[trigger] self.pending@[i]
                    == old(self).queued()[i + 1] by {}
                assert forall|i: int, j: int| 0 <= i < j < self.running@.len() implies self.running@[i]
                    != self.running@[j] by {
                    if j == old(self).running@.len() {
                        assert(old(self).queued()[0] != old(self).executing()[i]);
                    }
                }
                assert forall|i: int, j: int|
                    0 <= i < self.pending@.len() && 0 <= j < self.running@.len()
                    implies self.pending@[i] != self.running@[j] by {
                    if j == old(self).running@.len() {
                        assert(old(self).queued()[i + 1] != old(self).queued()[0]);
                    } else {
                        assert(old(self).queued()[i + 1] != old(self).executing()[j]);
                    }
                }
                assert forall|i: int, j: int|
                    0 <= i < self.pending@.len() && 0 <= j < self.done@.len()
                    implies self.pending@[i] != self.done@[j].ticket by {
                    assert(old(self).queued()[i + 1] != old(self).completions()[j].ticket);
                }
                assert forall|i: int, j: int|
                    0 <= i < self.running@.len() && 0 <= j < self.done@.len()
                    implies self.running@[i] != self.done@[j].ticket by {
                    if i == old(self).running@.len() {
                        assert(old(self).queued()[0] != old(self).completions()[j].ticket);
                    } else {
                        assert(old(self).executing()[i] != old(self).completions()[j].ticket);
                    }
                }
                assert forall|i: int| 0 <= i < self.pending@.len() implies #[trigger] self.pending@[i]
                    < self.next_ticket by {
                    assert(old(self).queued()[i + 1] < old(self).next_ticket());
                }
                assert forall|i: int| 0 <= i < self.running@.len() implies #[trigger] self.running@[i]
                    < self.next_ticket by {
                    if i < old(self).running@.len() {
                        assert(old(self).executing()[i] < old(self).next_ticket());
                    } else {
                        assert(old(self).queued()[0] < old(self).next_ticket());
                    }
                }
            }
            Some(t)
        } else {
            None
        }
    }

    /// Record the outcome a worker produced for `ticket`.  If `ticket` is
    /// indeed executing, it leaves its worker slot and its completion — the
    /// outcome verbatim, under its own ticket — is appended for the
    /// submitting caller to collect.  A ticket the channel never started
    /// changes nothing and the report is refused.
    pub fn complete(&mut self, ticket: u64, outcome: Result<T, DbError>) -> (r: bool)
        requires
            old(self).wf(),
        ensures
            final(self).wf(),
            final(self).capacity() == old(self).capacity(),
            final(self).is_shutting_down() == old(self).is_shutting_down(),
            final(self).next_ticket() == old(self).next_ticket(),
            final(self).queued() == old(self).queued(),
            r == old(self).executing().contains(ticket),
            r ==> (exists|i: int|
                {
                    &&& 0 <= i < old(self).executing().len()
                    &&& old(self).executing()[i] == ticket
                    &&& final(self).executing() == old(self).executing().remove(i)
                }),
            r ==> final(self).completions() == old(self).completions().push(
                (Completion { ticket, outcome }),
            ),
            r ==> !final(self).executing().contains(ticket),
            r ==> final(self).load() == old(self).load() - 1,
            !r ==> final(self).executing() == old(self).executing(),
            !r ==> final(self).completions() == old(self).completions(),
    {
        match find_slot(&self.running, ticket) {
            Some(i) => {
                let ghost idx = i as int;
                self.running.remove(i);
                self.done.push(Completion { ticket, outcome });
                proof {
                    old(self).executing().remove_ensures(idx);
                    assert(self.running@ == old(self).executing().remove(idx));
                    assert(self.done@ == old(self).completions().push(
                        (Completion { ticket, outcome }),
                    ));
                    assert forall|j: int| 0 <= j < self.running@.len()
                        implies #[trigger] self.running@[j] != ticket by {
                        if j < idx {
                            assert(self.running@[j] == old(self).executing()[j]);
                        } else {
                            assert(self.running@[j] == old(self).executing()[j + 1]);
                        }
                    }
                    assert forall|j: int| 0 <= j < self.pending@.len()
                        implies #[trigger] self.pending@[j] < self.next_ticket by {
                        assert(old(self).queued()[j] < old(self).next_ticket());
                    }
                    assert forall|j: int, k: int| 0 <= j < k < self.pending@.len()
                        implies self.pending@[j] != self.pending@[k] by {
                        assert(old(self).queued()[j] != old(self).queued()[k]);
                    }
                    assert forall|j: int, k: int| 0 <= j < k < self.running@.len()
                        implies self.running@[j] != self.running@[k] by {}
                    assert forall|j: int, k: int|
                        0 <= j < self.pending@.len() && 0 <= k < self.running@.len()
                        implies self.pending@[j] != self.running@[k] by {
                        if k < idx {
                            assert(old(self).queued()[j] != old(self).executing()[k]);
                        } else {
                            assert(old(self).queued()[j] != old(self).executing()[k + 1]);
                        }
                    }
                    assert forall|j: int, k: int| 0 <= j < k < self.done@.len()
                        implies self.done@[j].ticket != self.done@[k].ticket by {
                        if k == old(self).done@.len() {
                            assert(old(self).executing()[idx] != old(self).completions()[j].ticket);
                        }
                    }
                    assert forall|j: int, k: int|
                        0 <= j < self.pending@.len() && 0 <= k < self.done@.len()
                        implies self.pending@[j] != self.done@[k].ticket by {
                        if k == old(self).done@.len() {
                            assert(old(self).queued()[j] != old(self).executing()[idx]);
                        } else {
                            assert(old(self).queued()[j] != old(self).completions()[k].ticket);
                        }
                    }
                    assert forall|j: int, k: int|
                        0 <= j < self.running@.len() && 0 <= k < self.done@.len()
                        implies self.running@[j] != self.done@[k].ticket by {
                        if k == old(self).done@.len() {
                            assert(self.running@[j] != ticket);
                        } else {
                            assert(self.running@[j] != old(self).completions()[k].ticket);
                        }
                    }
                    assert forall|j: int| 0 <= j < self.done@.len()
                        implies #[trigger] self.done@[j].ticket < self.next_ticket by {
                        if j == old(self).done@.len() {
                            assert(old(self).executing()[idx] < old(self).next_ticket());
                        } else {
                            assert(old(self).completions()[j].ticket < old(self).next_ticket());
                        }
                    }
                }
                true
            },
            None => false,
        }
    }

    /// Hand the outcome for `ticket` to its caller.  If a completion for
    /// `ticket` is waiting, it is removed and its outcome returned verbatim —
    /// afterwards the channel holds the ticket nowhere, so collecting the
    /// same ticket again finds nothing: delivery is exactly once.  A ticket
    /// with no completion waiting yields nothing and changes nothing.
    pub fn collect(&mut self, ticket: u64) -> (r: Option<Result<T, DbError>>)
        requires
            old(self).wf(),
        ensures
            final(self).wf(),
            final(self).capacity() == old(self).capacity(),
            final(self).is_shutting_down() == old(self).is_shutting_down(),
            final(self).next_ticket() == old(self).next_ticket(),
            final(self).queued() == old(self).queued(),
            final(self).executing() == old(self).executing(),
            (r is Some) == old(self).completed_tickets().contains(ticket),
            r is Some ==> (exists|i: int|
                {
                    &&& 0 <= i < old(self).completions().len()
                    &&& old(self).completions()[i].ticket == ticket
                    &&& r == Some(old(self).completions()[i].outcome)
                    &&& final(self).completions() == old(self).completions().remove(i)
                }),
            r is Some ==> !final(self).holds(ticket),
            r is Some ==> final(self).load() == old(self).load() - 1,
            r is None ==> final(self).completions() == old(self).completions(),
    {
        let n = self.done.len();
        let mut i: usize = 0;
        while i < n
            invariant
                *self == *old(self),
                old(self).wf(),
                n == self.done@.len(),
                i <= n,
                forall|k: int| 0 <= k < i ==> self.done@[k].ticket != ticket,
            decreases n - i,
        {
            if self.done[i].ticket == ticket {
                let ghost idx = i as int;
                let c = self.done.remove(i);
                proof {
                    old(self).completions().remove_ensures(idx);
                    assert(old(self).completed_tickets()[idx] == ticket);
                    assert(old(self).completed_tickets().contains(ticket));
                    assert(self.done@ == old(self).completions().remove(idx));
                    assert forall|j: int| 0 <= j < self.done@.len()
                        implies #[trigger] self.done@[j].ticket != ticket by {
                        if j < idx {
                            assert(self.done@[j] == old(self).completions()[j]);
                            assert(old(self).completions()[j].ticket
                                != old(self).completions()[idx].ticket);
                        } else {
                            assert(self.done@[j] == old(self).completions()[j + 1]);
                            assert(old(self).completions()[j + 1].ticket
                                != old(self).completions()[idx].ticket);
                        }
                    }
                    assert forall|j: int| 0 <= j < self.done@.len()
                        implies #[trigger] self.done@[j].ticket < self.next_ticket by {
                        if j < idx {
                            assert(old(self).completions()[j].ticket < old(self).next_ticket());
                        } else {
                            assert(old(self).completions()[j + 1].ticket
                                < old(self).next_ticket());
                        }
                    }
                    assert forall|j: int, k: int| 0 <= j < k < self.done@.len()
                        implies self.done@[j].ticket != self.done@[k].ticket by {}
                    assert forall|j: int, k: int|
                        0 <= j < self.pending@.len() && 0 <= k < self.done@.len()
                        implies self.pending@[j] != self.done@[k].ticket by {
                        if k < idx {
                            assert(old(self).queued()[j] != old(self).completions()[k].ticket);
                        } else {
                            assert(old(self).queued()[j] != old(self).completions()[k + 1].ticket);
                        }
                    }
                    assert forall|j: int, k: int|
                        0 <= j < self.running@.len() && 0 <= k < self.done@.len()
                        implies self.running@[j] != self.done@[k].ticket by {
                        if k < idx {
                            assert(old(self).executing()[j] != old(self).completions()[k].ticket);
                        } else {
                            assert(old(self).executing()[j]
                                != old(self).completions()[k + 1].ticket);
                        }
                    }
                    assert forall|j: int| 0 <= j < self.pending@.len()
                        implies #[trigger] self.pending@[j] < self.next_ticket by {
                        assert(old(self).queued()[j] < old(self).next_ticket());
                    }
                    assert forall|j: int, k: int| 0 <= j < k < self.pending@.len()
                        implies self.pending@[j] != self.pending@[k] by {
                        assert(old(self).queued()[j] != old(self).queued()[k]);
                    }
                    assert forall|j: int| 0 <= j < self.running@.len()
                        implies #[trigger] self.running@[j] < self.next_ticket by {
                        assert(old(self).executing()[j] < old(self).next_ticket());
                    }
                    assert forall|j: int, k: int| 0 <= j < k < self.running@.len()
                        implies self.running@[j] != self.running@[k] by {
                        assert(old(self).executing()[j] != old(self).executing()[k]);
                    }
                    assert forall|j: int, k: int|
                        0 <= j < self.pending@.len() && 0 <= k < self.running@.len()
                        implies self.pending@[j] != self.running@[k] by {
                        assert(old(self).queued()[j] != old(self).executing()[k]);
                    }
                    assert(!self.queued().contains(ticket)) by {
                        if self.queued().contains(ticket) {
                            let w = choose|w: int|
                                0 <= w < self.queued().len() && self.queued()[w] == ticket;
                            assert(old(self).queued()[w]
                                != old(self).completions()[idx].ticket);
                        }
                    }
                    assert(!self.executing().contains(ticket)) by {
                        if self.executing().contains(ticket) {
                            let w = choose|w: int|
                                0 <= w < self.executing().len() && self.executing()[w] == ticket;
                            assert(old(self).executing()[w]
                                != old(self).completions()[idx].ticket);
                        }
                    }
                    assert(!self.completed_tickets().contains(ticket)) by {
                        if self.completed_tickets().contains(ticket) {
                            let w = choose|w: int|
                                0 <= w < self.completed_tickets().len()
                                    && self.completed_tickets()[w] == ticket;
                            assert(self.done@[w].ticket != ticket);
                        }
                    }
                }
                return Some(c.outcome);
            }
            i = i + 1;
        }
        proof {
            assert(*self == *old(self));
            assert forall|k: int| 0 <= k < old(self).completed_tickets().len()
                implies #[trigger] old(self).completed_tickets()[k] != ticket by {
                assert(self.done@[k].ticket != ticket);
            }
            assert(!old(self).completed_tickets().contains(ticket));
        }
        None
    }

    /// The worker count the channel was constructed with.
    pub fn worker_count(&self) -> (n: usize)
        ensures
            n == self.capacity(),
    {
        self.workers
    }

    /// How many submissions wait in the queue.
    pub fn queued_len(&self) -> (n: usize)
        ensures
            n == self.queued().len(),
    {
        self.pending.len()
    }

    /// How many units of work are executing right now.
    pub fn executing_len(&self) -> (n: usize)
        ensures
            n == self.executing().len(),
    {
        self.running.len()
    }

    /// How many completions wait to be collected.
    pub fn completed_len(&self) -> (n: usize)
        ensures
            n == self.completions().len(),
    {
        self.done.len()
    }

    /// The ticket executing in slot `i`.
    pub fn executing_ticket(&self, i: usize) -> (t: u64)
        requires
            i < self.executing().len(),
        ensures
            t == self.executing()[i as int],
    {
        self.running[i]
    }

    /// The ticket of the `i`-th uncollected completion.
    pub fn completed_ticket(&self, i: usize) -> (t: u64)
        requires
            i < self.completions().len(),
        ensures
            t == self.completions()[i as int].ticket,
    {
        self.done[i].ticket
    }

    /// Whether shutdown has been requested.
    pub fn shutdown_requested(&self) -> (b: bool)
        ensures
            b == self.is_shutting_down(),
    {
        self.shutting_down
    }

    /// Request shutdown: from now on every new submission is rejected, while
    /// everything already in flight — queued, executing or awaiting
    /// collection — is kept untouched to drain.  Requesting it again changes
    /// nothing further.
    pub fn shutdown(&mut self)
        requires
            old(self).wf(),
        ensures
            final(self).wf(),
            final(self).is_shutting_down(),
            final(self).capacity() == old(self).capacity(),
            final(self).next_ticket() == old(self).next_ticket(),
            final(self).queued() == old(self).queued(),
            final(self).executing() == old(self).executing(),
            final(self).completions() == old(self).completions(),
            final(self).load() == old(self).load(),
    {
        self.shutting_down = true;
        proof {
            lemma_wf_components(*old(self), *self);
        }
    }

    /// Drain the channel: start, run and collect everything still owed,
    /// playing the worker pool with `work` — each started unit's outcome is
    /// `work` applied to its ticket.  Every in-flight submission resolves,
    /// the drain takes finitely many steps, and at the end nothing is queued,
    /// nothing occupies a worker slot and nothing waits uncollected.
    /// Together with `shutdown`, which rejects new submissions while keeping
    /// the in-flight ones, this is the graceful teardown path.
    pub fn drain<F: Fn(u64) -> Result<T, DbError>>(&mut self, work: F) -> (resolved: usize)
        requires
            old(self).wf(),
            old(self).in_flight() <= usize::MAX,
            forall|t: u64| #[trigger] call_requires(work, (t,)),
        ensures
            final(self).wf(),
            final(self).queued().len() == 0,
            final(self).executing().len() == 0,
            final(self).completions().len() == 0,
            final(self).capacity() == old(self).capacity(),
            final(self).is_shutting_down() == old(self).is_shutting_down(),
            final(self).next_ticket() == old(self).next_ticket(),
            resolved == old(self).in_flight(),
    {
        let mut resolved: usize = 0;
        while self.queued_len() > 0 || self.executing_len() > 0 || self.completed_len() > 0
            invariant
                self.wf(),
                forall|t: u64| #[trigger] call_requires(work, (t,)),
                self.capacity() == old(self).capacity(),
                self.is_shutting_down() == old(self).is_shutting_down(),
                self.next_ticket() == old(self).next_ticket(),
                resolved + self.in_flight() == old(self).in_flight(),
                old(self).in_flight() <= usize::MAX,
            decreases self.load(),
        {
            if self.queued_len() > 0 && self.executing_len() < self.worker_count() {
                let _ = self.start_next();
            } else if self.executing_len() > 0 {
                let t = self.executing_ticket(0);
                proof {
                    assert(self.executing().contains(t));
                }
                let outcome = work(t);
                let _ = self.complete(t, outcome);
            } else {
                let t = self.completed_ticket(0);
                proof {
                    assert(self.completed_tickets()[0] == t);
                    assert(self.completed_tickets().contains(t));
                }
                let _ = self.collect(t);
                resolved = resolved + 1;
            }
        }
        resolved
    }
}

/// Exactly-once delivery: a well-formed channel holds any ticket in at most
/// one place — never in two stages at once, and never twice among the
/// uncollected completions.  The completion `collect` hands out for a ticket
/// is therefore the unique one produced for it: no outcome is lost,
/// duplicated, or delivered to another caller's ticket.
pub proof fn lemma_exactly_once_delivery<T>(c: TaskChannel<T>, t: u64)
    requires
        c.wf(),
    ensures
        !(c.queued().contains(t) && c.executing().contains(t)),
        !(c.queued().contains(t) && c.completed_tickets().contains(t)),
        !(c.executing().contains(t) && c.completed_tickets().contains(t)),
        forall|i: int, j: int|
            0 <= i < c.completions().len() && 0 <= j < c.completions().len()
                && c.completions()[i].ticket == t && c.completions()[j].ticket == t ==> i == j,
{
    if c.queued().contains(t) && c.executing().contains(t) {
        let i = choose|i: int| 0 <= i < c.queued().len() && c.queued()[i] == t;
        let j = choose|j: int| 0 <= j < c.executing().len() && c.executing()[j] == t;
        assert(c.queued()[i] != c.executing()[j]);
    }
    if c.queued().contains(t) && c.completed_tickets().contains(t) {
        let i = choose|i: int| 0 <= i < c.queued().len() && c.queued()[i] == t;
        let j = choose|j: int|
            0 <= j < c.completed_tickets().len() && c.completed_tickets()[j] == t;
        assert(c.queued()[i] != c.completions()[j].ticket);
    }
    if c.executing().contains(t) && c.completed_tickets().contains(t) {
        let i = choose|i: int| 0 <= i < c.executing().len() && c.executing()[i] == t;
        let j = choose|j: int|
            0 <= j < c.completed_tickets().len() && c.completed_tickets()[j] == t;
        assert(c.executing()[i] != c.completions()[j].ticket);
    }
    assert forall|i: int, j: int|
        0 <= i < c.completions().len() && 0 <= j < c.completions().len()
            && c.completions()[i].ticket == t && c.completions()[j].ticket == t
        implies i == j by {
        if i < j {
            assert(c.completions()[i].ticket != c.completions()[j].ticket);
        } else if j < i {
            assert(c.completions()[j].ticket != c.completions()[i].ticket);
        }
    }
}

/// Bounded concurrency: a well-formed channel never has more units of work
/// executing at once than the worker count fixed at its construction.
pub proof fn lemma_bounded_concurrency<T>(c: TaskChannel<T>)
    requires
        c.wf(),
    ensures
        c.executing().len() <= c.capacity(),
{
}

/// Non-blocking suspension: a unit of work in flight does not stall the rest
/// of the channel.  As long as a worker slot is free, the next queued
/// submission — another caller's, never the suspended one's — can start at
/// once, whatever is still executing.
pub proof fn lemma_progress_while_suspended<T>(c: TaskChannel<T>, t: u64)
    requires
        c.wf(),
        c.executing().contains(t),
        c.executing().len() < c.capacity(),
        c.queued().len() > 0,
    ensures
        c.can_start(),
        c.queued()[0] != t,
{
    let j = choose|j: int| 0 <= j < c.executing().len() && c.executing()[j] == t;
    assert(c.queued()[0] != c.executing()[j]);
}

/// No resource leak on shutdown: a channel whose remaining load has reached
/// zero holds nothing anywhere — no queued submission, no occupied worker
/// slot, no uncollected completion, no ticket at all.  `shutdown` keeps every
/// in-flight stage untouched while new submissions are rejected, and each
/// `start_next`, `complete` and `collect` step lowers the load by one, so the
/// in-flight submissions all resolve after finitely many steps and nothing
/// survives the drain — `drain` is that path, run to the end.
pub proof fn lemma_drained_holds_nothing<T>(c: TaskChannel<T>)
    requires
        c.load() == 0,
    ensures
        c.queued().len() == 0,
        c.executing().len() == 0,
        c.completions().len() == 0,
        forall|t: u64| !c.holds(t),
{
}

/// A channel whose worker count, ticket bound and three stages equal those of
/// a well-formed one is itself well-formed: the invariant reads nothing else.
proof fn lemma_wf_components<T>(a: TaskChannel<T>, b: TaskChannel<T>)
    requires
        a.wf(),
        b.capacity() == a.capacity(),
        b.next_ticket() == a.next_ticket(),
        b.queued() == a.queued(),
        b.executing() == a.executing(),
        b.completions() == a.completions(),
    ensures
        b.wf(),
{
    assert forall|i: int| 0 <= i < b.queued().len() implies #[trigger] b.queued()[i]
        < b.next_ticket() by {
        assert(a.queued()[i] < a.next_ticket());
    }
    assert forall|i: int| 0 <= i < b.executing().len() implies #[trigger] b.executing()[i]
        < b.next_ticket() by {
        assert(a.executing()[i] < a.next_ticket());
    }
    assert forall|i: int| 0 <= i < b.completions().len() implies #[trigger] b.completions()[i].ticket
        < b.next_ticket() by {
        assert(a.completions()[i].ticket < a.next_ticket());
    }
    assert forall|i: int, j: int| 0 <= i < j < b.queued().len() implies b.queued()[i]
        != b.queued()[j] by {
        assert(a.queued()[i] != a.queued()[j]);
    }
    assert forall|i: int, j: int| 0 <= i < j < b.executing().len() implies b.executing()[i]
        != b.executing()[j] by {
        assert(a.executing()[i] != a.executing()[j]);
    }
    assert forall|i: int, j: int| 0 <= i < j < b.completions().len()
        implies b.completions()[i].ticket != b.completions()[j].ticket by {
        assert(a.completions()[i].ticket != a.completions()[j].ticket);
    }
    assert forall|i: int, j: int| 0 <= i < b.queued().len() && 0 <= j < b.executing().len()
        implies b.queued()[i] != b.executing()[j] by {
        assert(a.queued()[i] != a.executing()[j]);
    }
    assert forall|i: int, j: int| 0 <= i < b.queued().len() && 0 <= j < b.completions().len()
        implies b.queued()[i] != b.completions()[j].ticket by {
        assert(a.queued()[i] != a.completions()[j].ticket);
    }
    assert forall|i: int, j: int| 0 <= i < b.executing().len() && 0 <= j < b.completions().len()
        implies b.executing()[i] != b.completions()[j].ticket by {
        assert(a.executing()[i] != a.completions()[j].ticket);
    }
}

/// Find the slot of `v` holding `t`, if any.
fn find_slot(v: &Vec<u64>, t: u64) -> (r: Option<usize>)
    ensures
        match r {
            Some(i) => i < v@.len() && v@[i as int] == t,
            None => !v@.contains(t),
        },
{
    let mut i: usize = 0;
    while i < v.len()
        invariant
            i <= v@.len(),
            forall|k: int| 0 <= k < i ==> v@[k] != t,
        decreases v@.len() - i,
    {
        if v[i] == t {
            return Some(i);
        }
        i = i + 1;
    }
    None
}

} // verus!
