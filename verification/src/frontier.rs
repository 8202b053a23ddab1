//! The frontier: the pending work queue and the set of URLs ever accepted,
//! one structure with exactly-once acceptance and claim semantics.
//!
//! `offer` checks membership and inserts as one operation, so no URL can
//! enter the queue twice; `claim_next` pops the head of the FIFO queue, so
//! traversal is breadth first; `is_empty_and_idle` detects termination:
//! no queued work and no claim in flight.

use vstd::prelude::*;

verus! {

/// One unit of pending work: a URL and its discovery depth (hops from the
/// start entry, which has depth 0).
pub struct FrontierEntry {
    pub url: String,
    pub depth: usize,
}

impl FrontierEntry {
    /// The entry as a pair of plain mathematical values.
    pub open spec fn entry_view(self) -> (Seq<char>, nat) {
        (self.url@, self.depth as nat)
    }
}

/// The combined pending queue and visited set, with a count of claims in
/// flight.
pub struct Frontier {
    queue: Vec<FrontierEntry>,
    visited: Vec<String>,
    in_flight: usize,
}

impl Frontier {
    /// The pending entries, head first.
    pub closed spec fn queue_view(self) -> Seq<(Seq<char>, nat)> {
        self.queue@.map_values(|e: FrontierEntry| e.entry_view())
    }

    /// The URLs ever accepted, in acceptance order.
    pub closed spec fn visited_view(self) -> Seq<Seq<char>> {
        self.visited@.map_values(|s: String| s@)
    }

    /// How many claimed entries are still being processed.
    pub closed spec fn in_flight_count(self) -> nat {
        self.in_flight as nat
    }

    /// Well-formedness: no URL was accepted twice, every queued URL has
    /// been accepted, and no URL is queued twice.
    pub open spec fn wf(self) -> bool {
        &&& self.visited_view().no_duplicates()
        &&& forall|i: int|
            0 <= i < self.queue_view().len() ==> self.visited_view().contains(
                (#[trigger] self.queue_view()[i]).0,
            )
        &&& forall|i: int, j: int|
            0 <= i < j < self.queue_view().len() ==> (#[trigger] self.queue_view()[i]).0 != (
            #[trigger] self.queue_view()[j]).0
    }

    /// An empty frontier: nothing queued, nothing accepted, nothing in
    /// flight.
    pub fn new() -> (f: Frontier)
        ensures
            f.wf(),
            f.queue_view().len() == 0,
            f.visited_view().len() == 0,
            f.in_flight_count() == 0,
    {
        Frontier { queue: Vec::new(), visited: Vec::new(), in_flight: 0 }
    }

    /// Whether `url` has already been accepted.
    fn is_visited(&self, url: &String) -> (r: bool)
        ensures
            r == self.visited_view().contains(url@),
    {
        let mut i: usize = 0;
        while i < self.visited.len()
            invariant
                i <= self.visited.len(),
                forall|k: int| 0 <= k < i ==> self.visited_view()[k] != url@,
            decreases self.visited.len() - i,
        {
            if self.visited[i] == *url {
                assert(self.visited_view()[i as int] == url@);
                return true;
            }
            i += 1;
        }
        false
    }

    /// Atomically checks membership and accepts: if `url` was never accepted,
    /// it enters the visited set and the queue (at depth `depth`) and the
    /// call returns true; otherwise the duplicate is discarded and the call
    /// returns false. The check and the insertion are one operation: no two
    /// callers can both accept the same URL.
    pub fn offer(&mut self, url: String, depth: usize) -> (accepted: bool)
        requires
            old(self).wf(),
        ensures
            final(self).wf(),
            accepted == !old(self).visited_view().contains(url@),
            accepted ==> final(self).visited_view() == old(self).visited_view().push(url@),
            accepted ==> final(self).queue_view() == old(self).queue_view().push(
                (url@, depth as nat),
            ),
            !accepted ==> *final(self) == *old(self),
            final(self).in_flight_count() == old(self).in_flight_count(),
    {
        if self.is_visited(&url) {
            return false;
        }
        let ghost old_self = *self;
        self.visited.push(url.clone());
        self.queue.push(FrontierEntry { url, depth });
        proof {
            assert(self.visited_view() =~= old_self.visited_view().push(url@));
            assert(self.queue_view() =~= old_self.queue_view().push((url@, depth as nat)));
            assert forall|i: int|
                0 <= i < self.queue_view().len() implies self.visited_view().contains(
                (#[trigger] self.queue_view()[i]).0,
            ) by {
                if i < old_self.queue_view().len() {
                    let k = choose|k: int|
                        0 <= k < old_self.visited_view().len() && old_self.visited_view()[k]
                            == old_self.queue_view()[i].0;
                    assert(self.visited_view()[k] == self.queue_view()[i].0);
                } else {
                    assert(self.visited_view()[old_self.visited_view().len() as int] == url@);
                }
            }
            assert forall|i: int, j: int|
                0 <= i < j < self.queue_view().len() implies (#[trigger] self.queue_view()[i]).0
                != (#[trigger] self.queue_view()[j]).0 by {
                if j == self.queue_view().len() - 1 {
                    let k = choose|k: int|
                        0 <= k < old_self.visited_view().len() && old_self.visited_view()[k]
                            == old_self.queue_view()[i].0;
                    assert(old_self.visited_view().contains(old_self.queue_view()[i].0));
                }
            }
        }
        true
    }

    /// Atomically pops and returns the head of the queue, or returns
    /// nothing when the queue is empty. A popped URL never reappears in the
    /// queue: it stays in the visited set, so it can never enter the queue again.
    pub fn claim_next(&mut self) -> (r: Option<FrontierEntry>)
        requires
            old(self).wf(),
            old(self).in_flight_count() < usize::MAX,
        ensures
            final(self).wf(),
            r is Some <==> old(self).queue_view().len() > 0,
            r is None ==> *final(self) == *old(self),
            r matches Some(e) ==> {
                &&& e.entry_view() == old(self).queue_view()[0]
                &&& final(self).queue_view() == old(self).queue_view().drop_first()
                &&& final(self).visited_view() == old(self).visited_view()
                &&& final(self).in_flight_count() == old(self).in_flight_count() + 1
                &&& final(self).visited_view().contains(e.url@)
                &&& forall|i: int|
                    0 <= i < final(self).queue_view().len()
                        ==> (#[trigger] final(self).queue_view()[i]).0 != e.url@
            },
    {
        if self.queue.len() == 0 {
            return None;
        }
        let ghost old_self = *self;
        let e = self.queue.remove(0);
        self.in_flight = self.in_flight + 1;
        proof {
            assert(self.queue_view() =~= old_self.queue_view().drop_first());
            assert(self.visited_view() =~= old_self.visited_view());
            assert(old_self.visited_view().contains(old_self.queue_view()[0].0));
            assert forall|i: int|
                0 <= i < self.queue_view().len() implies (#[trigger] self.queue_view()[i]).0
                != e.url@ by {
                assert(self.queue_view()[i] == old_self.queue_view()[i + 1]);
                assert(old_self.queue_view()[0].0 != old_self.queue_view()[i + 1].0);
            }
        }
        Some(e)
    }

    /// Marks one claimed entry as fully processed.
    pub fn complete(&mut self)
        requires
            old(self).in_flight_count() > 0,
        ensures
            final(self).in_flight_count() == old(self).in_flight_count() - 1,
            final(self).queue_view() == old(self).queue_view(),
            final(self).visited_view() == old(self).visited_view(),
            old(self).wf() ==> final(self).wf(),
    {
        let ghost old_self = *self;
        self.in_flight = self.in_flight - 1;
        proof {
            assert(self.queue_view() =~= old_self.queue_view());
            assert(self.visited_view() =~= old_self.visited_view());
        }
    }

    /// True when there is no queued work and no claim in flight: the
    /// termination condition for the crawl loop.
    pub fn is_empty_and_idle(&self) -> (r: bool)
        ensures
            r == (self.queue_view().len() == 0 && self.in_flight_count() == 0),
    {
        self.queue.len() == 0 && self.in_flight == 0
    }
}

/// Law: each URL appears in the visited set at most once — a well-formed
/// frontier never accepts the same URL twice.
pub proof fn lemma_no_duplicate_entries(f: Frontier)
    requires
        f.wf(),
    ensures
        forall|i: int, j: int|
            0 <= i < j < f.visited_view().len() ==> f.visited_view()[i] != f.visited_view()[j],
{
}

} // verus!
