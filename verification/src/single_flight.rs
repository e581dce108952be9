//! Collapsing loads: several callers that ask for the same thing at the same moment
//! cost one load, not one each.

use vstd::prelude::*;

use crate::error::ProtonError;
use crate::ids::NodeUid;
use crate::text::owned;

verus! {

/// What a caller does about a load.
#[derive(Debug, Clone, Copy, PartialEq, Eq, Structural)]
pub enum Flight {
    /// Start it, under this number.
    Start(u64),
    /// Wait for the one that is under way.
    Join(u64),
}

/// The loads that are under way, each with its number.
#[derive(Debug, PartialEq, Eq)]
pub struct SingleFlight {
    pub inflight: Vec<(NodeUid, u64)>,
    pub next: u64,
}

/// Whether a load of the node is under way.
pub open spec fn is_loading(inflight: Seq<(NodeUid, u64)>, key: (Seq<char>, Seq<char>)) -> bool {
    exists|i: int| 0 <= i < inflight.len() && (#[trigger] inflight[i]).0@ == key
}

/// The number of the load of the node.
pub open spec fn load_of(inflight: Seq<(NodeUid, u64)>, key: (Seq<char>, Seq<char>)) -> u64 {
    inflight[choose|i: int| 0 <= i < inflight.len() && (#[trigger] inflight[i]).0@ == key].1
}

/// The loads but for those of the node.
pub open spec fn loads_without(
    inflight: Seq<(NodeUid, u64)>,
    key: (Seq<char>, Seq<char>),
) -> Seq<(NodeUid, u64)>
    decreases inflight.len(),
{
    if inflight.len() == 0 {
        Seq::empty()
    } else {
        let before = loads_without(inflight.drop_last(), key);
        if inflight.last().0@ == key {
            before
        } else {
            before.push(inflight.last())
        }
    }
}

impl Default for SingleFlight {
    fn default() -> (r: SingleFlight)
        ensures
            r.well_formed(),
            r.inflight@.len() == 0,
            r.next == 0,
    {
        SingleFlight { inflight: Vec::new(), next: 0 }
    }
}

impl SingleFlight {
    /// No node is loaded twice at a time, and numbers are not used again.
    pub open spec fn well_formed(self) -> bool {
        &&& forall|i: int, j: int|
            0 <= i < j < self.inflight@.len() ==> (#[trigger] self.inflight@[i]).0@ != (
            #[trigger] self.inflight@[j]).0@
        &&& forall|i: int|
            0 <= i < self.inflight@.len() ==> (#[trigger] self.inflight@[i]).1 < self.next
    }

    /// What to do about a load of the node: wait for the one that is under way, or
    /// start one.
    pub fn begin(&mut self, key: &NodeUid) -> (flight: Flight)
        requires
            old(self).well_formed(),
            old(self).next < u64::MAX,
        ensures
            final(self).well_formed(),
            if is_loading(old(self).inflight@, key@) {
                &&& flight == Flight::Join(load_of(old(self).inflight@, key@))
                &&& *final(self) == *old(self)
            } else {
                &&& flight == Flight::Start(old(self).next)
                &&& final(self).next == old(self).next + 1
                &&& final(self).inflight@ == old(self).inflight@.push((*key, old(self).next))
            },
    {
        let mut i: usize = 0;
        while i < self.inflight.len()
            invariant
                i <= self.inflight@.len(),
                *self == *old(self),
                self.well_formed(),
                self.next < u64::MAX,
                forall|j: int| 0 <= j < i ==> (#[trigger] self.inflight@[j]).0@ != key@,
            decreases self.inflight@.len() - i,
        {
            if self.inflight[i].0.same_as(key) {
                proof {
                    assert(self.inflight@[i as int].0@ == key@);
                    let k = choose|k: int|
                        0 <= k < self.inflight@.len() && (#[trigger] self.inflight@[k]).0@ == key@;
                    if i < k {
                        assert(self.inflight@[i as int].0@ != self.inflight@[k].0@);
                    } else if k < i {
                        assert(self.inflight@[k].0@ != self.inflight@[i as int].0@);
                    }
                }
                return Flight::Join(self.inflight[i].1);
            }
            i += 1;
        }
        let number: u64 = self.next;
        let ghost before = self.inflight@;
        self.inflight.push((key.clone(), number));
        self.next = number + 1;
        proof {
            assert forall|i: int, j: int| 0 <= i < j < self.inflight@.len() implies (
            #[trigger] self.inflight@[i]).0@ != (#[trigger] self.inflight@[j]).0@ by {
                assert(self.inflight@[i] == before[i]);
                if j < before.len() {
                    assert(self.inflight@[j] == before[j]);
                }
            }
            assert forall|i: int| 0 <= i < self.inflight@.len() implies (
            #[trigger] self.inflight@[i]).1 < self.next by {
                if i < before.len() {
                    assert(self.inflight@[i] == before[i]);
                }
            }
        }
        Flight::Start(number)
    }

    /// The load of the node is over: the next caller starts a new one.
    pub fn finish(&mut self, key: &NodeUid)
        requires
            old(self).well_formed(),
        ensures
            final(self).well_formed(),
            final(self).next == old(self).next,
            final(self).inflight@ == loads_without(old(self).inflight@, key@),
            !is_loading(final(self).inflight@, key@),
    {
        let ghost start = self.inflight@;
        let mut kept: Vec<(NodeUid, u64)> = Vec::new();
        let mut i: usize = 0;
        assert(start.take(0) =~= Seq::<(NodeUid, u64)>::empty());
        while i < self.inflight.len()
            invariant
                i <= self.inflight@.len(),
                self.inflight@ == start,
                self.next == old(self).next,
                kept@ == loads_without(start.take(i as int), key@),
            decreases self.inflight@.len() - i,
        {
            assert(start.take(i + 1).drop_last() =~= start.take(i as int));
            if !self.inflight[i].0.same_as(key) {
                kept.push((self.inflight[i].0.clone(), self.inflight[i].1));
            }
            i += 1;
        }
        proof {
            assert(start.take(i as int) =~= start);
            lemma_loads_without(start, key@);
        }
        self.inflight = kept;
    }
}

proof fn lemma_loads_without(inflight: Seq<(NodeUid, u64)>, key: (Seq<char>, Seq<char>))
    ensures
        forall|i: int|
            0 <= i < loads_without(inflight, key).len() ==> (#[trigger] loads_without(
                inflight,
                key,
            )[i]).0@ != key && exists|k: int|
                i <= k < inflight.len() && inflight[k] == loads_without(inflight, key)[i],
        (forall|i: int, j: int|
            0 <= i < j < inflight.len() ==> (#[trigger] inflight[i]).0@ != (
            #[trigger] inflight[j]).0@) ==> (forall|i: int, j: int|
            0 <= i < j < loads_without(inflight, key).len() ==> (#[trigger] loads_without(
                inflight,
                key,
            )[i]).0@ != (#[trigger] loads_without(inflight, key)[j]).0@),
    decreases inflight.len(),
{
    if inflight.len() > 0 {
        let fewer = inflight.drop_last();
        lemma_loads_without(fewer, key);
        let before = loads_without(fewer, key);
        let after = loads_without(inflight, key);
        assert forall|i: int| 0 <= i < after.len() implies (#[trigger] after[i]).0@ != key && exists|
            k: int,
        | i <= k < inflight.len() && inflight[k] == after[i] by {
            if i < before.len() {
                assert(after[i] == before[i]);
                let k = choose|k: int| i <= k < fewer.len() && fewer[k] == before[i];
                assert(inflight[k] == after[i]);
            } else {
                assert(before.len() <= fewer.len()) by {
                    if before.len() > fewer.len() {
                        let last = before.len() - 1;
                        assert(before[last].0@ != key);
                    }
                }
                assert(inflight[inflight.len() - 1] == after[i]);
            }
        }
        if forall|i: int, j: int|
            0 <= i < j < inflight.len() ==> (#[trigger] inflight[i]).0@ != (
            #[trigger] inflight[j]).0@ {
            assert forall|i: int, j: int| 0 <= i < j < fewer.len() implies (#[trigger] fewer[i]).0@
                != (#[trigger] fewer[j]).0@ by {
                assert(inflight[i].0@ != inflight[j].0@);
            }
            assert forall|i: int, j: int| 0 <= i < j < after.len() implies (#[trigger] after[i]).0@
                != (#[trigger] after[j]).0@ by {
                assert(after[i] == before[i]);
                if j < before.len() {
                    assert(after[j] == before[j]);
                } else {
                    let k = choose|k: int| i <= k < fewer.len() && fewer[k] == before[i];
                    assert(inflight[k].0@ != inflight[inflight.len() - 1].0@);
                }
            }
        }
    }
}

/// Callers that ask while a load is under way all wait for it, and a caller that
/// asks once it is over is not served its result.
pub proof fn law_one_load_at_a_time(inflight: Seq<(NodeUid, u64)>, key: NodeUid, number: u64)
    requires
        !is_loading(inflight, key@),
    ensures
        is_loading(inflight.push((key, number)), key@),
        load_of(inflight.push((key, number)), key@) == number,
        !is_loading(loads_without(inflight.push((key, number)), key@), key@),
{
    let after = inflight.push((key, number));
    assert(after[inflight.len() as int].0@ == key@);
    let k = choose|k: int| 0 <= k < after.len() && (#[trigger] after[k]).0@ == key@;
    if k < inflight.len() {
        assert(inflight[k] == after[k]);
    }
    lemma_loads_without(after, key@);
}

/// What is not finished stays in flight: finishing one load leaves all the others, in
/// order.
pub proof fn law_finishing_one_load_leaves_the_others(
    inflight: Seq<(NodeUid, u64)>,
    key: (Seq<char>, Seq<char>),
)
    ensures
        loads_without(inflight, key) == inflight.filter(|entry: (NodeUid, u64)| entry.0@ != key),
        is_loading(inflight, key) <==> exists|i: int|
            0 <= i < inflight.len() && (#[trigger] inflight[i]).0@ == key,
        is_loading(inflight, key) ==> exists|i: int|
            0 <= i < inflight.len() && (#[trigger] inflight[i]).0@ == key && load_of(inflight, key)
                == inflight[i].1,
    decreases inflight.len(),
{
    reveal(Seq::filter);
    if inflight.len() > 0 {
        law_finishing_one_load_leaves_the_others(inflight.drop_last(), key);
    }
}

/// A failure as it is handed to everybody who waited for it. A refusal by the server
/// keeps what it says; of any other failure `told`, how it reads, is kept.
pub fn shared_error(error: &ProtonError, told: &str) -> (r: ProtonError)
    ensures
        match *error {
            ProtonError::Api(e) => r == ProtonError::Api(e),
            _ => r is InvalidOperation && r->InvalidOperation_0@ == told@,
        },
{
    match error {
        ProtonError::Api(_) => error.clone(),
        _ => ProtonError::InvalidOperation(owned(told)),
    }
}

} // verus!
