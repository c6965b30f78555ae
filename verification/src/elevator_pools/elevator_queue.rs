//! A pool that hands its cars out in the order in which they came in.

use crate::elevator::ElevatorState;
use crate::elevator_pools::by_id;
use crate::elevator_pools::distinct;
use crate::elevator_pools::elevator_heap::MyError;
use crate::elevator_pools::found;
use crate::elevator_pools::holds;
use crate::elevator_pools::lemma_by_id_empty;
use crate::elevator_pools::lemma_by_id_len;
use crate::elevator_pools::lemma_by_id_nothing;
use crate::elevator_pools::lemma_by_id_with;
use crate::elevator_pools::lemma_by_id_without;
use crate::elevator_pools::lemma_position_unique;
use crate::elevator_pools::lemma_with_distinct;
use crate::elevator_pools::lemma_without_distinct;
use crate::elevator_pools::with;
use crate::elevator_pools::without;
use crate::interfaces::ElevatorPool;
use std::collections::HashSet;
use std::collections::VecDeque;
use vstd::prelude::*;

verus! {

/// Car snapshots in arrival order, with an index of the ids that are in.
pub struct ElevatorQueue {
    elevators: VecDeque<ElevatorState>,
    elevators_index: HashSet<usize>,
}

impl View for ElevatorQueue {
    type V = Seq<ElevatorState>;

    /// The snapshots from the oldest to the newest.
    closed spec fn view(&self) -> Seq<ElevatorState> {
        if distinct(self.elevators@) {
            self.elevators@
        } else {
            Seq::empty()
        }
    }
}

impl ElevatorQueue {
    #[verifier::type_invariant]
    spec fn inv(&self) -> bool {
        &&& distinct(self.elevators@)
        &&& forall|id: usize| self.elevators_index@.contains(id) <==> holds(self.elevators@, id)
    }

    /// No car is in a pool twice.
    pub proof fn lemma_distinct(&self)
        ensures
            distinct(self@),
    {
    }

    /// A copy of the snapshots, from the oldest to the newest.
    pub fn elevators(&self) -> (copy: Vec<ElevatorState>)
        ensures
            copy@ == self@,
    {
        proof {
            use_type_invariant(self);
        }
        let mut copy: Vec<ElevatorState> = Vec::new();
        let mut at: usize = 0;
        while at < self.elevators.len()
            invariant
                at <= self.elevators@.len(),
                copy@ == self.elevators@.take(at as int),
            decreases self.elevators@.len() - at,
        {
            copy.push(self.elevators[at]);
            at += 1;
        }
        copy
    }

    /// Moves the queue out, leaving an empty one in its place until the
    /// caller puts the next value back.
    fn take(&mut self) -> (taken: ElevatorQueue)
        ensures
            taken == *old(self),
    {
        let mut taken = ElevatorQueue::new();
        std::mem::swap(self, &mut taken);
        taken
    }
}

impl ElevatorPool for ElevatorQueue {
    open spec fn cars(&self) -> Map<usize, ElevatorState> {
        by_id(self@)
    }

    /// An empty pool.
    fn new() -> (pool: ElevatorQueue)
        ensures
            pool@ == Seq::<ElevatorState>::empty(),
    {
        proof {
            lemma_by_id_empty();
        }
        ElevatorQueue { elevators: VecDeque::new(), elevators_index: HashSet::new() }
    }

    /// How many cars are in.
    fn len(&self) -> (count: usize)
        ensures
            count == self@.len(),
    {
        proof {
            use_type_invariant(self);
            lemma_by_id_len(self@);
        }
        self.elevators.len()
    }

    /// Hands the oldest car out, if the pool holds any.
    fn get_elevator(&mut self) -> (elevator: Option<ElevatorState>)
        ensures
            old(self)@.len() == 0 ==> elevator is None && final(self)@ == old(self)@,
            old(self)@.len() > 0 ==> elevator == Some(old(self)@[0]) && final(self)@ == old(
                self,
            )@.drop_first(),
    {
        broadcast use vstd::std_specs::hash::group_hash_axioms;

        proof {
            use_type_invariant(&*self);
        }
        let ElevatorQueue { elevators, elevators_index } = self.take();
        let mut elevators = elevators;
        let mut elevators_index = elevators_index;
        let ghost before = elevators@;
        let elevator = elevators.pop_front();
        match elevator {
            Some(first) => {
                elevators_index.remove(&first.id);
                proof {
                    lemma_position_unique(before, 0);
                    lemma_without_distinct(before, first.id);
                    lemma_by_id_without(before, first.id);
                }
            },
            None => {
                proof {
                    lemma_by_id_nothing(before);
                }
            },
        }
        *self = ElevatorQueue { elevators, elevators_index };
        elevator
    }

    /// Takes a snapshot in. A car that is already in keeps its old snapshot
    /// and its place.
    fn insert_elevator(&mut self, elevator: ElevatorState) -> (result: Result<(), MyError>)
        ensures
            result is Ok,
            final(self)@ == with(old(self)@, elevator),
    {
        broadcast use vstd::std_specs::hash::group_hash_axioms;

        proof {
            use_type_invariant(&*self);
            lemma_by_id_with(self@, elevator);
        }
        if self.elevators_index.contains(&elevator.id) {
            return Ok(());
        }
        let ElevatorQueue { elevators, elevators_index } = self.take();
        let mut elevators = elevators;
        let mut elevators_index = elevators_index;
        proof {
            lemma_with_distinct(elevators@, elevator);
        }
        elevators_index.insert(elevator.id);
        elevators.push_back(elevator);
        *self = ElevatorQueue { elevators, elevators_index };
        Ok(())
    }

    /// Takes the car of this id out and returns its snapshot; a pool that
    /// does not hold the car stays as it is.
    fn remove_elevator(&mut self, elevator_id: usize) -> (elevator: Option<ElevatorState>)
        ensures
            elevator == found(old(self)@, elevator_id),
            final(self)@ == without(old(self)@, elevator_id),
    {
        broadcast use vstd::std_specs::hash::group_hash_axioms;

        proof {
            use_type_invariant(&*self);
            lemma_by_id_without(self@, elevator_id);
        }
        if !self.elevators_index.contains(&elevator_id) {
            return None;
        }
        let ElevatorQueue { elevators, elevators_index } = self.take();
        let mut elevators = elevators;
        let mut elevators_index = elevators_index;
        let ghost before = elevators@;
        let mut at: usize = 0;
        while at < elevators.len() && elevators[at].id != elevator_id
            invariant
                elevators@ == before,
                at <= before.len(),
                forall|k: int| 0 <= k < at ==> before[k].id != elevator_id,
            decreases before.len() - at,
        {
            at += 1;
        }
        proof {
            lemma_position_unique(before, at as int);
            lemma_without_distinct(before, elevator_id);
        }
        let elevator = elevators.remove(at);
        elevators_index.remove(&elevator_id);
        *self = ElevatorQueue { elevators, elevators_index };
        elevator
    }
}

} // verus!
