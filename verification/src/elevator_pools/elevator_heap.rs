//! A pool that hands out the car with the least load first: a binary heap
//! of snapshots with an index from car id to place in the heap.

use crate::elevator::ElevatorState;
use crate::elevator_pools::by_id;
use crate::elevator_pools::distinct;
use crate::elevator_pools::holds;
use crate::elevator_pools::lemma_by_id_empty;
use crate::elevator_pools::lemma_by_id_len;
use crate::elevator_pools::lemma_by_id_nothing;
use crate::elevator_pools::lemma_by_id_with;
use crate::elevator_pools::lemma_position_unique;
use crate::elevator_pools::lemma_with_distinct;
use crate::elevator_pools::position;
use crate::interfaces::ElevatorPool;
use std::collections::HashMap;
use vstd::prelude::*;

verus! {

/// Why an operation was refused.
#[derive(Debug)]
pub struct MyError {
    message: String,
}

impl View for MyError {
    type V = Seq<char>;

    closed spec fn view(&self) -> Seq<char> {
        self.message@
    }
}

impl MyError {
    /// An error with this text.
    pub fn new(message: &str) -> (error: MyError)
        ensures
            error@ == message@,
    {
        MyError { message: message.to_owned() }
    }

    /// The text of the error.
    pub fn message(&self) -> (text: String)
        ensures
            text@ == self@,
    {
        self.message.clone()
    }
}

/// The place above `at` in the heap.
spec fn parent(at: int) -> int {
    (at - 1) / 2
}

/// The car in place `at` has no smaller load than the car above it.
spec fn fits(cars: Seq<ElevatorState>, at: int) -> bool {
    cars[parent(at)].current_load <= cars[at].current_load
}

/// The car in place `at` has no smaller load than the car above `hole`.
spec fn clears(cars: Seq<ElevatorState>, hole: int, at: int) -> bool {
    cars[parent(hole)].current_load <= cars[at].current_load
}

/// No car has a smaller load than the car above it, so that the first car
/// has the least load of all.
spec fn ordered(cars: Seq<ElevatorState>) -> bool {
    forall|at: int| 0 < at < cars.len() ==> #[trigger] fits(cars, at)
}

/// The heap order holds but, maybe, between the car in place `hole` and the
/// car above it; the cars below `hole` are in order with the car above it.
spec fn ordered_but_above(cars: Seq<ElevatorState>, hole: int) -> bool {
    &&& forall|at: int| 0 < at < cars.len() && at != hole ==> #[trigger] fits(cars, at)
    &&& forall|at: int|
        0 < at < cars.len() && parent(at) == hole && hole > 0 ==> #[trigger] clears(cars, hole, at)
}

/// The heap order holds but, maybe, between the car in place `hole` and the
/// cars below it; the cars below `hole` are in order with the car above it.
spec fn ordered_but_below(cars: Seq<ElevatorState>, hole: int) -> bool {
    &&& forall|at: int| 0 < at < cars.len() && parent(at) != hole ==> #[trigger] fits(cars, at)
    &&& forall|at: int|
        0 < at < cars.len() && parent(at) == hole && hole > 0 ==> #[trigger] clears(cars, hole, at)
}

/// The index names every car of the heap with its place, and nothing else.
spec fn indexed(cars: Seq<ElevatorState>, index: Map<usize, usize>) -> bool {
    &&& forall|at: int|
        0 <= at < cars.len() ==> index.contains_key((#[trigger] cars[at]).id) && index[cars[at].id]
            == at
    &&& forall|id: usize| #[trigger]
        index.contains_key(id) ==> index[id] < cars.len() && cars[index[id] as int].id == id
}

/// The cars with those in places `first` and `second` exchanged.
spec fn exchanged(cars: Seq<ElevatorState>, first: int, second: int) -> Seq<ElevatorState> {
    cars.update(first, cars[second]).update(second, cars[first])
}

/// An indexed heap holds no car twice, and holds exactly the indexed cars.
proof fn lemma_indexed_distinct(cars: Seq<ElevatorState>, index: Map<usize, usize>)
    requires
        indexed(cars, index),
    ensures
        distinct(cars),
        forall|id: usize| holds(cars, id) <==> index.contains_key(id),
        forall|id: usize| #[trigger] index.contains_key(id) ==> position(cars, id) == index[id],
{
    assert forall|id: usize| #[trigger] index.contains_key(id) implies holds(cars, id) && position(
        cars,
        id,
    ) == index[id] by {}
}

/// Two pools without repeats that hold the same snapshots are the same by
/// id, in whatever order they hold them.
proof fn lemma_by_id_same(first: Seq<ElevatorState>, second: Seq<ElevatorState>)
    requires
        distinct(first),
        distinct(second),
        forall|at: int| 0 <= at < first.len() ==> second.contains(#[trigger] first[at]),
        forall|at: int| 0 <= at < second.len() ==> first.contains(#[trigger] second[at]),
    ensures
        by_id(first) == by_id(second),
{
    assert forall|id: usize| holds(first, id) implies holds(second, id) && #[trigger] by_id(
        first,
    )[id] == by_id(second)[id] by {
        let at = position(first, id);
        let other = second.index_of(first[at]);
        lemma_position_unique(second, other);
    }
    assert forall|id: usize| holds(second, id) implies holds(first, id) by {
        assert(first.contains(second[position(second, id)]));
    }
}

/// By id an exchange changes nothing.
proof fn lemma_exchanged_by_id(cars: Seq<ElevatorState>, first: int, second: int)
    requires
        distinct(cars),
        0 <= first < cars.len(),
        0 <= second < cars.len(),
    ensures
        distinct(exchanged(cars, first, second)),
        by_id(exchanged(cars, first, second)) == by_id(cars),
{
    let after = exchanged(cars, first, second);
    let to = |at: int|
        if at == first {
            second
        } else if at == second {
            first
        } else {
            at
        };
    assert forall|at: int| 0 <= at < cars.len() implies after.contains(#[trigger] cars[at]) by {
        assert(after[to(at)] == cars[at]);
    }
    lemma_by_id_same(after, cars);
}

/// By id, a car that joins at the end of a heap is an insertion.
proof fn lemma_push_by_id(cars: Seq<ElevatorState>, car: ElevatorState)
    requires
        distinct(cars),
        !holds(cars, car.id),
    ensures
        distinct(cars.push(car)),
        by_id(cars.push(car)) == by_id(cars).insert(car.id, car),
{
    lemma_with_distinct(cars, car);
    lemma_by_id_with(cars, car);
}

/// By id, moving the last car into the place of another is a removal of that
/// other car.
proof fn lemma_swap_remove_by_id(cars: Seq<ElevatorState>, at: int)
    requires
        distinct(cars),
        0 <= at < cars.len(),
    ensures
        distinct(cars.update(at, cars.last()).drop_last()),
        by_id(cars.update(at, cars.last()).drop_last()) == by_id(cars).remove(cars[at].id),
        by_id(cars).contains_key(cars[at].id),
        by_id(cars)[cars[at].id] == cars[at],
{
    let after = cars.update(at, cars.last()).drop_last();
    let gone = cars[at].id;
    let end = cars.len() - 1;
    lemma_position_unique(cars, at);
    let from = |k: int|
        if k == at {
            end
        } else {
            k
        };
    assert forall|id: usize| holds(after, id) <==> holds(cars, id) && id != gone by {
        if holds(after, id) {
            let k = position(after, id);
            lemma_position_unique(cars, from(k));
        }
        if holds(cars, id) && id != gone {
            let k = position(cars, id);
            if k == end {
                assert(after[at] == cars[end]);
            } else {
                assert(after[k] == cars[k]);
            }
        }
    }
    assert forall|id: usize| holds(after, id) implies #[trigger] by_id(after)[id] == by_id(
        cars,
    )[id] by {
        let k = position(after, id);
        lemma_position_unique(cars, from(k));
    }
}

/// In an ordered heap the first car has the least load.
proof fn lemma_first_is_least(cars: Seq<ElevatorState>, at: int)
    requires
        ordered(cars),
        0 <= at < cars.len(),
    ensures
        cars[0].current_load <= cars[at].current_load,
    decreases at,
{
    if at > 0 {
        assert(fits(cars, at));
        lemma_first_is_least(cars, parent(at));
    }
}

/// Exchanges the cars in two places and brings the index up to date.
fn exchange(
    cars: &mut Vec<ElevatorState>,
    index: &mut HashMap<usize, usize>,
    first: usize,
    second: usize,
)
    requires
        indexed(old(cars)@, old(index)@),
        first < old(cars)@.len(),
        second < old(cars)@.len(),
    ensures
        final(cars)@ == exchanged(old(cars)@, first as int, second as int),
        indexed(final(cars)@, final(index)@),
        by_id(final(cars)@) == by_id(old(cars)@),
{
    broadcast use vstd::std_specs::hash::group_hash_axioms;

    proof {
        lemma_indexed_distinct(cars@, index@);
        lemma_exchanged_by_id(cars@, first as int, second as int);
    }
    let one = cars[first];
    let other = cars[second];
    cars.set(first, other);
    cars.set(second, one);
    index.insert(other.id, first);
    index.insert(one.id, second);
}

/// Lets the car in place `start` rise until the car above it has no larger
/// load.
fn bubble_up(cars: &mut Vec<ElevatorState>, index: &mut HashMap<usize, usize>, start: usize)
    requires
        indexed(old(cars)@, old(index)@),
        start < old(cars)@.len(),
        ordered_but_above(old(cars)@, start as int),
    ensures
        indexed(final(cars)@, final(index)@),
        ordered(final(cars)@),
        by_id(final(cars)@) == by_id(old(cars)@),
        final(cars)@.len() == old(cars)@.len(),
{
    let mut at: usize = start;
    while at > 0 && cars[(at - 1) / 2].current_load > cars[at].current_load
        invariant
            indexed(cars@, index@),
            at < cars@.len(),
            ordered_but_above(cars@, at as int),
            by_id(cars@) == by_id(old(cars)@),
            cars@.len() == old(cars)@.len(),
        decreases at,
    {
        let above: usize = (at - 1) / 2;
        let ghost before = cars@;
        exchange(cars, index, above, at);
        proof {
            let after = cars@;
            let hole = at as int;
            assert forall|k: int| 0 < k < after.len() && k != above implies #[trigger] fits(
                after,
                k,
            ) by {
                // The car that rose is lighter than the one that sank;
                // those below the sunk one were in order with it before.
                if parent(k) == hole {
                    assert(clears(before, hole, k));
                } else if k != hole {
                    assert(fits(before, k));
                }
            }
            assert forall|k: int|
                0 < k < after.len() && parent(k) == above && above > 0 implies #[trigger] clears(
                after,
                above as int,
                k,
            ) by {
                assert(fits(before, above as int));
                if k != hole {
                    assert(fits(before, k));
                }
            }
        }
        at = above;
    }
}

/// Lets the car in place `start` sink until no car below it has a smaller
/// load.
fn bubble_down(cars: &mut Vec<ElevatorState>, index: &mut HashMap<usize, usize>, start: usize)
    requires
        indexed(old(cars)@, old(index)@),
        start < old(cars)@.len(),
        ordered_but_below(old(cars)@, start as int),
    ensures
        indexed(final(cars)@, final(index)@),
        ordered(final(cars)@),
        by_id(final(cars)@) == by_id(old(cars)@),
        final(cars)@.len() == old(cars)@.len(),
{
    let size: usize = cars.len();
    let mut at: usize = start;
    let mut settled = false;
    while !settled && at < size / 2
        invariant
            size == cars@.len(),
            indexed(cars@, index@),
            at < size,
            ordered_but_below(cars@, at as int),
            settled ==> ordered(cars@),
            by_id(cars@) == by_id(old(cars)@),
            cars@.len() == old(cars)@.len(),
        decreases size - at, if settled { 0int } else { 1int },
    {
        let left: usize = 2 * at + 1;
        let right: usize = left + 1;
        let mut least: usize = at;
        if cars[left].current_load < cars[least].current_load {
            least = left;
        }
        if right < size && cars[right].current_load < cars[least].current_load {
            least = right;
        }
        if least == at {
            settled = true;
        } else {
            let ghost before = cars@;
            exchange(cars, index, at, least);
            proof {
                let after = cars@;
                let hole = at as int;
                assert forall|k: int|
                    0 < k < after.len() && parent(k) != least implies #[trigger] fits(after, k) by {
                    // The car that rose is the lightest of the three; it
                    // was in order with the car above the one that sank.
                    if k == hole {
                        assert(clears(before, hole, least as int));
                    } else if k != least && parent(k) != hole {
                        assert(fits(before, k));
                    }
                }
                assert forall|k: int|
                    0 < k < after.len() && parent(k) == least && least > 0 implies #[trigger] clears(
                    after,
                    least as int,
                    k,
                ) by {
                    assert(fits(before, k));
                }
            }
            at = least;
        }
    }
}

/// Car snapshots as a binary heap by load, with the place of every car.
pub struct ElevatorHeap {
    elevators: Vec<ElevatorState>,
    elevators_index: HashMap<usize, usize>,
}

impl View for ElevatorHeap {
    type V = Map<usize, ElevatorState>;

    /// The snapshots by the id of their car.
    closed spec fn view(&self) -> Map<usize, ElevatorState> {
        by_id(self.elevators@)
    }
}

impl ElevatorHeap {
    #[verifier::type_invariant]
    spec fn inv(&self) -> bool {
        &&& indexed(self.elevators@, self.elevators_index@)
        &&& ordered(self.elevators@)
    }

    /// Moves the heap out, leaving an empty one in its place until the
    /// caller puts the next value back.
    fn take(&mut self) -> (taken: ElevatorHeap)
        ensures
            taken == *old(self),
    {
        let mut taken = ElevatorHeap::new();
        std::mem::swap(self, &mut taken);
        taken
    }

    /// Takes the car in place `at` out of the heap and restores the order.
    fn extract(
        cars: &mut Vec<ElevatorState>,
        index: &mut HashMap<usize, usize>,
        at: usize,
    ) -> (elevator: ElevatorState)
        requires
            indexed(old(cars)@, old(index)@),
            ordered(old(cars)@),
            at < old(cars)@.len(),
        ensures
            elevator == old(cars)@[at as int],
            indexed(final(cars)@, final(index)@),
            ordered(final(cars)@),
            by_id(final(cars)@) == by_id(old(cars)@).remove(elevator.id),
            by_id(old(cars)@).contains_key(elevator.id),
            by_id(old(cars)@)[elevator.id] == elevator,
            final(cars)@.len() == old(cars)@.len() - 1,
    {
        broadcast use vstd::std_specs::hash::group_hash_axioms;

        let ghost before = cars@;
        let ghost places = index@;
        proof {
            lemma_indexed_distinct(before, places);
            lemma_swap_remove_by_id(before, at as int);
        }
        let elevator = cars.swap_remove(at);
        index.remove(&elevator.id);
        if at < cars.len() {
            let moved = cars[at];
            index.insert(moved.id, at);
            assert(indexed(cars@, index@));
            if at > 0 && cars[at].current_load < cars[(at - 1) / 2].current_load {
                proof {
                    let now = cars@;
                    let hole = at as int;
                    assert(fits(before, hole));
                    assert forall|k: int|
                        0 < k < now.len() && k != hole implies #[trigger] fits(now, k) by {
                        assert(fits(before, k));
                    }
                    assert forall|k: int|
                        0 < k < now.len() && parent(k) == hole && hole > 0 implies #[trigger] clears(
                        now,
                        hole,
                        k,
                    ) by {
                        assert(fits(before, k));
                    }
                }
                bubble_up(cars, index, at);
            } else {
                proof {
                    let now = cars@;
                    let hole = at as int;
                    assert forall|k: int|
                        0 < k < now.len() && parent(k) != hole implies #[trigger] fits(now, k) by {
                        if k != hole {
                            assert(fits(before, k));
                        }
                    }
                    assert forall|k: int|
                        0 < k < now.len() && parent(k) == hole && hole > 0 implies #[trigger] clears(
                        now,
                        hole,
                        k,
                    ) by {
                        assert(fits(before, k));
                        assert(fits(before, hole));
                    }
                }
                bubble_down(cars, index, at);
            }
        } else {
            assert(indexed(cars@, index@));
            assert(ordered(cars@)) by {
                let now = cars@;
                assert forall|k: int| 0 < k < now.len() implies #[trigger] fits(now, k) by {
                    assert(fits(before, k));
                }
            }
        }
        elevator
    }
}

impl ElevatorPool for ElevatorHeap {
    open spec fn cars(&self) -> Map<usize, ElevatorState> {
        self@
    }

    /// An empty pool.
    fn new() -> (pool: ElevatorHeap) {
        proof {
            lemma_by_id_empty();
        }
        ElevatorHeap { elevators: Vec::new(), elevators_index: HashMap::new() }
    }

    /// How many cars are in.
    fn len(&self) -> (count: usize) {
        proof {
            use_type_invariant(self);
            lemma_indexed_distinct(self.elevators@, self.elevators_index@);
            lemma_by_id_len(self.elevators@);
        }
        self.elevators.len()
    }

    /// Hands out a car with the least load, if the pool holds any.
    fn get_elevator(&mut self) -> (elevator: Option<ElevatorState>)
        ensures
            elevator matches Some(car) ==> forall|id: usize| #[trigger]
                old(self)@.contains_key(id) ==> car.current_load <= old(self)@[id].current_load,
    {
        proof {
            use_type_invariant(&*self);
        }
        if self.elevators.len() == 0 {
            proof {
                lemma_by_id_nothing(self.elevators@);
            }
            return None;
        }
        let ElevatorHeap { elevators, elevators_index } = self.take();
        let mut elevators = elevators;
        let mut elevators_index = elevators_index;
        let ghost before = elevators@;
        let elevator = ElevatorHeap::extract(&mut elevators, &mut elevators_index, 0);
        proof {
            assert forall|id: usize| #[trigger] by_id(before).contains_key(id) implies 
                elevator.current_load <= by_id(before)[id].current_load by {
                lemma_first_is_least(before, position(before, id));
            }
        }
        *self = ElevatorHeap { elevators, elevators_index };
        Some(elevator)
    }

    /// Takes a snapshot in. A car that is already in keeps its old snapshot.
    fn insert_elevator(&mut self, elevator: ElevatorState) -> (result: Result<(), MyError>)
        ensures
            result is Ok,
    {
        broadcast use vstd::std_specs::hash::group_hash_axioms;

        proof {
            use_type_invariant(&*self);
            lemma_indexed_distinct(self.elevators@, self.elevators_index@);
        }
        if self.elevators_index.contains_key(&elevator.id) {
            return Ok(());
        }
        let ElevatorHeap { elevators, elevators_index } = self.take();
        let mut elevators = elevators;
        let mut elevators_index = elevators_index;
        let ghost before = elevators@;
        let end: usize = elevators.len();
        elevators.push(elevator);
        elevators_index.insert(elevator.id, end);
        proof {
            lemma_push_by_id(before, elevator);
            let now = elevators@;
            assert(indexed(now, elevators_index@)) by {
                assert forall|k: int| 0 <= k < now.len() implies elevators_index@.contains_key(
                    (#[trigger] now[k]).id,
                ) && elevators_index@[now[k].id] == k by {}
            }
            assert(ordered_but_above(now, end as int)) by {
                assert forall|k: int| 0 < k < now.len() && k != end implies #[trigger] fits(
                    now,
                    k,
                ) by {
                    assert(fits(before, k));
                }
            }
        }
        bubble_up(&mut elevators, &mut elevators_index, end);
        *self = ElevatorHeap { elevators, elevators_index };
        Ok(())
    }

    /// Takes the car of this id out and returns its snapshot; a pool that
    /// does not hold the car stays as it is.
    fn remove_elevator(&mut self, elevator_id: usize) -> (elevator: Option<ElevatorState>) {
        broadcast use vstd::std_specs::hash::group_hash_axioms;

        proof {
            use_type_invariant(&*self);
            lemma_indexed_distinct(self.elevators@, self.elevators_index@);
        }
        let place = match self.elevators_index.get(&elevator_id) {
            Some(place) => *place,
            None => return None,
        };
        let ElevatorHeap { elevators, elevators_index } = self.take();
        let mut elevators = elevators;
        let mut elevators_index = elevators_index;
        let elevator = ElevatorHeap::extract(&mut elevators, &mut elevators_index, place);
        *self = ElevatorHeap { elevators, elevators_index };
        Some(elevator)
    }
}

} // verus!
