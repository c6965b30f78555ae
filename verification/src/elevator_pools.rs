//! Pools of car snapshots, one per motion class, and what it means for a
//! sequence of snapshots to be a pool.

use crate::elevator::ElevatorState;
use vstd::prelude::*;

pub mod elevator_heap;
pub mod elevator_queue;

verus! {

/// Whether a car with this id is among `cars`.
pub open spec fn holds(cars: Seq<ElevatorState>, id: usize) -> bool {
    exists|at: int| 0 <= at < cars.len() && #[trigger] cars[at].id == id
}

/// Where the car with this id stands among `cars`, if it is there.
pub open spec fn position(cars: Seq<ElevatorState>, id: usize) -> int {
    choose|at: int| 0 <= at < cars.len() && #[trigger] cars[at].id == id
}

/// No car occurs twice.
pub open spec fn distinct(cars: Seq<ElevatorState>) -> bool {
    forall|first: int, second: int|
        0 <= first < second < cars.len() ==> #[trigger] cars[first].id != #[trigger] cars[second].id
}

/// The snapshot held for this id, if any.
pub open spec fn found(cars: Seq<ElevatorState>, id: usize) -> Option<ElevatorState> {
    if holds(cars, id) {
        Some(cars[position(cars, id)])
    } else {
        None
    }
}

/// The pool after a snapshot was handed in: a car that is already there
/// keeps its old snapshot and its place; a new car joins as the last.
pub open spec fn with(cars: Seq<ElevatorState>, car: ElevatorState) -> Seq<ElevatorState> {
    if holds(cars, car.id) {
        cars
    } else {
        cars.push(car)
    }
}

/// The pool without the car of this id; the others keep their order.
pub open spec fn without(cars: Seq<ElevatorState>, id: usize) -> Seq<ElevatorState> {
    if holds(cars, id) {
        cars.remove(position(cars, id))
    } else {
        cars
    }
}

/// In a pool without repeats a car stands where it is found.
pub proof fn lemma_position_unique(cars: Seq<ElevatorState>, at: int)
    requires
        distinct(cars),
        0 <= at < cars.len(),
    ensures
        holds(cars, cars[at].id),
        position(cars, cars[at].id) == at,
{
}

/// Handing a snapshot in keeps a pool free of repeats, and the car is there
/// afterwards.
pub proof fn lemma_with_distinct(cars: Seq<ElevatorState>, car: ElevatorState)
    requires
        distinct(cars),
    ensures
        distinct(with(cars, car)),
        holds(with(cars, car), car.id),
        forall|id: usize| holds(with(cars, car), id) <==> holds(cars, id) || id == car.id,
{
    let after = with(cars, car);
    if !holds(cars, car.id) {
        assert(after[cars.len() as int].id == car.id);
        assert forall|id: usize| holds(after, id) <==> holds(cars, id) || id == car.id by {
            if holds(cars, id) {
                let at = position(cars, id);
                assert(after[at].id == id);
            }
        }
    }
}

/// What stands where after the car at `gone` was taken out.
proof fn lemma_remove_places(cars: Seq<ElevatorState>, gone: int)
    requires
        0 <= gone < cars.len(),
    ensures
        cars.remove(gone).len() == cars.len() - 1,
        forall|at: int| 0 <= at < gone ==> cars.remove(gone)[at] == cars[at],
        forall|at: int| gone <= at < cars.len() - 1 ==> cars.remove(gone)[at] == cars[at + 1],
{
}

/// Taking a car out keeps a pool free of repeats, and the car is gone
/// afterwards while every other car stays with its snapshot.
pub proof fn lemma_without_distinct(cars: Seq<ElevatorState>, id: usize)
    requires
        distinct(cars),
    ensures
        distinct(without(cars, id)),
        !holds(without(cars, id), id),
        forall|other: usize| holds(without(cars, id), other) <==> holds(cars, other) && other != id,
        forall|other: usize|
            other != id ==> found(without(cars, id), other) == found(cars, other),
{
    let after = without(cars, id);
    if holds(cars, id) {
        let gone = position(cars, id);
        lemma_remove_places(cars, gone);
        assert(distinct(after));
        assert forall|other: usize| holds(after, other) <==> holds(cars, other) && other
            != id by {
            if holds(cars, other) && other != id {
                let at = position(cars, other);
                let moved = if at < gone { at } else { at - 1 };
                assert(after[moved] == cars[at]);
            }
        }
        assert forall|other: usize| other != id implies found(after, other) == found(
            cars,
            other,
        ) by {
            if holds(cars, other) {
                let at = position(cars, other);
                let moved = if at < gone { at } else { at - 1 };
                lemma_position_unique(after, moved);
            }
        }
    }
}

/// The snapshots of a pool by the id of their car.
pub open spec fn by_id(cars: Seq<ElevatorState>) -> Map<usize, ElevatorState> {
    Map::new(|id: usize| holds(cars, id), |id: usize| cars[position(cars, id)])
}

/// An empty pool holds no car.
pub proof fn lemma_by_id_empty()
    ensures
        by_id(Seq::<ElevatorState>::empty()) == Map::<usize, ElevatorState>::empty(),
{
}

/// A pool that holds no car is empty.
pub proof fn lemma_by_id_nothing(cars: Seq<ElevatorState>)
    ensures
        by_id(cars) == Map::<usize, ElevatorState>::empty() <==> cars.len() == 0,
{
    if cars.len() == 0 {
        assert(by_id(cars) =~= Map::<usize, ElevatorState>::empty());
    } else {
        assert(by_id(cars).contains_key(cars[0].id));
    }
}

/// By id, handing a snapshot in is an insertion that spares a car that is
/// there already.
pub proof fn lemma_by_id_with(cars: Seq<ElevatorState>, car: ElevatorState)
    requires
        distinct(cars),
    ensures
        by_id(with(cars, car)) == if by_id(cars).contains_key(car.id) {
            by_id(cars)
        } else {
            by_id(cars).insert(car.id, car)
        },
{
    if !holds(cars, car.id) {
        let after = cars.push(car);
        lemma_with_distinct(cars, car);
        lemma_position_unique(after, cars.len() as int);
        assert forall|id: usize| holds(cars, id) implies #[trigger] by_id(after)[id] == by_id(
            cars,
        )[id] by {
            let at = position(cars, id);
            lemma_position_unique(after, at);
        }
    }
}

/// By id, taking a car out is a removal, and what comes out is what was
/// held for the id.
pub proof fn lemma_by_id_without(cars: Seq<ElevatorState>, id: usize)
    requires
        distinct(cars),
    ensures
        by_id(without(cars, id)) == by_id(cars).remove(id),
        found(cars, id) == if by_id(cars).contains_key(id) {
            Some(by_id(cars)[id])
        } else {
            None
        },
{
    lemma_without_distinct(cars, id);
}

/// A pool without repeats holds as many cars by id as it has snapshots.
pub proof fn lemma_by_id_len(cars: Seq<ElevatorState>)
    requires
        distinct(cars),
    ensures
        by_id(cars).dom().finite(),
        by_id(cars).len() == cars.len(),
    decreases cars.len(),
{
    if cars.len() == 0 {
        lemma_by_id_empty();
        assert(by_id(cars).dom() =~= Set::<usize>::empty());
    } else {
        let front = cars.drop_last();
        let car = cars.last();
        lemma_by_id_len(front);
        assert(!holds(front, car.id));
        assert(with(front, car) =~= cars);
        lemma_by_id_with(front, car);
    }
}

} // verus!
