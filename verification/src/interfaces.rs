//! What a pool, a car, a car's controller and the dispatcher offer.

use crate::central_elevator_controller::Assignment;
use crate::central_elevator_controller::DispatcherModel;
use crate::central_elevator_controller::ElevatorRequest;
use crate::central_elevator_controller::PoolStates;
use crate::elevator::ElevatorState;
use crate::elevator_controller::Action;
use crate::elevator_controller::ControllerModel;
use crate::elevator_pools::elevator_heap::MyError;
use vstd::prelude::*;

verus! {

/// A pool of car snapshots, at most one of each car. Which car a pool hands
/// out first is up to the pool.
pub trait ElevatorPool: Sized {
    /// The snapshots in the pool, by the id of their car.
    spec fn cars(&self) -> Map<usize, ElevatorState>;

    /// An empty pool.
    fn new() -> (pool: Self)
        ensures
            pool.cars() == Map::<usize, ElevatorState>::empty(),
    ;

    /// Hands one car out, if the pool holds any.
    fn get_elevator(&mut self) -> (elevator: Option<ElevatorState>)
        ensures
            match elevator {
                Some(car) => {
                    &&& old(self).cars().contains_key(car.id)
                    &&& old(self).cars()[car.id] == car
                    &&& final(self).cars() == old(self).cars().remove(car.id)
                },
                None => {
                    &&& old(self).cars() == Map::<usize, ElevatorState>::empty()
                    &&& final(self).cars() == old(self).cars()
                },
            },
    ;

    /// Takes a snapshot in, unless the pool holds the car already. A pool
    /// that refuses stays as it is.
    fn insert_elevator(&mut self, elevator: ElevatorState) -> (result: Result<(), MyError>)
        ensures
            result is Ok ==> final(self).cars() == if old(self).cars().contains_key(elevator.id) {
                old(self).cars()
            } else {
                old(self).cars().insert(elevator.id, elevator)
            },
            result is Err ==> final(self).cars() == old(self).cars(),
    ;

    /// Takes the car of this id out and returns its snapshot, if the pool
    /// holds the car.
    fn remove_elevator(&mut self, elevator_id: usize) -> (elevator: Option<ElevatorState>)
        ensures
            elevator == if old(self).cars().contains_key(elevator_id) {
                Some(old(self).cars()[elevator_id])
            } else {
                None
            },
            final(self).cars() == old(self).cars().remove(elevator_id),
    ;

    /// How many cars are in.
    fn len(&self) -> (count: usize)
        ensures
            count == self.cars().len(),
    ;
}

/// The door primitives of a car.
pub trait ElevatorI: Sized {
    /// The car as a plain record.
    spec fn car(&self) -> ElevatorState;

    /// Closes the doors.
    fn close_door(&mut self) -> (result: Result<(), MyError>)
        ensures
            result is Ok,
            final(self).car() == (ElevatorState { is_door_open: false, ..old(self).car() }),
    ;

    /// Opens the doors of a car at rest; a moving car refuses and stays as
    /// it is.
    fn open_door(&mut self) -> (result: Result<(), MyError>)
        ensures
            result is Ok <==> !old(self).car().is_moving,
            result is Ok ==> final(self).car() == (ElevatorState {
                is_door_open: true,
                ..old(self).car()
            }),
            result is Err ==> final(self).car() == old(self).car(),
    ;
}

/// What sets a car off on a ride.
pub trait ElevatorControllerI: View<V = ControllerModel> + Sized {
    /// Starts a ride to `destination`. Only a car at rest between two rides
    /// can leave; one that is under way refuses and stays as it is.
    fn go_to_floor(&mut self, destination: usize) -> (result: Result<Action, MyError>)
        ensures
            result is Ok <==> old(self)@.at_rest(),
            result matches Ok(action) ==> (final(self)@, action) == old(self)@.depart(destination),
            result is Err ==> final(self)@ == old(self)@,
    ;
}

/// What the dispatcher offers to those who call a car.
pub trait CentralElevatorControllerI: View<V = DispatcherModel> + Sized {
    /// Selects a car for a hall call from `floor` to `destination` and takes
    /// it out of its pool. Returns the car and the request that goes to it,
    /// or nothing when all pools are empty.
    fn call_for_an_elevator(&mut self, floor: usize, destination: usize) -> (assignment: Option<
        Assignment,
    >)
        ensures
            final(self)@ == old(self)@.dispatch(ElevatorRequest { from: floor, to: destination }),
            assignment == match old(self)@.choice(
                ElevatorRequest { from: floor, to: destination },
            ) {
                Some(car) => Some(
                    Assignment {
                        car: car.id,
                        request: ElevatorRequest { from: floor, to: destination },
                    },
                ),
                None => None,
            },
    ;

    /// The three pools as they stand, for a printout.
    fn print_states(&self) -> (states: PoolStates)
        ensures
            states.idle@ == self@.idle,
            states.up@ == self@.up,
            states.down@ == self@.down,
    ;
}

} // verus!
