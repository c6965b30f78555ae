//! One car's published state and its door primitives.

use crate::elevator_pools::elevator_heap::MyError;
use crate::interfaces::ElevatorI;
use vstd::prelude::*;

verus! {

/// Where a car is heading next.
#[derive(Clone, Copy, Debug, PartialEq, Eq, Structural)]
pub enum Direction {
    Up,
    Down,
    Idle,
}

impl Direction {
    /// The name of the direction on the wire.
    pub open spec fn name(self) -> Seq<char> {
        match self {
            Direction::Up => "up"@,
            Direction::Down => "down"@,
            Direction::Idle => "idle"@,
        }
    }

    /// The direction a name on the wire stands for, if any.
    pub open spec fn named(text: Seq<char>) -> Option<Direction> {
        if text == "up"@ {
            Some(Direction::Up)
        } else if text == "down"@ {
            Some(Direction::Down)
        } else if text == "idle"@ {
            Some(Direction::Idle)
        } else {
            None
        }
    }

    /// The direction of a ride between two floors: up when the target lies
    /// above the start, down otherwise.
    pub open spec fn between(from: usize, to: usize) -> Direction {
        if to > from {
            Direction::Up
        } else {
            Direction::Down
        }
    }

    /// The name of the direction on the wire.
    pub fn as_str(&self) -> (text: &'static str)
        ensures
            text@ == self.name(),
    {
        match self {
            Direction::Up => "up",
            Direction::Down => "down",
            Direction::Idle => "idle",
        }
    }

    /// The direction that a name on the wire stands for, if any.
    pub fn parse(text: &str) -> (direction: Option<Direction>)
        ensures
            direction == Direction::named(text@),
    {
        let owned = text.to_owned();
        if owned == "up".to_owned() {
            Some(Direction::Up)
        } else if owned == "down".to_owned() {
            Some(Direction::Down)
        } else if owned == "idle".to_owned() {
            Some(Direction::Idle)
        } else {
            None
        }
    }

    /// The direction of a ride from one floor to another.
    pub fn toward(from: usize, to: usize) -> (direction: Direction)
        ensures
            direction == Direction::between(from, to),
    {
        if to > from {
            Direction::Up
        } else {
            Direction::Down
        }
    }
}

/// Every name parses back to the direction it names.
pub proof fn lemma_direction_name_round_trip(direction: Direction)
    ensures
        Direction::named(direction.name()) == Some(direction),
{
    reveal_strlit("up");
    reveal_strlit("down");
    reveal_strlit("idle");
    assert("up"@.len() == 2);
    assert("idle"@[0] == 'i');
}

/// Snapshot of one car, as published on every observable change.
#[derive(Clone, Copy, Debug, PartialEq, Eq, Structural)]
pub struct ElevatorState {
    pub id: usize,
    pub is_door_open: bool,
    pub is_moving: bool,
    pub current_floor: usize,
    pub current_load: usize,
    pub direction: Direction,
    pub initial_direction: Direction,
}

impl ElevatorState {
    /// A car at rest on the ground floor with its doors closed.
    pub open spec fn initial(id: usize) -> ElevatorState {
        ElevatorState {
            id,
            is_door_open: false,
            is_moving: false,
            current_floor: 0,
            current_load: 0,
            direction: Direction::Idle,
            initial_direction: Direction::Idle,
        }
    }

    /// The doors are never open while the car moves.
    pub open spec fn door_safe(self) -> bool {
        !(self.is_door_open && self.is_moving)
    }

    /// A moving car is heading up or down; an idle car does not move.
    pub open spec fn direction_consistent(self) -> bool {
        self.is_moving ==> self.direction != Direction::Idle
    }

    /// An event that leaves the car in the motion class it was in: the
    /// dispatcher keeps its pools as they are.
    pub open spec fn keeps_class(self) -> bool {
        self.direction == self.initial_direction && self.direction != Direction::Idle
    }

    /// A new car: at rest on the ground floor, doors closed, idle.
    pub fn new(id: usize) -> (elevator: ElevatorState)
        ensures
            elevator == ElevatorState::initial(id),
    {
        ElevatorState {
            id,
            is_door_open: false,
            is_moving: false,
            current_floor: 0,
            current_load: 0,
            direction: Direction::Idle,
            initial_direction: Direction::Idle,
        }
    }

    /// Whether this event leaves the car in its motion class, as the events
    /// between two floors of one ride do.
    pub fn is_intra_travel(&self) -> (skip: bool)
        ensures
            skip == self.keeps_class(),
    {
        self.direction == self.initial_direction && self.direction != Direction::Idle
    }
}

impl ElevatorI for ElevatorState {
    open spec fn car(&self) -> ElevatorState {
        *self
    }

    fn close_door(&mut self) -> (result: Result<(), MyError>) {
        self.is_door_open = false;
        Ok(())
    }

    fn open_door(&mut self) -> (result: Result<(), MyError>)
        ensures
            result matches Err(error) ==> error@
                == "the doors stay closed while the car is moving"@,
    {
        if self.is_moving {
            Err(MyError::new("the doors stay closed while the car is moving"))
        } else {
            self.is_door_open = true;
            Ok(())
        }
    }
}

} // verus!
