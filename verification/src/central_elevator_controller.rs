//! The central dispatcher: three pools of cars and the choice of a car for
//! each hall call.

use crate::elevator::Direction;
use crate::elevator::ElevatorState;
use crate::elevator_pools::elevator_queue::ElevatorQueue;
use crate::elevator_pools::distinct;
use crate::elevator_pools::holds;
use crate::elevator_pools::lemma_position_unique;
use crate::elevator_pools::lemma_with_distinct;
use crate::elevator_pools::lemma_without_distinct;
use crate::elevator_pools::with;
use crate::elevator_pools::without;
use crate::interfaces::CentralElevatorControllerI;
use crate::interfaces::ElevatorPool;
use vstd::prelude::*;

verus! {

/// A hall call: a ride from one floor to another.
#[derive(Clone, Copy, Debug, PartialEq, Eq, Structural)]
pub struct ElevatorRequest {
    pub from: usize,
    pub to: usize,
}

impl ElevatorRequest {
    /// The direction the caller wants to travel in.
    pub open spec fn heading(self) -> Direction {
        Direction::between(self.from, self.to)
    }

    /// The direction the caller wants to travel in.
    pub fn direction(&self) -> (direction: Direction)
        ensures
            direction == self.heading(),
    {
        Direction::toward(self.from, self.to)
    }
}

/// The outcome of a hall call that found a car: the request goes to this
/// car, and to no other.
#[derive(Clone, Copy, Debug, PartialEq, Eq, Structural)]
pub struct Assignment {
    pub car: usize,
    pub request: ElevatorRequest,
}

/// A copy of the three pools, each from its oldest car to its newest.
#[derive(Debug, PartialEq, Eq)]
pub struct PoolStates {
    pub idle: Vec<ElevatorState>,
    pub up: Vec<ElevatorState>,
    pub down: Vec<ElevatorState>,
}

/// The direction against `heading`.
pub open spec fn opposite(heading: Direction) -> Direction {
    match heading {
        Direction::Up => Direction::Down,
        Direction::Down => Direction::Up,
        Direction::Idle => Direction::Idle,
    }
}

/// The dispatcher as a plain value: the three pools, each from its oldest
/// car to its newest.
pub struct DispatcherModel {
    pub idle: Seq<ElevatorState>,
    pub up: Seq<ElevatorState>,
    pub down: Seq<ElevatorState>,
}

impl DispatcherModel {
    /// A fleet of `size` new cars, numbered from 0, all idle.
    pub open spec fn initial(size: nat) -> DispatcherModel {
        DispatcherModel {
            idle: Seq::new(size, |id: int| ElevatorState::initial(id as usize)),
            up: Seq::empty(),
            down: Seq::empty(),
        }
    }

    /// The pool of a motion class.
    pub open spec fn pool(self, class: Direction) -> Seq<ElevatorState> {
        match class {
            Direction::Idle => self.idle,
            Direction::Up => self.up,
            Direction::Down => self.down,
        }
    }

    /// The dispatcher with the pool of one class replaced.
    pub open spec fn put(self, class: Direction, cars: Seq<ElevatorState>) -> DispatcherModel {
        match class {
            Direction::Idle => DispatcherModel { idle: cars, ..self },
            Direction::Up => DispatcherModel { up: cars, ..self },
            Direction::Down => DispatcherModel { down: cars, ..self },
        }
    }

    /// Whether the pool of `class` holds the car.
    pub open spec fn has(self, class: Direction, id: usize) -> bool {
        holds(self.pool(class), id)
    }

    /// No pool holds a car twice.
    pub open spec fn wf(self) -> bool {
        distinct(self.idle) && distinct(self.up) && distinct(self.down)
    }

    /// No car is in two pools.
    pub open spec fn exclusive(self) -> bool {
        forall|id: usize, first: Direction, second: Direction|
            #[trigger] self.has(first, id) && #[trigger] self.has(second, id) ==> first == second
    }

    /// The pool a call draws from: the idle cars first, then the cars that
    /// move the way the caller wants to go, then those that move the other
    /// way; none when every pool is empty.
    pub open spec fn source(self, request: ElevatorRequest) -> Option<Direction> {
        let heading = request.heading();
        if self.idle.len() > 0 {
            Some(Direction::Idle)
        } else if self.pool(heading).len() > 0 {
            Some(heading)
        } else if self.pool(opposite(heading)).len() > 0 {
            Some(opposite(heading))
        } else {
            None
        }
    }

    /// The car a call selects: the oldest of the pool it draws from.
    pub open spec fn choice(self, request: ElevatorRequest) -> Option<ElevatorState> {
        match self.source(request) {
            Some(class) => Some(self.pool(class)[0]),
            None => None,
        }
    }

    /// The dispatcher after a call: the selected car has left its pool.
    pub open spec fn dispatch(self, request: ElevatorRequest) -> DispatcherModel {
        match self.source(request) {
            Some(class) => self.put(class, self.pool(class).drop_first()),
            None => self,
        }
    }

    /// The dispatcher after a state event came in. An event of a car that
    /// stays in its motion class changes nothing. Any other takes the car out
    /// of the pool of the class it left and hands the snapshot to the pool of
    /// the class it entered.
    pub open spec fn ingest(self, event: ElevatorState) -> DispatcherModel {
        if event.keeps_class() {
            self
        } else {
            let left = self.put(
                event.initial_direction,
                without(self.pool(event.initial_direction), event.id),
            );
            left.put(event.direction, with(left.pool(event.direction), event))
        }
    }
}

/// A call takes the selected car out of the pool it was drawn from, and
/// moves no other car.
pub proof fn lemma_dispatch_takes_one(dispatcher: DispatcherModel, request: ElevatorRequest)
    requires
        dispatcher.wf(),
    ensures
        dispatcher.dispatch(request).wf(),
        match dispatcher.source(request) {
            Some(class) => {
                let car = dispatcher.choice(request).unwrap();
                &&& dispatcher.has(class, car.id)
                &&& !dispatcher.dispatch(request).has(class, car.id)
                &&& forall|other: Direction, id: usize|
                    other != class || id != car.id ==> (#[trigger] dispatcher.dispatch(request).has(
                        other,
                        id,
                    ) <==> dispatcher.has(other, id))
            },
            None => {
                &&& dispatcher.choice(request) is None
                &&& dispatcher.dispatch(request) == dispatcher
                &&& dispatcher.idle.len() == 0
                &&& dispatcher.up.len() == 0
                &&& dispatcher.down.len() == 0
            },
        },
{
    if let Some(class) = dispatcher.source(request) {
        // Without its oldest car a pool is the pool without the id of that car.
        let pool = dispatcher.pool(class);
        lemma_position_unique(pool, 0);
        lemma_without_distinct(pool, pool[0].id);
    }
}

/// A state event that changes the motion class of its car puts the car
/// into the pool of the class it entered, takes it out of the pool of the
/// class it left, and moves no other car.
pub proof fn lemma_ingest_moves_one(dispatcher: DispatcherModel, event: ElevatorState)
    requires
        dispatcher.wf(),
    ensures
        dispatcher.ingest(event).wf(),
        event.keeps_class() ==> dispatcher.ingest(event) == dispatcher,
        !event.keeps_class() ==> dispatcher.ingest(event).has(event.direction, event.id),
        forall|class: Direction|
            !event.keeps_class() && class != event.direction ==> (
            #[trigger] dispatcher.ingest(event).has(class, event.id) <==> dispatcher.has(
                class,
                event.id,
            ) && class != event.initial_direction),
        forall|class: Direction, id: usize|
            id != event.id ==> (#[trigger] dispatcher.ingest(event).has(class, id)
                <==> dispatcher.has(class, id)),
{
    if !event.keeps_class() {
        let from = event.initial_direction;
        let into = event.direction;
        lemma_without_distinct(dispatcher.pool(from), event.id);
        let left = dispatcher.put(from, without(dispatcher.pool(from), event.id));
        lemma_with_distinct(left.pool(into), event);
    }
}

/// A call never puts a car into two pools.
pub proof fn lemma_dispatch_keeps_exclusive(dispatcher: DispatcherModel, request: ElevatorRequest)
    requires
        dispatcher.wf(),
        dispatcher.exclusive(),
    ensures
        dispatcher.dispatch(request).exclusive(),
{
    lemma_dispatch_takes_one(dispatcher, request);
}

/// A state event never puts a car into two pools, as long as the car was in
/// no pool but the one of the class that the event says it left.
pub proof fn lemma_ingest_keeps_exclusive(dispatcher: DispatcherModel, event: ElevatorState)
    requires
        dispatcher.wf(),
        dispatcher.exclusive(),
        forall|class: Direction|
            #[trigger] dispatcher.has(class, event.id) ==> class == event.initial_direction,
    ensures
        dispatcher.ingest(event).exclusive(),
        forall|class: Direction|
            #[trigger] dispatcher.ingest(event).has(class, event.id) ==> class == event.direction,
{
    lemma_ingest_moves_one(dispatcher, event);
}

/// The central dispatcher. It holds a snapshot of every car that can take a
/// call, by motion class.
pub struct CentralElevatorController {
    moving_up_elevators: ElevatorQueue,
    moving_down_elevators: ElevatorQueue,
    idle_elevators: ElevatorQueue,
}

impl View for CentralElevatorController {
    type V = DispatcherModel;

    closed spec fn view(&self) -> DispatcherModel {
        DispatcherModel {
            idle: self.idle_elevators@,
            up: self.moving_up_elevators@,
            down: self.moving_down_elevators@,
        }
    }
}

impl CentralElevatorController {
    /// No pool of a dispatcher holds a car twice.
    pub proof fn lemma_well_formed(&self)
        ensures
            self@.wf(),
    {
        self.idle_elevators.lemma_distinct();
        self.moving_up_elevators.lemma_distinct();
        self.moving_down_elevators.lemma_distinct();
    }

    /// A dispatcher for a fleet of `no_of_elevator` new cars.
    pub fn new(no_of_elevator: usize) -> (controller: CentralElevatorController)
        ensures
            controller@ == DispatcherModel::initial(no_of_elevator as nat),
    {
        let mut idle_elevators = ElevatorQueue::new();
        let mut id: usize = 0;
        while id < no_of_elevator
            invariant
                id <= no_of_elevator,
                idle_elevators@ == Seq::new(
                    id as nat,
                    |car: int| ElevatorState::initial(car as usize),
                ),
            decreases no_of_elevator - id,
        {
            let _ = idle_elevators.insert_elevator(ElevatorState::new(id));
            id += 1;
            assert(idle_elevators@ =~= Seq::new(
                id as nat,
                |car: int| ElevatorState::initial(car as usize),
            ));
        }
        CentralElevatorController {
            moving_up_elevators: ElevatorQueue::new(),
            moving_down_elevators: ElevatorQueue::new(),
            idle_elevators,
        }
    }

    /// Takes a car out of the pool of `class`.
    fn take_from(&mut self, class: Direction) -> (elevator: Option<ElevatorState>)
        ensures
            old(self)@.pool(class).len() == 0 ==> elevator is None && final(self)@ == old(self)@,
            old(self)@.pool(class).len() > 0 ==> elevator == Some(old(self)@.pool(class)[0])
                && final(self)@ == old(self)@.put(class, old(self)@.pool(class).drop_first()),
    {
        match class {
            Direction::Idle => self.idle_elevators.get_elevator(),
            Direction::Up => self.moving_up_elevators.get_elevator(),
            Direction::Down => self.moving_down_elevators.get_elevator(),
        }
    }

    /// Takes in one state event of a car and moves the car between the pools
    /// as the event says.
    pub fn listen_elevator_state(&mut self, state: ElevatorState)
        ensures
            final(self)@ == old(self)@.ingest(state),
    {
        if state.is_intra_travel() {
            return ;
        }
        match state.initial_direction {
            Direction::Up => {
                let _ = self.moving_up_elevators.remove_elevator(state.id);
            },
            Direction::Down => {
                let _ = self.moving_down_elevators.remove_elevator(state.id);
            },
            Direction::Idle => {
                let _ = self.idle_elevators.remove_elevator(state.id);
            },
        }
        match state.direction {
            Direction::Up => {
                let _ = self.moving_up_elevators.insert_elevator(state);
            },
            Direction::Down => {
                let _ = self.moving_down_elevators.insert_elevator(state);
            },
            Direction::Idle => {
                let _ = self.idle_elevators.insert_elevator(state);
            },
        }
    }
}

impl CentralElevatorControllerI for CentralElevatorController {
    /// Selects a car for a hall call from `floor` to `destination` and takes
    /// it out of its pool. The car comes back into a pool with its next state
    /// event. Returns the car and the request that goes to it, or nothing when
    /// all pools are empty.
    fn call_for_an_elevator(&mut self, floor: usize, destination: usize) -> (assignment:
        Option<Assignment>)
    {
        let request = ElevatorRequest { from: floor, to: destination };
        let heading = request.direction();
        let mut elevator = self.take_from(Direction::Idle);
        if elevator.is_none() {
            elevator = self.take_from(heading);
        }
        if elevator.is_none() {
            elevator =
            match heading {
                Direction::Up => self.take_from(Direction::Down),
                _ => self.take_from(Direction::Up),
            };
        }
        match elevator {
            Some(car) => Some(Assignment { car: car.id, request }),
            None => None,
        }
    }

    fn print_states(&self) -> (states: PoolStates) {
        PoolStates {
            idle: self.idle_elevators.elevators(),
            up: self.moving_up_elevators.elevators(),
            down: self.moving_down_elevators.elevators(),
        }
    }
}

} // verus!
