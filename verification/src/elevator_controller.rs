//! The controller of one car: its pending destinations and the motion state
//! machine that serves them, one transition at a time.

use crate::central_elevator_controller::ElevatorRequest;
use crate::elevator::Direction;
use crate::elevator::ElevatorState;
use crate::elevator_pools::elevator_heap::MyError;
use crate::interfaces::ElevatorControllerI;
use crate::interfaces::ElevatorI;
use std::collections::HashSet;
use std::collections::VecDeque;
use vstd::prelude::*;

pub mod runs;
pub mod service;

verus! {

/// Time a car takes to travel one floor.
pub const TICK_MILLIS: u64 = 1500;

/// Time the doors take to open, and to close.
pub const DOOR_MILLIS: u64 = 1000;

/// Time the doors stay open at a destination.
pub const DWELL_MILLIS: u64 = 5000;

/// Where the motion state machine stands.
#[derive(Clone, Copy, Debug, PartialEq, Eq, Structural)]
pub enum Phase {
    /// Nothing to do: no destination is pending.
    Idle,
    /// At rest with the doors closed, about to leave for the oldest pending
    /// destination.
    Stopped,
    /// Moving floor by floor.
    Travelling { destination: usize },
    /// At the destination floor, at rest, the doors opening.
    Arriving { destination: usize },
    /// At the destination floor with the doors open.
    DoorsOpen { destination: usize },
}

/// What the caller does after a transition.
#[derive(Clone, Copy, Debug, PartialEq, Eq, Structural)]
pub enum Next {
    /// Wait so many milliseconds, then ask for the next transition.
    After(u64),
    /// The car is idle: stop asking until a request starts it again.
    Done,
}

/// The outcome of one transition: a snapshot to publish now, if any, and what
/// to do next.
#[derive(Clone, Copy, Debug, PartialEq, Eq)]
pub struct Action {
    pub publish: Option<ElevatorState>,
    pub next: Next,
}

/// The destinations without `floor`, in their order.
pub open spec fn without(destinations: Seq<usize>, floor: usize) -> Seq<usize> {
    if destinations.contains(floor) {
        destinations.remove(destinations.index_of(floor))
    } else {
        destinations
    }
}

/// A controller as a plain value: the car, its pending destinations from
/// the oldest to the newest, and the phase of the motion state machine.
pub struct ControllerModel {
    pub state: ElevatorState,
    pub destinations: Seq<usize>,
    pub phase: Phase,
}

impl ControllerModel {
    /// The controller of a new car: idle, nothing pending.
    pub open spec fn initial(id: usize) -> ControllerModel {
        ControllerModel {
            state: ElevatorState::initial(id),
            destinations: Seq::empty(),
            phase: Phase::Idle,
        }
    }

    /// The car is serving destinations.
    pub open spec fn busy(self) -> bool {
        self.phase != Phase::Idle
    }

    /// No destination is pending twice, and the car's flags fit the phase.
    pub open spec fn wf(self) -> bool {
        let car = self.state;
        &&& self.destinations.no_duplicates()
        &&& match self.phase {
            Phase::Idle => {
                &&& !car.is_moving
                &&& !car.is_door_open
                &&& car.direction == Direction::Idle
                &&& car.initial_direction == Direction::Idle
                &&& self.destinations.len() == 0
            },
            Phase::Stopped => {
                &&& !car.is_moving
                &&& !car.is_door_open
                &&& car.initial_direction == car.direction
                &&& self.destinations.len() > 0
            },
            Phase::Travelling { destination } => {
                &&& car.is_moving
                &&& !car.is_door_open
                &&& car.direction != Direction::Idle
                &&& car.direction == Direction::Up ==> car.current_floor < destination
                &&& car.direction == Direction::Down ==> car.current_floor > destination
            },
            Phase::Arriving { destination } => {
                &&& !car.is_moving
                &&& !car.is_door_open
                &&& car.initial_direction == car.direction
                &&& car.current_floor == destination
            },
            Phase::DoorsOpen { destination } => {
                &&& !car.is_moving
                &&& car.is_door_open
                &&& car.initial_direction == car.direction
                &&& car.current_floor == destination
            },
        }
    }

    /// A request is taken up when its target is not pending yet.
    pub open spec fn accepts(self, request: ElevatorRequest) -> bool {
        !self.destinations.contains(request.to)
    }

    /// The controller after a request came in: a new target joins the
    /// pending destinations as the newest, and wakes an idle car.
    pub open spec fn submit(self, request: ElevatorRequest) -> ControllerModel {
        if self.accepts(request) {
            ControllerModel {
                destinations: self.destinations.push(request.to),
                phase: if self.phase == Phase::Idle {
                    Phase::Stopped
                } else {
                    self.phase
                },
                ..self
            }
        } else {
            self
        }
    }

    /// A request starts the serving loop when it wakes an idle car.
    pub open spec fn starts(self, request: ElevatorRequest) -> bool {
        self.accepts(request) && self.phase == Phase::Idle
    }

    /// A car can leave for a floor when it is at rest between two rides.
    pub open spec fn at_rest(self) -> bool {
        self.phase == Phase::Idle || self.phase == Phase::Stopped
    }

    /// The start of a ride to `destination`. A car already on that floor
    /// announces its arrival at once; any other car turns toward the floor
    /// and starts moving, remembering the direction it had.
    pub open spec fn depart(self, destination: usize) -> (ControllerModel, Action) {
        let car = self.state;
        if destination == car.current_floor {
            (
                ControllerModel { phase: Phase::Arriving { destination }, ..self },
                Action { publish: Some(car), next: Next::After(DOOR_MILLIS) },
            )
        } else {
            let moving = ElevatorState {
                initial_direction: car.direction,
                direction: Direction::between(car.current_floor, destination),
                is_moving: true,
                ..car
            };
            (
                ControllerModel {
                    state: moving,
                    phase: Phase::Travelling { destination },
                    ..self
                },
                Action { publish: None, next: Next::After(TICK_MILLIS) },
            )
        }
    }

    /// One floor further in the direction of travel. The snapshot carries
    /// the new floor; on the destination floor the car comes to rest.
    pub open spec fn tick(self, destination: usize) -> (ControllerModel, Action) {
        let car = self.state;
        let floor = if car.direction == Direction::Up {
            car.current_floor + 1
        } else {
            car.current_floor - 1
        };
        let event = ElevatorState { current_floor: floor as usize, ..car };
        let arrived = floor == destination;
        (
            ControllerModel {
                state: ElevatorState {
                    initial_direction: car.direction,
                    is_moving: !arrived,
                    ..event
                },
                phase: if arrived {
                    Phase::Arriving { destination }
                } else {
                    Phase::Travelling { destination }
                },
                ..self
            },
            Action {
                publish: Some(event),
                next: Next::After(
                    if arrived {
                        DOOR_MILLIS
                    } else {
                        TICK_MILLIS
                    },
                ),
            },
        )
    }

    /// The doors have opened at the destination.
    pub open spec fn open(self, destination: usize) -> (ControllerModel, Action) {
        let event = ElevatorState { is_door_open: true, ..self.state };
        (
            ControllerModel { state: event, phase: Phase::DoorsOpen { destination }, ..self },
            Action {
                publish: Some(event),
                next: Next::After((DWELL_MILLIS + DOOR_MILLIS) as u64),
            },
        )
    }

    /// The doors have closed again: the destination is served. With nothing
    /// else pending the car turns idle and says so; otherwise it stands
    /// ready for the next ride.
    pub open spec fn close(self, destination: usize) -> (ControllerModel, Action) {
        let rest = without(self.destinations, destination);
        let closed = ElevatorState { is_door_open: false, ..self.state };
        if rest.len() == 0 {
            let event = ElevatorState { direction: Direction::Idle, ..closed };
            (
                ControllerModel {
                    state: ElevatorState { initial_direction: Direction::Idle, ..event },
                    destinations: rest,
                    phase: Phase::Idle,
                },
                Action { publish: Some(event), next: Next::Done },
            )
        } else {
            (
                ControllerModel { state: closed, destinations: rest, phase: Phase::Stopped },
                Action { publish: None, next: Next::After(0) },
            )
        }
    }

    /// The next transition of the motion state machine.
    pub open spec fn advance(self) -> (ControllerModel, Action) {
        match self.phase {
            Phase::Idle => (self, Action { publish: None, next: Next::Done }),
            Phase::Stopped => self.depart(self.destinations[0]),
            Phase::Travelling { destination } => self.tick(destination),
            Phase::Arriving { destination } => self.open(destination),
            Phase::DoorsOpen { destination } => self.close(destination),
        }
    }
}

/// A request keeps a controller well formed.
pub proof fn lemma_submit_keeps_wf(controller: ControllerModel, request: ElevatorRequest)
    requires
        controller.wf(),
    ensures
        controller.submit(request).wf(),
{
    if controller.accepts(request) {
        let after = controller.destinations.push(request.to);
        assert(after.no_duplicates());
    }
}

/// Taking a floor out of destinations without repeats leaves no repeat, and
/// exactly the other floors.
pub proof fn lemma_without_floor(destinations: Seq<usize>, floor: usize)
    requires
        destinations.no_duplicates(),
    ensures
        without(destinations, floor).no_duplicates(),
        !without(destinations, floor).contains(floor),
        forall|other: usize|
            without(destinations, floor).contains(other) <==> destinations.contains(other) && other
                != floor,
        destinations.len() > 0 && destinations[0] == floor ==> without(destinations, floor)
            == destinations.drop_first(),
{
    let after = without(destinations, floor);
    if destinations.contains(floor) {
        let gone = destinations.index_of(floor);
        assert forall|other: usize| after.contains(other) <==> destinations.contains(other)
            && other != floor by {
            if destinations.contains(other) && other != floor {
                let at = destinations.index_of(other);
                let moved = if at < gone { at } else { at - 1 };
                assert(after[moved] == other);
            }
        }
    }
}

/// The start of a ride keeps a controller well formed.
pub proof fn lemma_depart_keeps_wf(controller: ControllerModel, destination: usize)
    requires
        controller.wf(),
        controller.at_rest(),
    ensures
        controller.depart(destination).0.wf(),
{
}

/// A transition keeps a controller well formed.
pub proof fn lemma_advance_keeps_wf(controller: ControllerModel)
    requires
        controller.wf(),
    ensures
        controller.advance().0.wf(),
{
    match controller.phase {
        Phase::DoorsOpen { destination } => {
            lemma_without_floor(controller.destinations, destination);
        },
        _ => {},
    }
}

/// Two requests for one floor count as one: the second changes nothing, from
/// wherever it was made.
pub proof fn lemma_submit_idempotent(
    controller: ControllerModel,
    first: ElevatorRequest,
    second: ElevatorRequest,
)
    requires
        first.to == second.to,
    ensures
        !controller.submit(first).accepts(second),
        controller.submit(first).submit(second) == controller.submit(first),
{
    if controller.accepts(first) {
        let after = controller.destinations.push(first.to);
        assert(after[controller.destinations.len() as int] == second.to);
    }
}

/// The controller of one car. It owns the car and its pending destinations;
/// the caller performs what each transition asks for.
pub struct ElevatorController {
    state: ElevatorState,
    destination_map: HashSet<usize>,
    destination_list: VecDeque<usize>,
    phase: Phase,
}

impl View for ElevatorController {
    type V = ControllerModel;

    closed spec fn view(&self) -> ControllerModel {
        ControllerModel {
            state: self.state,
            destinations: self.destination_list@,
            phase: self.phase,
        }
    }
}

/// Takes `floor` out of the pending destinations and out of their index.
fn forget(list: &mut VecDeque<usize>, index: &mut HashSet<usize>, floor: usize)
    requires
        old(list)@.no_duplicates(),
        old(index)@ == old(list)@.to_set(),
    ensures
        final(list)@ == without(old(list)@, floor),
        final(list)@.no_duplicates(),
        final(index)@ == final(list)@.to_set(),
{
    broadcast use vstd::std_specs::hash::group_hash_axioms;

    let ghost before = list@;
    proof {
        lemma_without_floor(before, floor);
    }
    let mut at: usize = 0;
    while at < list.len() && list[at] != floor
        invariant
            list@ == before,
            at <= before.len(),
            forall|k: int| 0 <= k < at ==> before[k] != floor,
        decreases before.len() - at,
    {
        at += 1;
    }
    if at < list.len() {
        list.remove(at);
        index.remove(&floor);
    }
}

impl ElevatorController {
    #[verifier::type_invariant]
    spec fn inv(&self) -> bool {
        &&& self@.wf()
        &&& self.destination_map@ == self.destination_list@.to_set()
    }

    /// The controller of a new car: idle on the ground floor, nothing pending.
    pub fn new(id: usize) -> (controller: ElevatorController)
        ensures
            controller@ == ControllerModel::initial(id),
            controller@.wf(),
    {
        let destination_map: HashSet<usize> = HashSet::new();
        let destination_list: VecDeque<usize> = VecDeque::new();
        assert(destination_map@ =~= destination_list@.to_set());
        ElevatorController {
            state: ElevatorState::new(id),
            destination_map,
            destination_list,
            phase: Phase::Idle,
        }
    }

    /// The car as it stands.
    pub fn state(&self) -> (car: ElevatorState)
        ensures
            car == self@.state,
    {
        self.state
    }

    /// Where the motion state machine stands.
    pub fn phase(&self) -> (phase: Phase)
        ensures
            phase == self@.phase,
    {
        self.phase
    }

    /// Whether the car is serving destinations.
    pub fn is_busy(&self) -> (busy: bool)
        ensures
            busy == self@.busy(),
    {
        !(self.phase == Phase::Idle)
    }

    /// A copy of the pending destinations, from the oldest to the newest.
    pub fn destinations(&self) -> (pending: Vec<usize>)
        ensures
            pending@ == self@.destinations,
    {
        let mut pending: Vec<usize> = Vec::new();
        let mut at: usize = 0;
        while at < self.destination_list.len()
            invariant
                at <= self.destination_list@.len(),
                pending@ == self.destination_list@.take(at as int),
            decreases self.destination_list@.len() - at,
        {
            pending.push(self.destination_list[at]);
            at += 1;
        }
        pending
    }

    /// Moves the controller out, leaving a fresh one in its place until the
    /// caller puts the next value back.
    fn take(&mut self) -> (taken: ElevatorController)
        ensures
            taken == *old(self),
    {
        let mut taken = ElevatorController::new(0);
        std::mem::swap(self, &mut taken);
        taken
    }

    /// Takes in one request. A target that is already pending is dropped;
    /// a new one is queued as the newest. Returns whether the request woke
    /// an idle car, so that the caller starts asking for transitions.
    pub fn listen_request(&mut self, request: ElevatorRequest) -> (start: bool)
        ensures
            final(self)@ == old(self)@.submit(request),
            start == old(self)@.starts(request),
            final(self)@.wf(),
    {
        broadcast use vstd::std_specs::hash::group_hash_axioms;

        proof {
            use_type_invariant(&*self);
        }
        if self.destination_map.contains(&request.to) {
            return false;
        }
        let ElevatorController { state, destination_map, destination_list, phase } = self.take();
        let mut destination_map = destination_map;
        let mut destination_list = destination_list;
        let ghost before = destination_list@;
        destination_list.push_back(request.to);
        destination_map.insert(request.to);
        let start = phase == Phase::Idle;
        let phase = if start {
            Phase::Stopped
        } else {
            phase
        };
        proof {
            before.lemma_push_to_set_commute(request.to);
        }
        *self = ElevatorController { state, destination_map, destination_list, phase };
        start
    }

    /// Puts the car and the phase in place; the pending destinations stay.
    fn settle(&mut self, state: ElevatorState, phase: Phase)
        requires
            (ControllerModel { state, phase, ..old(self)@ }).wf(),
        ensures
            final(self)@ == (ControllerModel { state, phase, ..old(self)@ }),
    {
        proof {
            use_type_invariant(&*self);
        }
        let ElevatorController { state: _, destination_map, destination_list, phase: _ } =
            self.take();
        *self = ElevatorController { state, destination_map, destination_list, phase };
    }

    /// Moves the car one floor further and publishes where it is.
    fn tick(&mut self, destination: usize) -> (action: Action)
        requires
            old(self)@.phase == (Phase::Travelling { destination }),
        ensures
            (final(self)@, action) == old(self)@.tick(destination),
            final(self)@.wf(),
    {
        proof {
            use_type_invariant(&*self);
        }
        let car = self.state;
        let floor: usize = if car.direction == Direction::Up {
            car.current_floor + 1
        } else {
            car.current_floor - 1
        };
        let event = ElevatorState { current_floor: floor, ..car };
        let arrived = floor == destination;
        self.settle(
            ElevatorState { initial_direction: car.direction, is_moving: !arrived, ..event },
            if arrived {
                Phase::Arriving { destination }
            } else {
                Phase::Travelling { destination }
            },
        );
        Action {
            publish: Some(event),
            next: Next::After(
                if arrived {
                    DOOR_MILLIS
                } else {
                    TICK_MILLIS
                },
            ),
        }
    }

    /// Opens the doors at the destination and publishes that they are open.
    fn open(&mut self, destination: usize) -> (action: Action)
        requires
            old(self)@.phase == (Phase::Arriving { destination }),
        ensures
            (final(self)@, action) == old(self)@.open(destination),
            final(self)@.wf(),
    {
        proof {
            use_type_invariant(&*self);
        }
        let mut car = self.state;
        let _ = car.open_door();
        self.settle(car, Phase::DoorsOpen { destination });
        Action { publish: Some(car), next: Next::After(DWELL_MILLIS + DOOR_MILLIS) }
    }

    /// Closes the doors: the destination is served. The car turns idle, and
    /// publishes that, when nothing else is pending.
    fn close(&mut self, destination: usize) -> (action: Action)
        requires
            old(self)@.phase == (Phase::DoorsOpen { destination }),
        ensures
            (final(self)@, action) == old(self)@.close(destination),
            final(self)@.wf(),
    {
        proof {
            use_type_invariant(&*self);
        }
        let mut car = self.state;
        let _ = car.close_door();
        let ElevatorController { state: _, destination_map, destination_list, phase: _ } =
            self.take();
        let mut destination_map = destination_map;
        let mut destination_list = destination_list;
        forget(&mut destination_list, &mut destination_map, destination);
        if destination_list.len() == 0 {
            let event = ElevatorState { direction: Direction::Idle, ..car };
            *self = ElevatorController {
                state: ElevatorState { initial_direction: Direction::Idle, ..event },
                destination_map,
                destination_list,
                phase: Phase::Idle,
            };
            Action { publish: Some(event), next: Next::Done }
        } else {
            *self = ElevatorController {
                state: car,
                destination_map,
                destination_list,
                phase: Phase::Stopped,
            };
            Action { publish: None, next: Next::After(0) }
        }
    }

    /// Performs the next transition of the motion state machine and says
    /// what the caller has to do: publish a snapshot, wait, ask again.
    pub fn step(&mut self) -> (action: Action)
        ensures
            (final(self)@, action) == old(self)@.advance(),
            final(self)@.wf(),
    {
        proof {
            use_type_invariant(&*self);
        }
        match self.phase {
            Phase::Idle => Action { publish: None, next: Next::Done },
            Phase::Stopped => {
                let destination: usize = self.destination_list[0];
                self.go_to_floor(destination).unwrap()
            },
            Phase::Travelling { destination } => self.tick(destination),
            Phase::Arriving { destination } => self.open(destination),
            Phase::DoorsOpen { destination } => self.close(destination),
        }
    }
}

impl ElevatorControllerI for ElevatorController {
    /// Starts a ride to `destination`. Only a car at rest between two rides
    /// can leave; one that is under way refuses and stays as it is.
    fn go_to_floor(&mut self, destination: usize) -> (result: Result<Action, MyError>)
        ensures
            final(self)@.wf(),
            result matches Err(error) ==> error@ == "the car is already under way"@,
    {
        proof {
            use_type_invariant(&*self);
        }
        if !(self.phase == Phase::Idle || self.phase == Phase::Stopped) {
            return Err(MyError::new("the car is already under way"));
        }
        let car = self.state;
        if destination == car.current_floor {
            self.settle(car, Phase::Arriving { destination });
            Ok(Action { publish: Some(car), next: Next::After(DOOR_MILLIS) })
        } else {
            self.settle(
                ElevatorState {
                    initial_direction: car.direction,
                    direction: Direction::toward(car.current_floor, destination),
                    is_moving: true,
                    ..car
                },
                Phase::Travelling { destination },
            );
            Ok(Action { publish: None, next: Next::After(TICK_MILLIS) })
        }
    }
}

} // verus!
