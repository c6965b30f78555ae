//! Every destination is served: a bound on the transitions a car needs
//! until its doors are open at a floor that is pending.

use crate::central_elevator_controller::ElevatorRequest;
use crate::elevator::Direction;
use crate::elevator::ElevatorState;
use crate::elevator_controller::lemma_submit_keeps_wf;
use crate::elevator_controller::lemma_without_floor;
use crate::elevator_controller::runs::lemma_feed;
use crate::elevator_controller::runs::Input;
use crate::elevator_controller::ControllerModel;
use crate::elevator_controller::Phase;
use vstd::prelude::*;

verus! {

/// Nobody sends the car to a floor directly: it gets requests and makes
/// transitions.
pub open spec fn plain(inputs: Seq<Input>) -> bool {
    forall|at: int| 0 <= at < inputs.len() ==> !(#[trigger] inputs[at] is GoTo)
}

/// How many of the inputs are transitions.
pub open spec fn steps(inputs: Seq<Input>) -> nat
    decreases inputs.len(),
{
    if inputs.len() == 0 {
        0
    } else {
        let first: nat = if inputs[0] is Step {
            1
        } else {
            0
        };
        first + steps(inputs.drop_first())
    }
}

/// The floors between two floors.
pub open spec fn distance(from: usize, to: usize) -> nat {
    if from <= to {
        (to - from) as nat
    } else {
        (from - to) as nat
    }
}

/// The transitions from open doors at the oldest destination to open doors
/// at the one in place `at`, serving the destinations between them in
/// their order: for each ride the doors close, the car leaves, travels its
/// floors and opens the doors.
pub open spec fn onward(destinations: Seq<usize>, at: int) -> nat
    decreases at,
{
    if at <= 0 || at >= destinations.len() {
        0
    } else {
        onward(destinations, at - 1) + distance(destinations[at - 1], destinations[at]) + 3
    }
}

/// The snapshots show the car arriving on `floor` and, later, its doors open
/// there.
pub open spec fn served(events: Seq<ElevatorState>, floor: usize) -> bool {
    exists|arrival: int, open: int|
        0 <= arrival < open < events.len() && (#[trigger] events[arrival]).current_floor == floor
            && (#[trigger] events[open]).current_floor == floor && events[open].is_door_open
}

/// The snapshots show the doors open on `floor`.
pub open spec fn opened(events: Seq<ElevatorState>, floor: usize) -> bool {
    exists|open: int|
        0 <= open < events.len() && (#[trigger] events[open]).current_floor == floor
            && events[open].is_door_open
}

impl ControllerModel {
    /// A ride in progress goes to the oldest pending destination, and a
    /// car that stands ready on the floor of its oldest destination has come
    /// to it idle.
    pub open spec fn on_course(self) -> bool {
        match self.phase {
            Phase::Idle => true,
            Phase::Stopped => self.destinations[0] == self.state.current_floor
                ==> self.state.direction == Direction::Idle,
            Phase::Travelling { destination } => self.destinations.len() > 0
                && self.destinations[0] == destination,
            Phase::Arriving { destination } => self.destinations.len() > 0 && self.destinations[0]
                == destination,
            Phase::DoorsOpen { destination } => self.destinations.len() > 0
                && self.destinations[0] == destination,
        }
    }

    /// The transitions until the doors are open at the oldest destination.
    pub open spec fn ahead(self) -> nat {
        match self.phase {
            Phase::Idle => 0,
            Phase::Stopped => distance(self.state.current_floor, self.destinations[0]) + 2,
            Phase::Travelling { destination } => distance(self.state.current_floor, destination)
                + 1,
            Phase::Arriving { destination } => 1,
            Phase::DoorsOpen { destination } => 0,
        }
    }

    /// The transitions until the doors are open at the destination in place
    /// `at` of the pending ones.
    pub open spec fn wait(self, at: int) -> nat {
        self.ahead() + onward(self.destinations, at)
    }

    /// The destination in place `at` is pending and the car has not arrived
    /// there yet.
    pub open spec fn awaits(self, at: int) -> bool {
        &&& 0 <= at < self.destinations.len()
        &&& at == 0 ==> self.phase == Phase::Stopped || self.phase is Travelling
    }
}

/// A new controller is on course.
pub proof fn lemma_initial_on_course(id: usize)
    ensures
        ControllerModel::initial(id).wf(),
        ControllerModel::initial(id).on_course(),
{
}

/// Requests and transitions keep a controller on course.
pub proof fn lemma_feed_keeps_course(controller: ControllerModel, input: Input)
    requires
        controller.wf(),
        controller.on_course(),
        !(input is GoTo),
    ensures
        controller.feed(input).0.wf(),
        controller.feed(input).0.on_course(),
{
    lemma_feed(controller, input);
    if let Phase::DoorsOpen { destination } = controller.phase {
        lemma_without_floor(controller.destinations, destination);
    }
}

/// A call to the floor that a car is on leaves the direction of the car
/// alone: the car was idle, each snapshot of the door cycle shows it idle,
/// and it is idle after the cycle, whatever is pending then.
pub proof fn lemma_own_floor_keeps_direction(controller: ControllerModel)
    requires
        controller.wf(),
        controller.on_course(),
        controller.phase == Phase::Stopped,
        controller.destinations[0] == controller.state.current_floor,
    ensures
        controller.state.direction == Direction::Idle,
        ({
            let cycle = seq![Input::Step, Input::Step, Input::Step];
            &&& controller.run(cycle).state.direction == Direction::Idle
            &&& controller.run(cycle).state.current_floor == controller.state.current_floor
            &&& controller.run(cycle).at_rest()
            &&& forall|at: int|
                0 <= at < controller.events(cycle).len() ==> (#[trigger] controller.events(
                    cycle,
                )[at]).direction == Direction::Idle
        }),
{
    let cycle = seq![Input::Step, Input::Step, Input::Step];
    let arrived = controller.advance().0;
    let open = arrived.advance().0;
    let closed = open.advance().0;
    lemma_without_floor(open.destinations, controller.state.current_floor);
    let second = cycle.drop_first();
    let third = second.drop_first();
    assert(closed.run(third.drop_first()) == closed);
    assert(open.run(third) == closed);
    assert(arrived.run(second) == closed);
    assert(closed.events(third.drop_first()).len() == 0);
    let last = open.events(third);
    let middle = arrived.events(second);
    let all = controller.events(cycle);
    assert forall|at: int| 0 <= at < last.len() implies (#[trigger] last[at]).direction
        == Direction::Idle by {}
    assert forall|at: int| 0 <= at < middle.len() implies (#[trigger] middle[at]).direction
        == Direction::Idle by {}
    assert forall|at: int| 0 <= at < all.len() implies (#[trigger] all[at]).direction
        == Direction::Idle by {}
}

/// The way onward to a destination does not depend on what is pending
/// behind it.
proof fn lemma_onward_push(destinations: Seq<usize>, at: int, floor: usize)
    requires
        0 <= at < destinations.len(),
    ensures
        onward(destinations.push(floor), at) == onward(destinations, at),
    decreases at,
{
    if at > 0 {
        lemma_onward_push(destinations, at - 1, floor);
    }
}

/// The way onward starts with the ride to the second destination.
proof fn lemma_onward_first(destinations: Seq<usize>, at: int)
    requires
        1 <= at < destinations.len(),
    ensures
        onward(destinations, at) == distance(destinations[0], destinations[1]) + 3 + onward(
            destinations.drop_first(),
            at - 1,
        ),
    decreases at,
{
    if at > 1 {
        lemma_onward_first(destinations, at - 1);
    } else {
        assert(onward(destinations, 0) == 0);
    }
}

/// A snapshot in front changes nothing about what the later ones show.
proof fn lemma_served_later(event: ElevatorState, events: Seq<ElevatorState>, floor: usize)
    requires
        served(events, floor),
    ensures
        served(seq![event] + events, floor),
{
    let (arrival, open) = choose|arrival: int, open: int|
        0 <= arrival < open < events.len() && (#[trigger] events[arrival]).current_floor == floor
            && (#[trigger] events[open]).current_floor == floor && events[open].is_door_open;
    let all = seq![event] + events;
    assert(all[arrival + 1] == events[arrival]);
    assert(all[open + 1] == events[open]);
}

/// After a snapshot of the arrival, open doors make the service complete.
proof fn lemma_served_from_arrival(event: ElevatorState, events: Seq<ElevatorState>, floor: usize)
    requires
        event.current_floor == floor,
        opened(events, floor),
    ensures
        served(seq![event] + events, floor),
{
    let open = choose|open: int|
        0 <= open < events.len() && (#[trigger] events[open]).current_floor == floor
            && events[open].is_door_open;
    let all = seq![event] + events;
    assert(all[0] == event);
    assert(all[open + 1] == events[open]);
}

/// A car that has arrived opens its doors with its next transition.
pub proof fn lemma_doors_open_after_arrival(
    controller: ControllerModel,
    destination: usize,
    inputs: Seq<Input>,
)
    requires
        controller.wf(),
        controller.phase == (Phase::Arriving { destination }),
        plain(inputs),
        steps(inputs) >= 1,
    ensures
        opened(controller.events(inputs), destination),
    decreases inputs.len(),
{
    let next = controller.feed(inputs[0]).0;
    let rest = inputs.drop_first();
    assert(plain(rest));
    match inputs[0] {
        Input::Request(request) => {
            lemma_submit_keeps_wf(controller, request);
            lemma_doors_open_after_arrival(next, destination, rest);
        },
        Input::Step => {
            let event = controller.advance().1.publish.unwrap();
            let all = controller.events(inputs);
            assert(all[0] == event);
        },
        Input::GoTo(_) => {},
    }
}

/// Destination completion. A car that is on course and has a destination
/// pending shows itself arriving there, and then its doors open there,
/// within the transitions that the rides before it take; requests that come
/// in meanwhile do not delay it.
pub proof fn lemma_pending_destination_is_served(
    controller: ControllerModel,
    at: int,
    inputs: Seq<Input>,
)
    requires
        controller.wf(),
        controller.on_course(),
        controller.awaits(at),
        plain(inputs),
        steps(inputs) >= controller.wait(at),
    ensures
        served(controller.events(inputs), controller.destinations[at]),
    decreases inputs.len(),
{
    let floor = controller.destinations[at];
    let pending = controller.destinations;
    assert(controller.wait(at) >= 1);
    let next = controller.feed(inputs[0]).0;
    let rest = inputs.drop_first();
    assert(plain(rest));
    lemma_feed_keeps_course(controller, inputs[0]);
    match inputs[0] {
        Input::Request(request) => {
            if controller.accepts(request) {
                lemma_onward_push(pending, at, request.to);
            }
            lemma_pending_destination_is_served(next, at, rest);
        },
        Input::Step => {
            let published = controller.advance().1.publish;
            match controller.phase {
                Phase::Idle => {},
                Phase::Stopped => {
                    if pending[0] == controller.state.current_floor {
                        let event = published.unwrap();
                        if at == 0 {
                            lemma_doors_open_after_arrival(next, floor, rest);
                            lemma_served_from_arrival(event, next.events(rest), floor);
                        } else {
                            lemma_pending_destination_is_served(next, at, rest);
                            lemma_served_later(event, next.events(rest), floor);
                        }
                    } else {
                        lemma_pending_destination_is_served(next, at, rest);
                    }
                },
                Phase::Travelling { destination } => {
                    let event = published.unwrap();
                    if next.phase is Arriving {
                        if at == 0 {
                            lemma_doors_open_after_arrival(next, floor, rest);
                            lemma_served_from_arrival(event, next.events(rest), floor);
                        } else {
                            lemma_pending_destination_is_served(next, at, rest);
                            lemma_served_later(event, next.events(rest), floor);
                        }
                    } else {
                        lemma_pending_destination_is_served(next, at, rest);
                        lemma_served_later(event, next.events(rest), floor);
                    }
                },
                Phase::Arriving { destination } => {
                    let event = published.unwrap();
                    lemma_pending_destination_is_served(next, at, rest);
                    lemma_served_later(event, next.events(rest), floor);
                },
                Phase::DoorsOpen { destination } => {
                    lemma_without_floor(pending, destination);
                    lemma_onward_first(pending, at);
                    lemma_pending_destination_is_served(next, at - 1, rest);
                },
            }
        },
        Input::GoTo(_) => {},
    }
}

/// Every request that a car takes up is served: the car shows itself
/// arriving on the floor asked for, and then its doors open there.
pub proof fn lemma_accepted_request_is_served(
    controller: ControllerModel,
    request: ElevatorRequest,
    inputs: Seq<Input>,
)
    requires
        controller.wf(),
        controller.on_course(),
        controller.accepts(request),
        plain(inputs),
        steps(inputs) >= controller.submit(request).wait(controller.destinations.len() as int),
    ensures
        served(controller.submit(request).events(inputs), request.to),
{
    let taken = controller.submit(request);
    let at = controller.destinations.len() as int;
    lemma_feed_keeps_course(controller, Input::Request(request));
    lemma_pending_destination_is_served(taken, at, inputs);
}

} // verus!
