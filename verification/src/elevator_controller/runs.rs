//! What a controller publishes over any sequence of requests and
//! transitions, and the order that its snapshots keep.

use crate::central_elevator_controller::ElevatorRequest;
use crate::elevator::Direction;
use crate::elevator::ElevatorState;
use crate::elevator_controller::lemma_advance_keeps_wf;
use crate::elevator_controller::lemma_depart_keeps_wf;
use crate::elevator_controller::lemma_submit_keeps_wf;
use crate::elevator_controller::ControllerModel;
use vstd::prelude::*;

verus! {

/// One thing that happens to a controller.
pub enum Input {
    /// A request comes in.
    Request(ElevatorRequest),
    /// Someone sends the car to a floor directly.
    GoTo(usize),
    /// The next transition is asked for.
    Step,
}

/// Whether `event` can follow a snapshot that showed the car on `floor`,
/// heading in `direction`: it names that direction as the one before, a
/// moving car is one floor further in its direction of travel, a car at rest
/// is on the same floor.
pub open spec fn follows(floor: usize, direction: Direction, event: ElevatorState) -> bool {
    &&& event.initial_direction == direction
    &&& event.is_moving && event.direction == Direction::Up ==> event.current_floor == floor + 1
    &&& event.is_moving && event.direction == Direction::Down ==> event.current_floor == floor - 1
    &&& !event.is_moving ==> event.current_floor == floor
}

impl ControllerModel {
    /// The controller after `input`, and the snapshot it published.
    pub open spec fn feed(self, input: Input) -> (ControllerModel, Option<ElevatorState>) {
        match input {
            Input::Request(request) => (self.submit(request), None),
            Input::GoTo(destination) => if self.at_rest() {
                (self.depart(destination).0, self.depart(destination).1.publish)
            } else {
                (self, None)
            },
            Input::Step => (self.advance().0, self.advance().1.publish),
        }
    }

    /// The controller after all of `inputs`, in their order.
    pub open spec fn run(self, inputs: Seq<Input>) -> ControllerModel
        decreases inputs.len(),
    {
        if inputs.len() == 0 {
            self
        } else {
            self.feed(inputs[0]).0.run(inputs.drop_first())
        }
    }

    /// The snapshots published over `inputs`, in their order.
    pub open spec fn events(self, inputs: Seq<Input>) -> Seq<ElevatorState>
        decreases inputs.len(),
    {
        if inputs.len() == 0 {
            Seq::empty()
        } else {
            let rest = self.feed(inputs[0]).0.events(inputs.drop_first());
            match self.feed(inputs[0]).1 {
                Some(event) => seq![event] + rest,
                None => rest,
            }
        }
    }
}

/// Whatever happens to a well-formed controller, it stays well formed; a
/// snapshot it publishes is of its own car, never shows open doors on a
/// moving car nor a moving car without a direction, and follows the state
/// the car was in; afterwards the car is on the floor, and remembers the
/// direction, that the snapshot showed.
pub proof fn lemma_feed(controller: ControllerModel, input: Input)
    requires
        controller.wf(),
    ensures
        controller.feed(input).0.wf(),
        controller.feed(input).0.state.id == controller.state.id,
        match controller.feed(input).1 {
            Some(event) => {
                &&& event.id == controller.state.id
                &&& event.door_safe()
                &&& event.direction_consistent()
                &&& follows(
                    controller.state.current_floor,
                    controller.state.initial_direction,
                    event,
                )
                &&& controller.feed(input).0.state.current_floor == event.current_floor
                &&& controller.feed(input).0.state.initial_direction == event.direction
            },
            None => {
                &&& controller.feed(input).0.state.current_floor == controller.state.current_floor
                &&& controller.feed(input).0.state.initial_direction
                    == controller.state.initial_direction
            },
        },
{
    match input {
        Input::Request(request) => {
            lemma_submit_keeps_wf(controller, request);
        },
        Input::GoTo(destination) => {
            if controller.at_rest() {
                lemma_depart_keeps_wf(controller, destination);
            }
        },
        Input::Step => {
            lemma_advance_keeps_wf(controller);
        },
    }
}

/// Over any sequence of inputs a well-formed controller stays well formed.
pub proof fn lemma_run_keeps_wf(controller: ControllerModel, inputs: Seq<Input>)
    requires
        controller.wf(),
    ensures
        controller.run(inputs).wf(),
        controller.run(inputs).state.id == controller.state.id,
    decreases inputs.len(),
{
    if inputs.len() > 0 {
        lemma_feed(controller, inputs[0]);
        lemma_run_keeps_wf(controller.feed(inputs[0]).0, inputs.drop_first());
    }
}

/// Door safety and direction consistency of everything published: no
/// snapshot shows open doors on a moving car, a moving car heads up or down,
/// and an idle car does not move.
pub proof fn lemma_events_consistent(controller: ControllerModel, inputs: Seq<Input>)
    requires
        controller.wf(),
    ensures
        forall|at: int|
            0 <= at < controller.events(inputs).len() ==> {
                let event = #[trigger] controller.events(inputs)[at];
                &&& event.id == controller.state.id
                &&& !(event.is_door_open && event.is_moving)
                &&& event.is_moving ==> event.direction != Direction::Idle
                &&& event.direction == Direction::Idle ==> !event.is_moving
            },
    decreases inputs.len(),
{
    if inputs.len() > 0 {
        lemma_feed(controller, inputs[0]);
        lemma_events_consistent(controller.feed(inputs[0]).0, inputs.drop_first());
    }
}

/// The order of everything published. The first snapshot follows the state
/// the car started in, and each later one follows the snapshot before it:
/// it names that snapshot's direction as its previous direction, a moving
/// car is exactly one floor further in its direction of travel, and a car at
/// rest has not changed floor. At the end the car is where its last snapshot
/// showed it.
pub proof fn lemma_events_in_order(controller: ControllerModel, inputs: Seq<Input>)
    requires
        controller.wf(),
    ensures
        controller.events(inputs).len() > 0 ==> follows(
            controller.state.current_floor,
            controller.state.initial_direction,
            controller.events(inputs)[0],
        ),
        forall|at: int|
            0 <= at < controller.events(inputs).len() - 1 ==> follows(
                controller.events(inputs)[at].current_floor,
                controller.events(inputs)[at].direction,
                #[trigger] controller.events(inputs)[at + 1],
            ),
        controller.events(inputs).len() > 0 ==> {
            &&& controller.run(inputs).state.current_floor
                == controller.events(inputs).last().current_floor
            &&& controller.run(inputs).state.initial_direction
                == controller.events(inputs).last().direction
        },
        controller.events(inputs).len() == 0 ==> {
            &&& controller.run(inputs).state.current_floor == controller.state.current_floor
            &&& controller.run(inputs).state.initial_direction
                == controller.state.initial_direction
        },
    decreases inputs.len(),
{
    if inputs.len() > 0 {
        let next = controller.feed(inputs[0]).0;
        let rest = next.events(inputs.drop_first());
        lemma_feed(controller, inputs[0]);
        lemma_events_in_order(next, inputs.drop_first());
        match controller.feed(inputs[0]).1 {
            Some(event) => {
                let all = controller.events(inputs);
                assert forall|at: int| 0 <= at < all.len() - 1 implies follows(
                    all[at].current_floor,
                    all[at].direction,
                    #[trigger] all[at + 1],
                ) by {
                    if at > 0 {
                        assert(all[at + 1] == rest[(at - 1) + 1]);
                    }
                }
            },
            None => {},
        }
    }
}

} // verus!
