//! The bank as a whole: the dispatcher, the controllers of the cars, and
//! the state events that are under way from the cars to the dispatcher. What
//! holds of the pools whatever happens, and in whatever order.

use crate::central_elevator_controller::lemma_dispatch_takes_one;
use crate::central_elevator_controller::lemma_ingest_moves_one;
use crate::central_elevator_controller::DispatcherModel;
use crate::central_elevator_controller::ElevatorRequest;
use crate::elevator::Direction;
use crate::elevator::ElevatorState;
use crate::elevator_controller::lemma_submit_keeps_wf;
use crate::elevator_controller::runs::lemma_feed;
use crate::elevator_controller::runs::Input;
use crate::elevator_controller::service::lemma_accepted_request_is_served;
use crate::elevator_controller::service::lemma_feed_keeps_course;
use crate::elevator_controller::service::plain;
use crate::elevator_controller::service::served;
use crate::elevator_controller::service::steps;
use crate::elevator_controller::ControllerModel;
use crate::elevator_controller::Phase;
use vstd::prelude::*;

verus! {

/// One thing that happens in the bank.
pub enum Happening {
    /// A hall call reaches the dispatcher, and the request the car it selects.
    Call(ElevatorRequest),
    /// The car of this id makes its next transition.
    Step(usize),
    /// The dispatcher receives the oldest state event under way from the car
    /// of this id.
    Deliver(usize),
}

/// The bank as a plain value. The cars are numbered from 0; `in_flight`
/// holds, for each car, the events it has published and the dispatcher has
/// not received yet, the oldest first.
pub struct BankModel {
    pub dispatcher: DispatcherModel,
    pub cars: Seq<ControllerModel>,
    pub in_flight: Seq<Seq<ElevatorState>>,
}

impl BankModel {
    /// A bank of `size` new cars: all idle, all in the idle pool, nothing
    /// under way.
    pub open spec fn initial(size: usize) -> BankModel {
        BankModel {
            dispatcher: DispatcherModel::initial(size as nat),
            cars: Seq::new(size as nat, |id: int| ControllerModel::initial(id as usize)),
            in_flight: Seq::new(size as nat, |id: int| Seq::empty()),
        }
    }

    /// The bank after a hall call: the dispatcher selects a car and the
    /// request reaches that car, and no other.
    pub open spec fn call(self, request: ElevatorRequest) -> BankModel {
        match self.dispatcher.choice(request) {
            Some(car) => BankModel {
                dispatcher: self.dispatcher.dispatch(request),
                cars: if car.id < self.cars.len() {
                    self.cars.update(car.id as int, self.cars[car.id as int].submit(request))
                } else {
                    self.cars
                },
                ..self
            },
            None => self,
        }
    }

    /// The bank after a transition of one car: what the car publishes joins
    /// the events under way from it.
    pub open spec fn step(self, car: usize) -> BankModel {
        if car < self.cars.len() && car < self.in_flight.len() {
            let (controller, action) = self.cars[car as int].advance();
            BankModel {
                cars: self.cars.update(car as int, controller),
                in_flight: match action.publish {
                    Some(event) => self.in_flight.update(
                        car as int,
                        self.in_flight[car as int].push(event),
                    ),
                    None => self.in_flight,
                },
                ..self
            }
        } else {
            self
        }
    }

    /// The bank after the dispatcher received the oldest event under way
    /// from one car.
    pub open spec fn deliver(self, car: usize) -> BankModel {
        if car < self.in_flight.len() && self.in_flight[car as int].len() > 0 {
            BankModel {
                dispatcher: self.dispatcher.ingest(self.in_flight[car as int][0]),
                in_flight: self.in_flight.update(car as int, self.in_flight[car as int].drop_first()),
                ..self
            }
        } else {
            self
        }
    }

    /// The bank after one thing happened.
    pub open spec fn next(self, happening: Happening) -> BankModel {
        match happening {
            Happening::Call(request) => self.call(request),
            Happening::Step(car) => self.step(car),
            Happening::Deliver(car) => self.deliver(car),
        }
    }

    /// The bank after all of `happenings`, in their order.
    pub open spec fn after(self, happenings: Seq<Happening>) -> BankModel
        decreases happenings.len(),
    {
        if happenings.len() == 0 {
            self
        } else {
            self.after(happenings.drop_last()).next(happenings.last())
        }
    }

    /// The direction of a car as the dispatcher last saw it: the one that
    /// the oldest event under way names as the previous one, or, with
    /// nothing under way, the one the car last published.
    pub open spec fn seen(self, car: int) -> Direction {
        if self.in_flight[car].len() > 0 {
            self.in_flight[car][0].initial_direction
        } else {
            self.cars[car].state.initial_direction
        }
    }

    /// The events under way from a car are its own, each names the
    /// direction of the one before it as its previous direction, and the
    /// last one shows the direction that the car remembers.
    pub open spec fn chained(self, car: int) -> bool {
        let events = self.in_flight[car];
        &&& forall|at: int| 0 <= at < events.len() ==> (#[trigger] events[at]).id == car
        &&& forall|at: int|
            0 <= at < events.len() - 1 ==> (#[trigger] events[at + 1]).initial_direction
                == events[at].direction
        &&& events.len() > 0 ==> events.last().direction == self.cars[car].state.initial_direction
    }

    /// What holds of a bank at all times.
    pub open spec fn inv(self) -> bool {
        &&& self.in_flight.len() == self.cars.len()
        &&& self.dispatcher.wf()
        &&& forall|car: int|
            0 <= car < self.cars.len() ==> {
                &&& (#[trigger] self.cars[car]).wf()
                &&& self.cars[car].on_course()
                &&& self.cars[car].state.id == car
            }
        &&& forall|car: int| 0 <= car < self.cars.len() ==> #[trigger] self.chained(car)
        &&& forall|class: Direction, id: usize| #[trigger]
            self.dispatcher.has(class, id) ==> id < self.cars.len() && class == self.seen(
                id as int,
            )
        &&& forall|car: int|
            0 <= car < self.cars.len() && (#[trigger] self.cars[car]).phase == Phase::Idle
                && self.in_flight[car].len() == 0 ==> self.dispatcher.has(
                Direction::Idle,
                car as usize,
            )
    }

    /// Nothing is under way and every car is idle.
    pub open spec fn quiescent(self) -> bool {
        forall|car: int|
            0 <= car < self.cars.len() ==> (#[trigger] self.cars[car]).phase == Phase::Idle
                && self.in_flight[car].len() == 0
    }
}

/// A new bank is as a bank should be.
pub proof fn lemma_initial_inv(size: usize)
    ensures
        BankModel::initial(size).inv(),
        BankModel::initial(size).quiescent(),
{
    let bank = BankModel::initial(size);
    // The only pool that holds anything is the idle one, with car `id` in place `id`.
    assert forall|class: Direction, id: usize| #[trigger]
        bank.dispatcher.has(class, id) implies id < bank.cars.len() && class == bank.seen(
        id as int,
    ) by {
        let pool = bank.dispatcher.pool(class);
        let at = choose|at: int| 0 <= at < pool.len() && #[trigger] pool[at].id == id;
        assert(pool[at].id == id);
    }
    assert forall|car: int|
        0 <= car < bank.cars.len() && (#[trigger] bank.cars[car]).phase == Phase::Idle
            && bank.in_flight[car].len() == 0 implies bank.dispatcher.has(
        Direction::Idle,
        car as usize,
    ) by {
        assert(bank.dispatcher.idle[car].id == car as usize);
    }
}

/// A hall call leaves the bank as it should be.
pub proof fn lemma_call_keeps_inv(bank: BankModel, request: ElevatorRequest)
    requires
        bank.inv(),
    ensures
        bank.call(request).inv(),
{
    let after = bank.call(request);
    lemma_dispatch_takes_one(bank.dispatcher, request);
    if let Some(car) = bank.dispatcher.choice(request) {
        // The selected car takes the request and is busy afterwards; the
        // events under way, and so what the dispatcher saw last, stay.
        let chosen = car.id as int;
        lemma_submit_keeps_wf(bank.cars[chosen], request);
        lemma_feed_keeps_course(bank.cars[chosen], Input::Request(request));
        assert forall|other: int| 0 <= other < after.cars.len() implies #[trigger] after.chained(
            other,
        ) by {
            assert(bank.chained(other));
        }
    }
}

/// A transition of a car leaves the bank as it should be.
pub proof fn lemma_step_keeps_inv(bank: BankModel, car: usize)
    requires
        bank.inv(),
    ensures
        bank.step(car).inv(),
{
    let after = bank.step(car);
    if car < bank.cars.len() {
        // A snapshot that the car publishes names the direction the car
        // remembered, so it continues the chain of the events under way, and
        // the dispatcher has still seen what it had seen.
        let moved = car as int;
        lemma_feed(bank.cars[moved], Input::Step);
        lemma_feed_keeps_course(bank.cars[moved], Input::Step);
        assert forall|other: int| 0 <= other < after.cars.len() implies #[trigger] after.chained(
            other,
        ) by {
            assert(bank.chained(other));
        }
        assert forall|other: int| 0 <= other < after.cars.len() implies #[trigger] after.seen(
            other,
        ) == bank.seen(other) by {
            assert(bank.chained(other));
        }
    }
}

/// The receipt of a state event leaves the bank as it should be.
pub proof fn lemma_deliver_keeps_inv(bank: BankModel, car: usize)
    requires
        bank.inv(),
    ensures
        bank.deliver(car).inv(),
{
    let after = bank.deliver(car);
    if car < bank.in_flight.len() && bank.in_flight[car as int].len() > 0 {
        // The car was in no pool but the one that the event names as left,
        // so it ends up in the pool that the event names as entered, which
        // is what the next event under way, or the car itself, goes on from.
        let from = car as int;
        let event = bank.in_flight[from][0];
        assert(bank.chained(from));
        lemma_ingest_moves_one(bank.dispatcher, event);
        assert forall|other: int| 0 <= other < after.cars.len() implies #[trigger] after.chained(
            other,
        ) by {
            assert(bank.chained(other));
        }
        assert(after.seen(from) == event.direction);
    }
}

/// Whatever happens leaves the bank as it should be.
pub proof fn lemma_next_keeps_inv(bank: BankModel, happening: Happening)
    requires
        bank.inv(),
    ensures
        bank.next(happening).inv(),
{
    match happening {
        Happening::Call(request) => lemma_call_keeps_inv(bank, request),
        Happening::Step(car) => lemma_step_keeps_inv(bank, car),
        Happening::Deliver(car) => lemma_deliver_keeps_inv(bank, car),
    }
}

/// A bank that started new is as it should be after anything that can
/// happen, in any order.
pub proof fn lemma_always_inv(size: usize, happenings: Seq<Happening>)
    ensures
        BankModel::initial(size).after(happenings).inv(),
    decreases happenings.len(),
{
    if happenings.len() == 0 {
        lemma_initial_inv(size);
    } else {
        lemma_always_inv(size, happenings.drop_last());
        lemma_next_keeps_inv(
            BankModel::initial(size).after(happenings.drop_last()),
            happenings.last(),
        );
    }
}

/// Single assignment. A hall call for which the dispatcher selects a car
/// hands the request to that car and touches no other; a call for which it
/// selects none touches no car at all.
pub proof fn lemma_call_reaches_one_car(bank: BankModel, request: ElevatorRequest)
    requires
        bank.inv(),
    ensures
        bank.call(request).cars.len() == bank.cars.len(),
        match bank.dispatcher.choice(request) {
            Some(car) => {
                &&& car.id < bank.cars.len()
                &&& bank.call(request).cars[car.id as int] == bank.cars[car.id as int].submit(
                    request,
                )
                &&& forall|other: int|
                    0 <= other < bank.cars.len() && other != car.id ==> #[trigger] bank.call(
                        request,
                    ).cars[other] == bank.cars[other]
            },
            None => bank.call(request).cars == bank.cars,
        },
{
    lemma_dispatch_takes_one(bank.dispatcher, request);
}

/// Destination completion in the bank. A hall call that a car takes up is
/// served: over its further requests and transitions the selected car shows
/// itself arriving on the floor asked for, and then its doors open there,
/// once it has made the transitions that its earlier destinations take.
pub proof fn lemma_call_is_served(bank: BankModel, request: ElevatorRequest, inputs: Seq<Input>)
    requires
        bank.inv(),
        bank.dispatcher.choice(request) is Some,
        bank.cars[bank.dispatcher.choice(request).unwrap().id as int].accepts(request),
        plain(inputs),
        steps(inputs) >= ({
            let car = bank.cars[bank.dispatcher.choice(request).unwrap().id as int];
            car.submit(request).wait(car.destinations.len() as int)
        }),
    ensures
        served(
            bank.call(request).cars[bank.dispatcher.choice(request).unwrap().id as int].events(
                inputs,
            ),
            request.to,
        ),
{
    lemma_call_reaches_one_car(bank, request);
    let car = bank.dispatcher.choice(request).unwrap();
    lemma_accepted_request_is_served(bank.cars[car.id as int], request, inputs);
}

/// No double membership: at all times no pool holds a car twice, and no car
/// is in two pools.
pub proof fn lemma_no_double_membership(size: usize, happenings: Seq<Happening>)
    ensures
        BankModel::initial(size).after(happenings).dispatcher.wf(),
        BankModel::initial(size).after(happenings).dispatcher.exclusive(),
{
    lemma_always_inv(size, happenings);
    let bank = BankModel::initial(size).after(happenings);
    assert forall|id: usize, first: Direction, second: Direction| #[trigger]
        bank.dispatcher.has(first, id) && #[trigger] bank.dispatcher.has(
            second,
            id,
        ) implies first == second by {}
}

/// Pool derivation. Once the dispatcher has received every event of a car,
/// the car is in no pool but the one of the direction that its latest event
/// showed; an idle car is in the idle pool. In a quiescent bank every car is
/// in the idle pool and in no other.
pub proof fn lemma_pools_follow_events(size: usize, happenings: Seq<Happening>, car: usize)
    requires
        car < size,
    ensures
        ({
            let bank = BankModel::initial(size).after(happenings);
            let controller = bank.cars[car as int];
            bank.in_flight[car as int].len() == 0 ==> {
                &&& forall|class: Direction| #[trigger]
                    bank.dispatcher.has(class, car) ==> class
                        == controller.state.initial_direction
                &&& controller.phase == Phase::Idle ==> bank.dispatcher.has(Direction::Idle, car)
                    && !bank.dispatcher.has(Direction::Up, car) && !bank.dispatcher.has(
                    Direction::Down,
                    car,
                )
            }
        }),
{
    lemma_always_inv(size, happenings);
    lemma_size_stays(size, happenings);
}

/// The number of cars never changes.
pub proof fn lemma_size_stays(size: usize, happenings: Seq<Happening>)
    ensures
        BankModel::initial(size).after(happenings).cars.len() == size,
        BankModel::initial(size).after(happenings).in_flight.len() == size,
    decreases happenings.len(),
{
    if happenings.len() > 0 {
        lemma_size_stays(size, happenings.drop_last());
    }
}

} // verus!
