use elevator_bank::central_elevator_controller::CentralElevatorController;
use elevator_bank::elevator::Direction;
use elevator_bank::elevator::ElevatorState;
use elevator_bank::elevator_controller::ElevatorController;
use elevator_bank::elevator_controller::Next;
use elevator_bank::elevator_controller::Phase;
use elevator_bank::interfaces::CentralElevatorControllerI;
use std::collections::VecDeque;

/// A bank wired up by hand: what a car publishes waits in a queue of its own
/// until the dispatcher is given it.
struct Bank {
    dispatcher: CentralElevatorController,
    cars: Vec<ElevatorController>,
    in_flight: Vec<VecDeque<ElevatorState>>,
    seen: Vec<Vec<ElevatorState>>,
}

fn bank(size: usize) -> Bank {
    Bank {
        dispatcher: CentralElevatorController::new(size),
        cars: (0..size).map(ElevatorController::new).collect(),
        in_flight: (0..size).map(|_| VecDeque::new()).collect(),
        seen: (0..size).map(|_| Vec::new()).collect(),
    }
}

fn call(bank: &mut Bank, from: usize, to: usize) -> Option<usize> {
    let assignment = bank.dispatcher.call_for_an_elevator(from, to)?;
    bank.cars[assignment.car].listen_request(assignment.request);
    check_pools(bank);
    Some(assignment.car)
}

fn step(bank: &mut Bank, car: usize) -> Next {
    let action = bank.cars[car].step();
    if let Some(event) = action.publish {
        bank.in_flight[car].push_back(event);
        bank.seen[car].push(event);
    }
    check_pools(bank);
    action.next
}

fn deliver(bank: &mut Bank, car: usize) {
    if let Some(event) = bank.in_flight[car].pop_front() {
        bank.dispatcher.listen_elevator_state(event);
    }
    check_pools(bank);
}

fn settle(bank: &mut Bank) {
    for car in 0..bank.cars.len() {
        while bank.cars[car].is_busy() {
            step(bank, car);
            deliver(bank, car);
        }
        while !bank.in_flight[car].is_empty() {
            deliver(bank, car);
        }
    }
}

fn pools_of(bank: &Bank, car: usize) -> Vec<Direction> {
    let states = bank.dispatcher.print_states();
    let mut out = Vec::new();
    for (class, pool) in [
        (Direction::Idle, &states.idle),
        (Direction::Up, &states.up),
        (Direction::Down, &states.down),
    ] {
        for _ in pool.iter().filter(|held| held.id == car) {
            out.push(class);
        }
    }
    out
}

fn check_pools(bank: &Bank) {
    for car in 0..bank.cars.len() {
        let pools = pools_of(bank, car);
        assert!(pools.len() <= 1);
        if bank.in_flight[car].is_empty() {
            for class in &pools {
                assert_eq!(*class, bank.cars[car].state().initial_direction);
            }
            if bank.cars[car].phase() == Phase::Idle {
                assert_eq!(pools, vec![Direction::Idle]);
            }
        }
    }
}

fn doors(bank: &Bank, car: usize) -> Vec<usize> {
    bank.seen[car]
        .iter()
        .filter(|event| event.is_door_open)
        .map(|event| event.current_floor)
        .collect()
}

#[test]
fn a_single_call_is_served_and_both_cars_end_idle() {
    let mut bank = bank(2);
    assert_eq!(call(&mut bank, 0, 3), Some(0));
    assert_eq!(pools_of(&bank, 0), vec![]);
    settle(&mut bank);
    let floors: Vec<usize> = bank.seen[0].iter().map(|event| event.current_floor).collect();
    assert_eq!(floors, vec![1, 2, 3, 3, 3]);
    assert_eq!(doors(&bank, 0), vec![3]);
    assert_eq!(bank.seen[1], vec![]);
    assert_eq!(pools_of(&bank, 0), vec![Direction::Idle]);
    assert_eq!(pools_of(&bank, 1), vec![Direction::Idle]);
}

#[test]
fn four_calls_on_two_cars_visit_every_floor_asked_for() {
    let mut bank = bank(2);
    assert_eq!(call(&mut bank, 0, 3), Some(0));
    step(&mut bank, 0);
    step(&mut bank, 0);
    deliver(&mut bank, 0);
    assert_eq!(pools_of(&bank, 0), vec![Direction::Up]);
    assert_eq!(call(&mut bank, 0, 4), Some(1));
    step(&mut bank, 1);
    step(&mut bank, 1);
    deliver(&mut bank, 1);
    assert_eq!(call(&mut bank, 0, 3), Some(0));
    assert_eq!(call(&mut bank, 0, 1), Some(1));
    settle(&mut bank);
    assert_eq!(doors(&bank, 0), vec![3]);
    assert_eq!(doors(&bank, 1), vec![4, 1]);
    assert_eq!(pools_of(&bank, 0), vec![Direction::Idle]);
    assert_eq!(pools_of(&bank, 1), vec![Direction::Idle]);
}

#[test]
fn a_second_call_reaches_the_car_that_is_moving_up() {
    let mut bank = bank(1);
    assert_eq!(call(&mut bank, 0, 3), Some(0));
    step(&mut bank, 0);
    step(&mut bank, 0);
    deliver(&mut bank, 0);
    assert_eq!(pools_of(&bank, 0), vec![Direction::Up]);
    assert_eq!(call(&mut bank, 0, 4), Some(0));
    assert_eq!(pools_of(&bank, 0), vec![]);
    assert_eq!(bank.cars[0].destinations(), vec![3, 4]);
    settle(&mut bank);
    assert_eq!(doors(&bank, 0), vec![3, 4]);
    assert_eq!(pools_of(&bank, 0), vec![Direction::Idle]);
    assert_eq!(bank.cars[0].state().current_floor, 4);
}

#[test]
fn a_call_to_the_floor_of_an_idle_car_leaves_it_in_the_idle_pool() {
    let mut bank = bank(1);
    assert_eq!(call(&mut bank, 0, 3), Some(0));
    settle(&mut bank);
    assert_eq!(call(&mut bank, 3, 3), Some(0));
    assert_eq!(pools_of(&bank, 0), vec![]);
    step(&mut bank, 0);
    deliver(&mut bank, 0);
    assert_eq!(pools_of(&bank, 0), vec![Direction::Idle]);
    settle(&mut bank);
    assert_eq!(doors(&bank, 0), vec![3, 3]);
    assert_eq!(bank.cars[0].state().direction, Direction::Idle);
    assert_eq!(bank.cars[0].state().current_floor, 3);
    assert_eq!(pools_of(&bank, 0), vec![Direction::Idle]);
    assert!(bank.seen[0][5..].iter().all(|event| event.direction == Direction::Idle));
}

#[test]
fn a_call_while_both_cars_are_taken_finds_none_until_an_event_comes_in() {
    let mut bank = bank(2);
    assert_eq!(call(&mut bank, 0, 3), Some(0));
    assert_eq!(call(&mut bank, 0, 4), Some(1));
    assert_eq!(call(&mut bank, 0, 5), None);
    step(&mut bank, 1);
    step(&mut bank, 1);
    assert_eq!(call(&mut bank, 0, 5), None);
    deliver(&mut bank, 1);
    assert_eq!(call(&mut bank, 0, 5), Some(1));
    settle(&mut bank);
    assert_eq!(doors(&bank, 0), vec![3]);
    assert_eq!(doors(&bank, 1), vec![4, 5]);
}

#[test]
fn events_that_lag_behind_never_put_a_car_into_two_pools() {
    let mut bank = bank(3);
    let calls = [(0, 2), (2, 0), (1, 1), (0, 5), (5, 3), (3, 4), (4, 0), (0, 1), (6, 2)];
    for (turn, (from, to)) in calls.iter().enumerate() {
        call(&mut bank, *from, *to);
        for car in 0..3 {
            for _ in 0..(turn + car) % 4 {
                step(&mut bank, car);
            }
            if (turn + car) % 3 == 0 {
                deliver(&mut bank, car);
            }
        }
    }
    settle(&mut bank);
    for car in 0..3 {
        assert_eq!(bank.cars[car].phase(), Phase::Idle);
        assert_eq!(pools_of(&bank, car), vec![Direction::Idle]);
        assert_eq!(bank.cars[car].destinations(), vec![]);
    }
}

#[test]
fn a_call_hands_its_request_to_the_selected_car_only() {
    let mut bank = bank(3);
    let assignment = bank.dispatcher.call_for_an_elevator(2, 6).unwrap();
    assert_eq!(assignment.car, 0);
    assert_eq!(assignment.request.from, 2);
    assert_eq!(assignment.request.to, 6);
    assert!(bank.cars[assignment.car].listen_request(assignment.request));
    assert_eq!(bank.cars[0].destinations(), vec![6]);
    assert_eq!(bank.cars[1].destinations(), vec![]);
    assert_eq!(bank.cars[2].destinations(), vec![]);
    assert!(!bank.cars[1].is_busy());
    assert!(!bank.cars[2].is_busy());
    settle(&mut bank);
    assert_eq!(doors(&bank, 0), vec![6]);
    assert_eq!(doors(&bank, 1), vec![]);
    assert_eq!(doors(&bank, 2), vec![]);
}

#[test]
fn every_floor_that_a_call_asks_for_sees_arrival_and_then_open_doors() {
    let mut bank = bank(2);
    let calls = [(0, 4), (4, 2), (0, 7), (7, 7), (1, 0), (3, 5)];
    let mut asked: Vec<(usize, usize, usize)> = Vec::new();
    for (turn, (from, to)) in calls.iter().enumerate() {
        let car = loop {
            let mark: Vec<usize> = bank.seen.iter().map(|seen| seen.len()).collect();
            if let Some(car) = call(&mut bank, *from, *to) {
                asked.push((car, *to, mark[car]));
                break car;
            }
            for car in 0..2 {
                step(&mut bank, car);
                deliver(&mut bank, car);
            }
        };
        assert!(bank.cars[car].is_busy());
        for car in 0..2 {
            for _ in 0..turn + 2 {
                step(&mut bank, car);
            }
            deliver(&mut bank, car);
        }
    }
    settle(&mut bank);
    assert_eq!(asked.len(), calls.len());
    for (car, floor, mark) in asked {
        let later = &bank.seen[car][mark..];
        let open = later
            .iter()
            .position(|event| event.current_floor == floor && event.is_door_open);
        assert!(open.is_some());
        assert!(later[..open.unwrap()].iter().any(|event| event.current_floor == floor));
    }
}
