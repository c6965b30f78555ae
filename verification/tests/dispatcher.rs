use elevator_bank::central_elevator_controller::Assignment;
use elevator_bank::central_elevator_controller::CentralElevatorController;
use elevator_bank::central_elevator_controller::ElevatorRequest;
use elevator_bank::central_elevator_controller::PoolStates;
use elevator_bank::elevator::Direction;
use elevator_bank::elevator::ElevatorState;
use elevator_bank::interfaces::CentralElevatorControllerI;

fn event(id: usize, direction: Direction, before: Direction) -> ElevatorState {
    ElevatorState { direction, initial_direction: before, ..ElevatorState::new(id) }
}

fn pools(dispatcher: &CentralElevatorController) -> (Vec<usize>, Vec<usize>, Vec<usize>) {
    let states = dispatcher.print_states();
    (
        states.idle.iter().map(|car| car.id).collect(),
        states.up.iter().map(|car| car.id).collect(),
        states.down.iter().map(|car| car.id).collect(),
    )
}

fn assigned(car: usize, from: usize, to: usize) -> Option<Assignment> {
    Some(Assignment { car, request: ElevatorRequest { from, to } })
}

#[test]
fn a_new_dispatcher_holds_every_car_idle() {
    let dispatcher = CentralElevatorController::new(3);
    assert_eq!(
        dispatcher.print_states(),
        PoolStates {
            idle: vec![ElevatorState::new(0), ElevatorState::new(1), ElevatorState::new(2)],
            up: vec![],
            down: vec![],
        }
    );
}

#[test]
fn a_dispatcher_without_cars_finds_none() {
    let mut dispatcher = CentralElevatorController::new(0);
    assert_eq!(pools(&dispatcher), (vec![], vec![], vec![]));
    assert_eq!(dispatcher.call_for_an_elevator(0, 3), None);
    assert_eq!(pools(&dispatcher), (vec![], vec![], vec![]));
}

#[test]
fn idle_cars_are_selected_oldest_first() {
    let mut dispatcher = CentralElevatorController::new(3);
    assert_eq!(dispatcher.call_for_an_elevator(0, 3), assigned(0, 0, 3));
    assert_eq!(pools(&dispatcher), (vec![1, 2], vec![], vec![]));
    assert_eq!(dispatcher.call_for_an_elevator(4, 1), assigned(1, 4, 1));
    assert_eq!(dispatcher.call_for_an_elevator(2, 2), assigned(2, 2, 2));
    assert_eq!(pools(&dispatcher), (vec![], vec![], vec![]));
}

#[test]
fn a_call_with_every_pool_empty_finds_none() {
    let mut dispatcher = CentralElevatorController::new(2);
    assert_eq!(dispatcher.call_for_an_elevator(0, 3), assigned(0, 0, 3));
    assert_eq!(dispatcher.call_for_an_elevator(0, 4), assigned(1, 0, 4));
    assert_eq!(dispatcher.call_for_an_elevator(0, 5), None);
    assert_eq!(dispatcher.call_for_an_elevator(5, 0), None);
    dispatcher.listen_elevator_state(event(1, Direction::Up, Direction::Idle));
    assert_eq!(dispatcher.call_for_an_elevator(0, 5), assigned(1, 0, 5));
    assert_eq!(dispatcher.call_for_an_elevator(0, 5), None);
}

#[test]
fn an_idle_car_is_preferred_to_a_moving_one() {
    let mut dispatcher = CentralElevatorController::new(2);
    dispatcher.listen_elevator_state(event(0, Direction::Up, Direction::Idle));
    assert_eq!(pools(&dispatcher), (vec![1], vec![0], vec![]));
    assert_eq!(dispatcher.call_for_an_elevator(0, 9), assigned(1, 0, 9));
    assert_eq!(pools(&dispatcher), (vec![], vec![0], vec![]));
}

#[test]
fn a_call_takes_a_car_that_moves_its_way() {
    let mut dispatcher = CentralElevatorController::new(2);
    dispatcher.listen_elevator_state(event(0, Direction::Up, Direction::Idle));
    dispatcher.listen_elevator_state(event(1, Direction::Down, Direction::Idle));
    assert_eq!(pools(&dispatcher), (vec![], vec![0], vec![1]));
    assert_eq!(dispatcher.call_for_an_elevator(6, 2), assigned(1, 6, 2));
    assert_eq!(pools(&dispatcher), (vec![], vec![0], vec![]));
    dispatcher.listen_elevator_state(event(1, Direction::Down, Direction::Idle));
    assert_eq!(dispatcher.call_for_an_elevator(2, 6), assigned(0, 2, 6));
    assert_eq!(pools(&dispatcher), (vec![], vec![], vec![1]));
}

#[test]
fn a_call_falls_back_on_a_car_that_moves_the_other_way() {
    let mut dispatcher = CentralElevatorController::new(2);
    dispatcher.listen_elevator_state(event(0, Direction::Down, Direction::Idle));
    dispatcher.listen_elevator_state(event(1, Direction::Down, Direction::Idle));
    assert_eq!(dispatcher.call_for_an_elevator(0, 3), assigned(0, 0, 3));
    assert_eq!(pools(&dispatcher), (vec![], vec![], vec![1]));
    dispatcher.listen_elevator_state(event(1, Direction::Up, Direction::Down));
    assert_eq!(pools(&dispatcher), (vec![], vec![1], vec![]));
    assert_eq!(dispatcher.call_for_an_elevator(3, 0), assigned(1, 3, 0));
    assert_eq!(pools(&dispatcher), (vec![], vec![], vec![]));
}

#[test]
fn a_call_within_one_floor_counts_as_going_down() {
    let mut dispatcher = CentralElevatorController::new(2);
    dispatcher.listen_elevator_state(event(0, Direction::Up, Direction::Idle));
    dispatcher.listen_elevator_state(event(1, Direction::Down, Direction::Idle));
    assert_eq!(dispatcher.call_for_an_elevator(3, 3), assigned(1, 3, 3));
}

#[test]
fn an_event_moves_its_car_between_the_pools() {
    let mut dispatcher = CentralElevatorController::new(3);
    let leaving = ElevatorState {
        current_floor: 1,
        is_moving: true,
        ..event(1, Direction::Up, Direction::Idle)
    };
    dispatcher.listen_elevator_state(leaving);
    assert_eq!(
        dispatcher.print_states(),
        PoolStates {
            idle: vec![ElevatorState::new(0), ElevatorState::new(2)],
            up: vec![leaving],
            down: vec![],
        }
    );
    let turning = ElevatorState { current_floor: 4, ..event(1, Direction::Down, Direction::Up) };
    dispatcher.listen_elevator_state(turning);
    assert_eq!(pools(&dispatcher), (vec![0, 2], vec![], vec![1]));
    let resting = ElevatorState { current_floor: 2, ..event(1, Direction::Idle, Direction::Down) };
    dispatcher.listen_elevator_state(resting);
    assert_eq!(
        dispatcher.print_states(),
        PoolStates {
            idle: vec![ElevatorState::new(0), ElevatorState::new(2), resting],
            up: vec![],
            down: vec![],
        }
    );
}

#[test]
fn an_event_within_a_ride_leaves_the_pools_alone() {
    let mut dispatcher = CentralElevatorController::new(2);
    dispatcher.listen_elevator_state(event(0, Direction::Up, Direction::Idle));
    let before = dispatcher.print_states();
    let tick = ElevatorState {
        current_floor: 3,
        is_moving: true,
        ..event(0, Direction::Up, Direction::Up)
    };
    dispatcher.listen_elevator_state(tick);
    assert_eq!(dispatcher.print_states(), before);
    dispatcher.listen_elevator_state(event(1, Direction::Down, Direction::Down));
    assert_eq!(dispatcher.print_states(), before);
}

#[test]
fn an_idle_event_of_an_idle_car_renews_its_snapshot() {
    let mut dispatcher = CentralElevatorController::new(2);
    let doors = ElevatorState { is_door_open: true, ..ElevatorState::new(0) };
    dispatcher.listen_elevator_state(doors);
    assert_eq!(
        dispatcher.print_states(),
        PoolStates { idle: vec![ElevatorState::new(1), doors], up: vec![], down: vec![] }
    );
}

#[test]
fn a_selected_car_comes_back_with_its_next_event() {
    let mut dispatcher = CentralElevatorController::new(1);
    assert_eq!(dispatcher.call_for_an_elevator(0, 0), assigned(0, 0, 0));
    assert_eq!(pools(&dispatcher), (vec![], vec![], vec![]));
    dispatcher.listen_elevator_state(ElevatorState::new(0));
    assert_eq!(pools(&dispatcher), (vec![0], vec![], vec![]));
}

#[test]
fn an_event_that_names_the_wrong_pool_still_puts_its_car_in() {
    let mut dispatcher = CentralElevatorController::new(2);
    assert_eq!(dispatcher.call_for_an_elevator(0, 3), assigned(0, 0, 3));
    dispatcher.listen_elevator_state(event(0, Direction::Idle, Direction::Down));
    assert_eq!(pools(&dispatcher), (vec![1, 0], vec![], vec![]));
    dispatcher.listen_elevator_state(event(1, Direction::Up, Direction::Down));
    assert_eq!(pools(&dispatcher), (vec![1, 0], vec![1], vec![]));
}

#[test]
fn a_car_that_is_in_a_pool_keeps_its_snapshot_there() {
    let mut dispatcher = CentralElevatorController::new(1);
    dispatcher.listen_elevator_state(event(0, Direction::Up, Direction::Idle));
    let late = ElevatorState { current_floor: 8, ..event(0, Direction::Up, Direction::Down) };
    dispatcher.listen_elevator_state(late);
    assert_eq!(
        dispatcher.print_states(),
        PoolStates { idle: vec![], up: vec![event(0, Direction::Up, Direction::Idle)], down: vec![] }
    );
}
