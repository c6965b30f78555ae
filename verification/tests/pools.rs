use elevator_bank::elevator::ElevatorState;
use elevator_bank::elevator_pools::elevator_heap::ElevatorHeap;
use elevator_bank::elevator_pools::elevator_heap::MyError;
use elevator_bank::elevator_pools::elevator_queue::ElevatorQueue;
use elevator_bank::interfaces::ElevatorPool;

fn car(id: usize, load: usize) -> ElevatorState {
    ElevatorState { current_load: load, ..ElevatorState::new(id) }
}

fn ids(cars: &[ElevatorState]) -> Vec<usize> {
    cars.iter().map(|car| car.id).collect()
}

fn drain<P: ElevatorPool>(pool: &mut P) -> Vec<ElevatorState> {
    let mut out = Vec::new();
    while let Some(car) = pool.get_elevator() {
        out.push(car);
    }
    out
}

fn exercise<P: ElevatorPool>() {
    let mut pool = P::new();
    assert_eq!(pool.len(), 0);
    assert_eq!(pool.get_elevator(), None);
    assert_eq!(pool.remove_elevator(3), None);
    assert!(pool.insert_elevator(car(3, 10)).is_ok());
    assert!(pool.insert_elevator(car(1, 20)).is_ok());
    assert_eq!(pool.len(), 2);
    assert!(pool.insert_elevator(car(3, 0)).is_ok());
    assert_eq!(pool.len(), 2);
    assert_eq!(pool.remove_elevator(3), Some(car(3, 10)));
    assert_eq!(pool.remove_elevator(3), None);
    assert_eq!(pool.len(), 1);
    assert_eq!(pool.get_elevator(), Some(car(1, 20)));
    assert_eq!(pool.get_elevator(), None);
    assert_eq!(pool.len(), 0);
}

#[test]
fn queue_meets_the_pool_interface() {
    exercise::<ElevatorQueue>();
}

#[test]
fn heap_meets_the_pool_interface() {
    exercise::<ElevatorHeap>();
}

#[test]
fn new_queue_is_empty() {
    let mut pool = ElevatorQueue::new();
    assert_eq!(pool.len(), 0);
    assert_eq!(pool.elevators(), vec![]);
    assert_eq!(pool.get_elevator(), None);
    assert_eq!(pool.len(), 0);
}

#[test]
fn queue_hands_out_in_arrival_order() {
    let mut pool = ElevatorQueue::new();
    for id in [5, 2, 9, 0] {
        assert!(pool.insert_elevator(car(id, 100 - id)).is_ok());
    }
    assert_eq!(ids(&pool.elevators()), vec![5, 2, 9, 0]);
    assert_eq!(pool.get_elevator(), Some(car(5, 95)));
    assert_eq!(pool.get_elevator(), Some(car(2, 98)));
    assert!(pool.insert_elevator(car(5, 1)).is_ok());
    assert_eq!(ids(&pool.elevators()), vec![9, 0, 5]);
    assert_eq!(ids(&drain(&mut pool)), vec![9, 0, 5]);
}

#[test]
fn queue_keeps_the_first_snapshot_of_a_car() {
    let mut pool = ElevatorQueue::new();
    assert!(pool.insert_elevator(car(7, 1)).is_ok());
    assert!(pool.insert_elevator(car(8, 2)).is_ok());
    assert!(pool.insert_elevator(car(7, 3)).is_ok());
    assert_eq!(pool.len(), 2);
    assert_eq!(pool.elevators(), vec![car(7, 1), car(8, 2)]);
}

#[test]
fn queue_removes_by_id_from_any_place() {
    let mut pool = ElevatorQueue::new();
    for id in 0..5 {
        assert!(pool.insert_elevator(car(id, id)).is_ok());
    }
    assert_eq!(pool.remove_elevator(2), Some(car(2, 2)));
    assert_eq!(ids(&pool.elevators()), vec![0, 1, 3, 4]);
    assert_eq!(pool.remove_elevator(4), Some(car(4, 4)));
    assert_eq!(ids(&pool.elevators()), vec![0, 1, 3]);
    assert_eq!(pool.remove_elevator(0), Some(car(0, 0)));
    assert_eq!(ids(&pool.elevators()), vec![1, 3]);
    assert_eq!(pool.len(), 2);
}

#[test]
fn queue_ignores_the_removal_of_an_absent_car() {
    let mut pool = ElevatorQueue::new();
    assert!(pool.insert_elevator(car(1, 0)).is_ok());
    assert_eq!(pool.remove_elevator(2), None);
    assert_eq!(pool.elevators(), vec![car(1, 0)]);
    assert_eq!(pool.len(), 1);
}

#[test]
fn queue_takes_a_car_back_after_it_left() {
    let mut pool = ElevatorQueue::new();
    assert!(pool.insert_elevator(car(1, 0)).is_ok());
    assert_eq!(pool.remove_elevator(1), Some(car(1, 0)));
    assert!(pool.insert_elevator(car(1, 6)).is_ok());
    assert_eq!(pool.elevators(), vec![car(1, 6)]);
}

#[test]
fn heap_hands_out_the_least_loaded_first() {
    let mut pool = ElevatorHeap::new();
    let loads = [7, 3, 9, 1, 8, 2, 6, 4, 5, 0];
    for (id, load) in loads.iter().enumerate() {
        assert!(pool.insert_elevator(car(id, *load)).is_ok());
    }
    assert_eq!(pool.len(), 10);
    let out = drain(&mut pool);
    let seen: Vec<usize> = out.iter().map(|car| car.current_load).collect();
    assert_eq!(seen, vec![0, 1, 2, 3, 4, 5, 6, 7, 8, 9]);
    assert_eq!(ids(&out), vec![9, 3, 5, 1, 7, 8, 6, 0, 4, 2]);
    assert_eq!(pool.len(), 0);
}

#[test]
fn heap_keeps_the_first_snapshot_of_a_car() {
    let mut pool = ElevatorHeap::new();
    assert!(pool.insert_elevator(car(1, 50)).is_ok());
    assert!(pool.insert_elevator(car(2, 40)).is_ok());
    assert!(pool.insert_elevator(car(1, 0)).is_ok());
    assert_eq!(pool.len(), 2);
    assert_eq!(pool.get_elevator(), Some(car(2, 40)));
    assert_eq!(pool.get_elevator(), Some(car(1, 50)));
}

#[test]
fn heap_removes_by_id_and_stays_ordered() {
    let mut pool = ElevatorHeap::new();
    let loads = [1, 10, 2, 11, 12, 3, 4, 13, 14, 15, 16, 5];
    for (id, load) in loads.iter().enumerate() {
        assert!(pool.insert_elevator(car(id, *load)).is_ok());
    }
    assert_eq!(pool.remove_elevator(3), Some(car(3, 11)));
    assert_eq!(pool.remove_elevator(0), Some(car(0, 1)));
    assert_eq!(pool.remove_elevator(11), Some(car(11, 5)));
    assert_eq!(pool.remove_elevator(40), None);
    assert_eq!(pool.len(), 9);
    let seen: Vec<usize> = drain(&mut pool).iter().map(|car| car.current_load).collect();
    assert_eq!(seen, vec![2, 3, 4, 10, 12, 13, 14, 15, 16]);
}

#[test]
fn heap_lets_a_light_car_rise_into_a_gap() {
    let mut pool = ElevatorHeap::new();
    let loads = [0, 10, 1, 11, 12, 2, 3, 13, 14, 15, 16, 4];
    for (id, load) in loads.iter().enumerate() {
        assert!(pool.insert_elevator(car(id, *load)).is_ok());
    }
    assert_eq!(pool.remove_elevator(7), Some(car(7, 13)));
    let seen: Vec<usize> = drain(&mut pool).iter().map(|car| car.current_load).collect();
    assert_eq!(seen, vec![0, 1, 2, 3, 4, 10, 11, 12, 14, 15, 16]);
}

#[test]
fn heap_with_equal_loads_hands_every_car_out_once() {
    let mut pool = ElevatorHeap::new();
    for id in 0..6 {
        assert!(pool.insert_elevator(car(id, 0)).is_ok());
    }
    let mut out = ids(&drain(&mut pool));
    out.sort();
    assert_eq!(out, vec![0, 1, 2, 3, 4, 5]);
}

#[test]
fn an_error_carries_its_text() {
    let error = MyError::new("parent is missing");
    assert_eq!(error.message(), "parent is missing");
}

/// A sequence of numbers that looks arbitrary and is the same on every run.
fn arbitrary(count: usize) -> Vec<usize> {
    let mut state: u64 = 0x2545_f491_4f6c_dd1d;
    let mut out = Vec::new();
    for _ in 0..count {
        state ^= state << 13;
        state ^= state >> 7;
        state ^= state << 17;
        out.push((state % 1000) as usize);
    }
    out
}

#[test]
fn queue_agrees_with_a_plain_list_over_many_operations() {
    let mut pool = ElevatorQueue::new();
    let mut list: Vec<ElevatorState> = Vec::new();
    for (turn, number) in arbitrary(600).into_iter().enumerate() {
        let id = number % 12;
        match number % 5 {
            0 | 1 => {
                let new = car(id, turn);
                assert!(pool.insert_elevator(new).is_ok());
                if !list.iter().any(|held| held.id == id) {
                    list.push(new);
                }
            }
            2 | 3 => {
                let at = list.iter().position(|held| held.id == id);
                let expected = at.map(|at| list.remove(at));
                assert_eq!(pool.remove_elevator(id), expected);
            }
            _ => {
                let expected = if list.is_empty() { None } else { Some(list.remove(0)) };
                assert_eq!(pool.get_elevator(), expected);
            }
        }
        assert_eq!(pool.len(), list.len());
        assert_eq!(pool.elevators(), list);
    }
}

#[test]
fn heap_agrees_with_a_plain_list_over_many_operations() {
    let mut pool = ElevatorHeap::new();
    let mut list: Vec<ElevatorState> = Vec::new();
    for (turn, number) in arbitrary(900).into_iter().enumerate() {
        let id = number % 40;
        match number % 5 {
            0 | 1 | 2 => {
                let new = car(id, (number / 7) % 25);
                assert!(pool.insert_elevator(new).is_ok());
                if !list.iter().any(|held| held.id == id) {
                    list.push(new);
                }
            }
            3 => {
                let at = list.iter().position(|held| held.id == id);
                let expected = at.map(|at| list.remove(at));
                assert_eq!(pool.remove_elevator(id), expected);
            }
            _ => match pool.get_elevator() {
                Some(out) => {
                    let least = list.iter().map(|held| held.current_load).min();
                    assert_eq!(Some(out.current_load), least);
                    let at = list.iter().position(|held| *held == out);
                    assert!(at.is_some());
                    list.remove(at.unwrap());
                }
                None => assert!(list.is_empty()),
            },
        }
        assert_eq!(pool.len(), list.len(), "after turn {}", turn);
    }
    let mut rest = drain(&mut pool);
    let loads: Vec<usize> = rest.iter().map(|held| held.current_load).collect();
    let mut sorted = loads.clone();
    sorted.sort();
    assert_eq!(loads, sorted);
    rest.sort_by_key(|held| held.id);
    list.sort_by_key(|held| held.id);
    assert_eq!(rest, list);
}
