//! Control core of a multi-car elevator bank: the published car state, pools
//! of cars by motion class, the per-car controller and the central dispatcher.

pub mod bank;
pub mod central_elevator_controller;
pub mod elevator;
pub mod elevator_controller;
pub mod elevator_pools;
pub mod interfaces;
