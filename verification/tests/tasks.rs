use crowd2x::brain::task::{TaskResult, Tasks, CAPACITY};

/// A queued wait, known by how long it waits.
fn wait(seconds: f32) -> f32 {
    seconds
}

#[test]
fn tasks_pushed_on_the_back_run_in_the_order_they_were_queued() {
    let mut tasks: Tasks<f32> = Tasks::new();
    assert!(tasks.push_back(wait(1.0)));
    assert!(tasks.push_back(wait(2.0)));
    assert!(tasks.push_back(wait(3.0)));

    assert_eq!(tasks.pop_front(), Some(wait(1.0)));
    assert_eq!(tasks.pop_front(), Some(wait(2.0)));
    assert_eq!(tasks.pop_front(), Some(wait(3.0)));
    assert_eq!(tasks.pop_front(), None);
}

#[test]
fn a_task_pushed_on_the_front_is_the_next_one_to_run() {
    let mut tasks: Tasks<f32> = Tasks::new();
    assert!(tasks.push_back(wait(2.0)));
    assert!(tasks.push_front(wait(1.0)));

    assert_eq!(tasks.front(), Some(wait(1.0)));
    assert_eq!(tasks.back(), Some(wait(2.0)));
    assert_eq!(tasks.to_vec(), [wait(1.0), wait(2.0)]);
}

#[test]
fn a_full_queue_refuses_a_task_rather_than_growing() {
    let mut tasks: Tasks<f32> = Tasks::new();
    for i in 0..CAPACITY {
        assert!(tasks.push_back(wait(i as f32)));
    }
    assert!(!tasks.push_back(wait(99.0)));
    assert!(!tasks.push_front(wait(99.0)));
    assert_eq!(tasks.len(), CAPACITY);
    assert!(tasks.to_vec().iter().all(|&task| task != wait(99.0)));
    assert_eq!(tasks.front(), Some(wait(0.0)));
}

#[test]
fn the_queue_wraps_round_its_slots_without_losing_order() {
    let mut tasks: Tasks<f32> = Tasks::new();
    for round in 0..50 {
        let r = round as f32;
        assert!(tasks.push_front(wait(r)));
        assert!(tasks.push_back(wait(r + 0.5)));
        assert!(tasks.push_back(wait(r + 0.75)));
        assert_eq!(tasks.pop_front(), Some(wait(r)));
        assert_eq!(tasks.pop_front(), Some(wait(r + 0.5)));
        assert_eq!(tasks.pop_front(), Some(wait(r + 0.75)));
        assert!(tasks.is_empty());
    }
}

#[test]
fn clearing_empties_the_queue_but_keeps_how_the_last_task_went() {
    let mut tasks: Tasks<f32> = Tasks::new();
    assert!(tasks.push_back(wait(1.0)));
    tasks.set_result(TaskResult::Success);
    tasks.clear();
    assert!(tasks.is_empty());
    assert_eq!(tasks.front(), None);
    assert_eq!(tasks.result(), TaskResult::Success);
}
