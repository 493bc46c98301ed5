use kernel_primitives::scheduler::{slice_expired, SimpleScheduler, SimpleTask, TIME_SLICE};
use std::sync::Arc;

fn task(payload: u32) -> Arc<SimpleTask<u32>> {
    Arc::new(SimpleTask::new(payload))
}

fn same(a: &Option<Arc<SimpleTask<u32>>>, b: &Arc<SimpleTask<u32>>) -> bool {
    match a {
        Some(handle) => Arc::ptr_eq(handle, b),
        None => false,
    }
}

#[test]
fn task_wraps_its_payload() {
    let t = SimpleTask::new(String::from("idle"));
    assert_eq!(t.inner(), "idle");
    assert_eq!(t.len(), 4);
    let u = SimpleTask::new(42u64);
    assert_eq!(*u.inner(), 42);
    assert_eq!(*u, 42);
}

#[test]
fn scheduler_is_called_simple() {
    assert_eq!(SimpleScheduler::<u32>::scheduler_name(), "Simple");
}

#[test]
fn time_slice_is_five_ticks() {
    assert_eq!(TIME_SLICE, 5);
}

#[test]
fn new_scheduler_has_nothing_to_run() {
    let mut s = SimpleScheduler::<u32>::new();
    assert!(s.pick_next_task().is_none());
    s.init();
    assert!(s.pick_next_task().is_none());
    assert!(s.remove_task(&task(1)).is_none());
    assert!(s.remove_at(0).is_none());
}

#[test]
fn tasks_are_picked_in_the_order_added() {
    let mut s = SimpleScheduler::new();
    let (a, b, c) = (task(1), task(2), task(3));
    s.add_task(a.clone());
    s.add_task(b.clone());
    s.add_task(c.clone());
    assert!(same(&s.pick_next_task(), &a));
    assert!(same(&s.pick_next_task(), &b));
    assert!(same(&s.pick_next_task(), &c));
    assert!(s.pick_next_task().is_none());
    assert!(s.pick_next_task().is_none());
}

#[test]
fn init_keeps_the_queue() {
    let mut s = SimpleScheduler::new();
    let (a, b) = (task(1), task(2));
    s.add_task(a.clone());
    s.add_task(b.clone());
    s.init();
    assert!(same(&s.pick_next_task(), &a));
    assert!(same(&s.pick_next_task(), &b));
    assert!(s.pick_next_task().is_none());
}

#[test]
fn requeued_task_goes_behind_the_waiting_ones() {
    let mut s = SimpleScheduler::new();
    let (a, b, c) = (task(1), task(2), task(3));
    s.add_task(a.clone());
    s.add_task(b.clone());
    s.add_task(c.clone());
    let picked = s.pick_next_task().unwrap();
    assert!(Arc::ptr_eq(&picked, &a));
    s.put_prev_task(picked, false);
    assert!(same(&s.pick_next_task(), &b));
    assert!(same(&s.pick_next_task(), &c));
    assert!(same(&s.pick_next_task(), &a));
    assert!(s.pick_next_task().is_none());
}

#[test]
fn preempted_task_is_requeued_like_one_that_yielded() {
    let mut s = SimpleScheduler::new();
    let (a, b, c) = (task(1), task(2), task(3));
    s.add_task(a.clone());
    s.add_task(b.clone());
    s.add_task(c.clone());
    let picked = s.pick_next_task().unwrap();
    s.put_prev_task(picked, true);
    assert!(same(&s.pick_next_task(), &b));
    assert!(same(&s.pick_next_task(), &c));
    assert!(same(&s.pick_next_task(), &a));
    assert!(s.pick_next_task().is_none());
}

#[test]
fn round_robin_over_several_turns() {
    let mut s = SimpleScheduler::new();
    let tasks = [task(0), task(1), task(2), task(3)];
    for t in tasks.iter() {
        s.add_task(t.clone());
    }
    for turn in 0..12 {
        let current = s.pick_next_task().unwrap();
        assert!(Arc::ptr_eq(&current, &tasks[turn % 4]));
        assert_eq!(*current.inner(), (turn % 4) as u32);
        s.put_prev_task(current, turn % 2 == 0);
    }
}

#[test]
fn removed_task_is_not_picked() {
    let mut s = SimpleScheduler::new();
    let (a, b) = (task(1), task(2));
    s.add_task(a.clone());
    s.add_task(b.clone());
    assert!(same(&s.remove_task(&a), &a));
    assert!(same(&s.pick_next_task(), &b));
    assert!(s.pick_next_task().is_none());
    assert!(s.remove_task(&a).is_none());
}

#[test]
fn removing_twice_finds_nothing_the_second_time() {
    let mut s = SimpleScheduler::new();
    let (a, b) = (task(1), task(2));
    s.add_task(a.clone());
    s.add_task(b.clone());
    assert!(same(&s.remove_task(&a), &a));
    assert!(s.remove_task(&a).is_none());
    assert!(same(&s.pick_next_task(), &b));
    assert!(s.pick_next_task().is_none());
}

#[test]
fn remove_from_the_middle_keeps_the_order() {
    let mut s = SimpleScheduler::new();
    let tasks = [task(0), task(1), task(2), task(3), task(4)];
    for t in tasks.iter() {
        s.add_task(t.clone());
    }
    assert!(same(&s.remove_task(&tasks[2]), &tasks[2]));
    assert!(same(&s.remove_task(&tasks[4]), &tasks[4]));
    assert!(same(&s.pick_next_task(), &tasks[0]));
    assert!(same(&s.pick_next_task(), &tasks[1]));
    assert!(same(&s.pick_next_task(), &tasks[3]));
    assert!(s.pick_next_task().is_none());
}

#[test]
fn remove_of_a_task_that_is_not_queued_finds_nothing() {
    let mut s = SimpleScheduler::new();
    let (a, b, stranger) = (task(1), task(2), task(3));
    s.add_task(a.clone());
    s.add_task(b.clone());
    assert!(s.remove_task(&stranger).is_none());
    assert!(same(&s.pick_next_task(), &a));
    assert!(same(&s.pick_next_task(), &b));
    assert!(s.pick_next_task().is_none());
}

#[test]
fn tasks_are_told_apart_by_identity_not_payload() {
    let mut s = SimpleScheduler::new();
    let (first, second, third) = (task(7), task(7), task(7));
    s.add_task(first.clone());
    s.add_task(second.clone());
    // `third` holds the same payload and was never queued.
    assert!(s.remove_task(&third).is_none());
    // Of two queued tasks with one payload, the one asked for leaves.
    let removed = s.remove_task(&second).unwrap();
    assert!(Arc::ptr_eq(&removed, &second));
    assert!(!Arc::ptr_eq(&removed, &first));
    assert!(same(&s.pick_next_task(), &first));
    assert!(s.pick_next_task().is_none());
}

#[test]
fn remove_takes_the_first_of_a_task_queued_twice() {
    let mut s = SimpleScheduler::new();
    let (a, b) = (task(1), task(2));
    s.add_task(a.clone());
    s.add_task(b.clone());
    s.add_task(a.clone());
    assert!(same(&s.remove_task(&a), &a));
    assert!(same(&s.pick_next_task(), &b));
    assert!(same(&s.pick_next_task(), &a));
    assert!(s.pick_next_task().is_none());
}

#[test]
fn remove_at_takes_the_handle_at_the_index() {
    let mut s = SimpleScheduler::new();
    let tasks = [task(0), task(1), task(2)];
    for t in tasks.iter() {
        s.add_task(t.clone());
    }
    assert!(s.remove_at(3).is_none());
    assert!(s.remove_at(usize::MAX).is_none());
    assert!(same(&s.remove_at(1), &tasks[1]));
    assert!(s.remove_at(2).is_none());
    assert!(same(&s.remove_at(1), &tasks[2]));
    assert!(same(&s.remove_at(0), &tasks[0]));
    assert!(s.remove_at(0).is_none());
    assert!(s.pick_next_task().is_none());
}

#[test]
fn queue_shares_the_task_with_other_holders() {
    let mut s = SimpleScheduler::new();
    let a = task(1);
    assert_eq!(Arc::strong_count(&a), 1);
    s.add_task(a.clone());
    assert_eq!(Arc::strong_count(&a), 2);
    let picked = s.pick_next_task().unwrap();
    assert_eq!(Arc::strong_count(&a), 2);
    drop(picked);
    assert_eq!(Arc::strong_count(&a), 1);
    s.add_task(a.clone());
    drop(s);
    assert_eq!(Arc::strong_count(&a), 1);
}

#[test]
fn slice_is_used_up_by_the_tick_that_finds_one_left() {
    assert!(slice_expired(1));
    assert!(!slice_expired(0));
    assert!(!slice_expired(2));
    assert!(!slice_expired(5));
    assert!(!slice_expired(255));
}

#[test]
fn fifth_tick_uses_up_the_slice() {
    let mut s = SimpleScheduler::new();
    let a = task(1);
    assert!(!s.task_tick(&a));
    assert!(!s.task_tick(&a));
    assert!(!s.task_tick(&a));
    assert!(!s.task_tick(&a));
    assert!(s.task_tick(&a));
}

#[test]
fn slice_is_not_refilled_after_it_is_used_up() {
    let mut s = SimpleScheduler::new();
    let a = task(1);
    for tick in 1..=5u32 {
        assert_eq!(s.task_tick(&a), tick == 5);
    }
    // The count goes on down from 0 round to 255; the next `true` comes
    // 256 ticks after the last.
    for tick in 6..=600u32 {
        assert_eq!(s.task_tick(&a), tick == 5 + 256 || tick == 5 + 512, "tick {}", tick);
    }
}

#[test]
fn requeueing_does_not_refill_the_slice() {
    let mut s = SimpleScheduler::new();
    let a = task(1);
    s.add_task(a.clone());
    let current = s.pick_next_task().unwrap();
    assert!(!s.task_tick(&current));
    assert!(!s.task_tick(&current));
    assert!(!s.task_tick(&current));
    s.put_prev_task(current, true);
    let current = s.pick_next_task().unwrap();
    assert!(!s.task_tick(&current));
    assert!(s.task_tick(&current));
    s.put_prev_task(current, false);
    s.add_task(a.clone());
    assert!(!s.task_tick(&a));
}

#[test]
fn each_task_has_its_own_slice() {
    let mut s = SimpleScheduler::new();
    let (a, b) = (task(1), task(2));
    for _ in 0..4 {
        assert!(!s.task_tick(&a));
    }
    for _ in 0..4 {
        assert!(!s.task_tick(&b));
    }
    assert!(s.task_tick(&a));
    assert!(s.task_tick(&b));
}

#[test]
fn tick_leaves_the_queue_alone() {
    let mut s = SimpleScheduler::new();
    let (a, b) = (task(1), task(2));
    s.add_task(a.clone());
    s.add_task(b.clone());
    for _ in 0..10 {
        s.task_tick(&a);
        s.task_tick(&b);
    }
    assert!(same(&s.pick_next_task(), &a));
    assert!(same(&s.pick_next_task(), &b));
    assert!(s.pick_next_task().is_none());
}

#[test]
fn priorities_are_not_supported() {
    let mut s = SimpleScheduler::new();
    let (a, b) = (task(1), task(2));
    s.add_task(a.clone());
    s.add_task(b.clone());
    assert!(!s.set_priority(&a, 3));
    assert!(!s.set_priority(&b, -1));
    assert!(!s.set_priority(&task(9), isize::MAX));
    assert!(!s.set_priority(&b, isize::MIN));
    assert!(same(&s.pick_next_task(), &a));
    assert!(same(&s.pick_next_task(), &b));
    assert!(s.pick_next_task().is_none());
}
