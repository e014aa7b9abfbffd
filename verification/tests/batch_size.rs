use selfplay::alpha_zero::BatchSizeManager;

fn manager_at(current: usize, max: usize) -> BatchSizeManager {
    let mut manager = BatchSizeManager::new(max, (5, 6));
    if current < max {
        manager.change_max_batch_size(current);
        manager.change_max_batch_size(max);
    }
    assert_eq!(manager.current_batch_size(), current);
    assert_eq!(manager.max_batch_size(), max);
    manager
}

#[test]
fn eighty_tasks_shrink_a_ceiling_of_hundred_to_eighty_three() {
    let mut manager = BatchSizeManager::new(100, (5, 6));
    assert_eq!(manager.current_batch_size(), 100);
    assert_eq!(manager.on_task_count_change(80), Some(83));
    assert_eq!(manager.current_batch_size(), 83);
}

#[test]
fn ceiling_follows_the_table() {
    // (current, max, tasks, new ceiling)
    let table = [
        (100, 100, 100, 100),
        (100, 100, 99, 83),
        (100, 100, 150, 100),
        (100, 100, 0, 83),
        (83, 100, 80, 69),
        (83, 100, 83, 83),
        (83, 100, 99, 83),
        (83, 100, 100, 100),
        (83, 200, 99, 83),
        (83, 200, 100, 100),
        (83, 200, 150, 150),
        (83, 200, 300, 200),
        (50, 100, 59, 50),
        (50, 100, 60, 60),
        (10, 100, 11, 10),
        (10, 100, 12, 12),
        (2, 100, 1, 1),
        (1, 100, 0, 1),
        (1, 100, 1, 1),
        (1, 100, 2, 2),
        (1, 1, 5, 1),
    ];
    for (current, max, tasks, expected) in table {
        let mut manager = manager_at(current, max);
        let changed = manager.on_task_count_change(tasks);
        assert_eq!(manager.current_batch_size(), expected, "{current} {max} {tasks}");
        assert_eq!(changed, if expected == current { None } else { Some(expected) });
        assert_eq!(manager.max_batch_size(), max);
    }
}

#[test]
fn equal_ratio_leaves_nothing_to_shrink() {
    let mut manager = BatchSizeManager::new(40, (3, 3));
    assert_eq!(manager.on_task_count_change(10), None);
    assert_eq!(manager.current_batch_size(), 40);
}

#[test]
fn huge_ceilings_do_not_overflow() {
    let mut manager = BatchSizeManager::new(usize::MAX, (usize::MAX - 1, usize::MAX));
    assert_eq!(manager.on_task_count_change(usize::MAX), None);
    assert_eq!(manager.on_task_count_change(5), Some(usize::MAX - 1));
}

#[test]
fn lower_maximum_lowers_the_ceiling() {
    let mut manager = BatchSizeManager::new(100, (5, 6));
    assert_eq!(manager.change_max_batch_size(120), None);
    assert_eq!((manager.current_batch_size(), manager.max_batch_size()), (100, 120));
    assert_eq!(manager.change_max_batch_size(100), None);
    assert_eq!(manager.change_max_batch_size(64), Some(64));
    assert_eq!((manager.current_batch_size(), manager.max_batch_size()), (64, 64));
    assert_eq!(manager.change_max_batch_size(64), None);
}
