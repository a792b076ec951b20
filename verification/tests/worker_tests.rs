use sysmon::worker::combine_outcome;
use sysmon::worker::WorkerError;
use sysmon::worker::WorkerPool;
use sysmon::worker::WorkerState;

#[test]
fn terminate_ends_the_whole_subtree() {
    let mut pool = WorkerPool::new();
    let root = pool.spawn(None);
    let child = pool.spawn(Some(root));
    let grandchild = pool.spawn(Some(child));
    let bystander = pool.spawn(None);
    pool.terminate(root);
    assert_eq!(pool.state(root), WorkerState::Ended);
    assert_eq!(pool.state(child), WorkerState::Ended);
    assert_eq!(pool.state(grandchild), WorkerState::Ended);
    assert_eq!(pool.state(bystander), WorkerState::Running);
}

#[test]
fn terminate_of_a_leaf_leaves_the_parent() {
    let mut pool = WorkerPool::new();
    let root = pool.spawn(None);
    let child = pool.spawn(Some(root));
    pool.terminate(child);
    assert_eq!(pool.state(child), WorkerState::Ended);
    assert_eq!(pool.state(root), WorkerState::Running);
}

#[test]
fn failure_cancels_parent_and_siblings() {
    let mut pool = WorkerPool::new();
    let root = pool.spawn(None);
    let a = pool.spawn(Some(root));
    let b = pool.spawn(Some(root));
    let outsider = pool.spawn(None);
    pool.fail(a);
    assert_eq!(pool.state(a), WorkerState::Ended);
    assert_eq!(pool.state(root), WorkerState::Cancelled);
    assert_eq!(pool.state(b), WorkerState::Cancelled);
    assert_eq!(pool.state(outsider), WorkerState::Running);
}

#[test]
fn failure_of_a_root_cancels_nothing_else() {
    let mut pool = WorkerPool::new();
    let a = pool.spawn(None);
    let b = pool.spawn(None);
    pool.fail(a);
    assert_eq!(pool.state(a), WorkerState::Ended);
    assert_eq!(pool.state(b), WorkerState::Running);
}

#[test]
fn tick_reports_cancellation() {
    let mut pool = WorkerPool::new();
    let root = pool.spawn(None);
    let child = pool.spawn(Some(root));
    assert!(pool.tick(child).is_ok());
    pool.terminate(root);
    assert!(pool.tick(child).is_err());
}

#[test]
fn descendant_relation_follows_parent_links() {
    let mut pool = WorkerPool::new();
    let root = pool.spawn(None);
    let child = pool.spawn(Some(root));
    let other = pool.spawn(None);
    assert!(pool.is_descendant(child, root));
    assert!(pool.is_descendant(root, root));
    assert!(!pool.is_descendant(other, root));
    assert!(!pool.is_descendant(root, child));
}

#[test]
fn detach_marks_only_the_one_worker() {
    let mut pool = WorkerPool::new();
    let a = pool.spawn(None);
    let b = pool.spawn(None);
    pool.detach(a);
    assert_eq!(pool.state(a), WorkerState::Running);
    assert_eq!(pool.state(b), WorkerState::Running);
    assert_eq!(pool.len(), 2);
}

#[test]
fn detached_child_survives_parent_teardown() {
    let mut pool = WorkerPool::new();
    let root = pool.spawn(None);
    let kept = pool.spawn(Some(root));
    let freed = pool.spawn(Some(root));
    pool.detach(freed);
    pool.terminate(root);
    assert_eq!(pool.state(root), WorkerState::Ended);
    assert_eq!(pool.state(kept), WorkerState::Ended);
    assert_eq!(pool.state(freed), WorkerState::Running);
}

#[test]
fn outcomes_compose_with_the_first_failure_winning() {
    assert!(combine_outcome(Ok(()), Ok(())).is_ok());
    let r = combine_outcome(Err(WorkerError::Cancelled), Ok(()));
    assert!(matches!(r, Err(WorkerError::Cancelled)));
    let r = combine_outcome(Ok(()), Err(WorkerError::Cancelled));
    assert!(matches!(r, Err(WorkerError::Cancelled)));
}
