use batch_convert::dispatch::{Dispatcher, PermitPool, DEFAULT_PERMITS};
use batch_convert::plan::{Batch, FileKind, WorkItem};

fn batch(group: usize, files: usize) -> Batch {
    let items = (0..files)
        .map(|n| WorkItem {
            group,
            source: format!("in/{}/{}", group, n),
            dest: format!("out/{}/{}", group, n),
            kind: FileKind::Copy,
        })
        .collect();
    Batch { group, output_dir: format!("out/{}", group), items }
}

#[test]
fn ten_files_of_a_group_at_once_by_default() {
    assert_eq!(DEFAULT_PERMITS, 10);
}

#[test]
fn a_pool_grants_no_more_than_it_has() {
    let mut pool = PermitPool::new(2);
    assert_eq!(pool.capacity(), 2);
    assert_eq!(pool.available(), 2);
    assert!(pool.try_acquire());
    assert!(pool.try_acquire());
    assert!(!pool.try_acquire());
    assert_eq!(pool.held(), 2);
    assert_eq!(pool.available(), 0);
}

#[test]
fn a_released_permit_can_be_taken_again() {
    let mut pool = PermitPool::new(1);
    assert!(pool.try_acquire());
    assert!(!pool.try_acquire());
    assert!(pool.release());
    assert_eq!(pool.held(), 0);
    assert!(pool.try_acquire());
}

#[test]
fn an_idle_pool_has_nothing_to_release() {
    let mut pool = PermitPool::new(3);
    assert!(!pool.release());
    assert_eq!(pool.held(), 0);
    assert_eq!(pool.available(), 3);
}

#[test]
fn a_pool_without_permits_grants_none() {
    let mut pool = PermitPool::new(0);
    assert!(!pool.try_acquire());
    assert_eq!(pool.held(), 0);
}

#[test]
fn items_start_in_the_order_of_the_files() {
    let mut d = Dispatcher::new(vec![batch(0, 3)], 10);
    let mut started = Vec::new();
    while let Some(item) = d.start_next() {
        started.push(item.source);
    }
    assert_eq!(started, vec!["in/0/0", "in/0/1", "in/0/2"]);
    assert_eq!(d.in_flight(0), 3);
}

#[test]
fn no_group_has_more_in_flight_than_permits() {
    let mut d = Dispatcher::new(vec![batch(0, 5), batch(1, 1), batch(2, 4)], 2);
    let mut started = Vec::new();
    while let Some(item) = d.start_next() {
        started.push(item.source);
    }
    assert_eq!(started, vec!["in/0/0", "in/0/1", "in/1/0", "in/2/0", "in/2/1"]);
    assert_eq!(d.in_flight(0), 2);
    assert_eq!(d.in_flight(1), 1);
    assert_eq!(d.in_flight(2), 2);
    assert!(d.start_next().is_none());
}

#[test]
fn a_finished_item_makes_room_for_the_next() {
    let mut d = Dispatcher::new(vec![batch(0, 3), batch(1, 2)], 1);
    assert_eq!(d.start_next().unwrap().source, "in/0/0");
    assert_eq!(d.start_next().unwrap().source, "in/1/0");
    assert!(d.start_next().is_none());
    assert!(d.finish(1));
    assert_eq!(d.in_flight(1), 0);
    assert_eq!(d.start_next().unwrap().source, "in/1/1");
    assert!(d.start_next().is_none());
    assert!(d.finish(0));
    assert_eq!(d.start_next().unwrap().source, "in/0/1");
    assert!(d.finish(0));
    assert!(d.finish(1));
    assert_eq!(d.start_next().unwrap().source, "in/0/2");
    assert!(d.start_next().is_none());
    assert!(d.finish(0));
    assert!(d.start_next().is_none());
    assert_eq!(d.in_flight(0), 0);
    assert_eq!(d.in_flight(1), 0);
}

#[test]
fn the_bound_holds_through_a_whole_run() {
    let capacity = 3;
    let mut d = Dispatcher::new(vec![batch(0, 8), batch(1, 5)], capacity);
    let mut running: Vec<usize> = Vec::new();
    let mut started = 0;
    loop {
        while let Some(item) = d.start_next() {
            running.push(item.group);
            started += 1;
        }
        for lane in 0..d.len() {
            assert!(d.in_flight(lane) <= capacity);
        }
        match running.pop() {
            Some(group) => assert!(d.finish(group)),
            None => break,
        }
    }
    assert_eq!(started, 13);
}

#[test]
fn finishing_without_anything_in_flight_changes_nothing() {
    let mut d = Dispatcher::new(vec![batch(0, 2)], 2);
    assert!(!d.finish(0));
    assert!(!d.finish(9));
    assert_eq!(d.in_flight(0), 0);
    assert_eq!(d.start_next().unwrap().source, "in/0/0");
}

#[test]
fn a_group_without_files_starts_nothing() {
    let mut d = Dispatcher::new(vec![batch(0, 0), batch(1, 1)], 4);
    assert_eq!(d.len(), 2);
    assert_eq!(d.start_next().unwrap().group, 1);
    assert!(d.start_next().is_none());
    assert_eq!(d.in_flight(0), 0);
}

#[test]
fn without_permits_nothing_starts() {
    let mut d = Dispatcher::new(vec![batch(0, 2)], 0);
    assert!(d.start_next().is_none());
}

#[test]
fn a_copy_of_an_item_is_the_item() {
    let item = WorkItem {
        group: 5,
        source: "in/a.HEIC".to_string(),
        dest: "out/a.PNG".to_string(),
        kind: FileKind::Convert,
    };
    let copy = item.duplicate();
    assert_eq!(copy.group, 5);
    assert_eq!(copy.source, "in/a.HEIC");
    assert_eq!(copy.dest, "out/a.PNG");
    assert_eq!(copy.kind, FileKind::Convert);
}
