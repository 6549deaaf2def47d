use plinth::queue::{Graphics, Recording, SubmissionId};

type Queue = Graphics<&'static str, u32, u64>;

#[test]
fn new_queue_tags_the_first_submission_one() {
    let queue = Queue::new();
    assert_eq!(queue.next_id(), SubmissionId(1));
    assert_eq!(queue.last_completed(), SubmissionId(0));
    assert_eq!(queue.pending(), 0);
    assert_eq!(queue.outstanding(), 0);
}

#[test]
fn submissions_get_increasing_ids() {
    let mut queue = Queue::new();
    let plan = queue.record(0);
    assert!(plan.recycled.is_none());
    assert!(plan.commands.is_none());
    assert_eq!(queue.submit(Recording::new("list a", 1), 10), SubmissionId(1));
    assert_eq!(queue.submit(Recording::new("list b", 2), 20), SubmissionId(2));
    assert_eq!(queue.next_id(), SubmissionId(3));
    assert_eq!(queue.pending(), 2);
    assert_eq!(queue.outstanding(), 2);
    assert!(SubmissionId(1) < SubmissionId(2));
}

#[test]
fn fence_is_read_only_for_newer_ids() {
    let mut queue = Queue::new();
    queue.submit(Recording::new("a", 1), 0);
    queue.submit(Recording::new("b", 2), 0);
    assert!(queue.needs_poll(SubmissionId(1)));
    assert!(!queue.is_complete(SubmissionId(1), 0));
    assert!(queue.is_complete(SubmissionId(1), 1));
    assert_eq!(queue.last_completed(), SubmissionId(1));
    // known to be reached: the value that is passed in is not looked at
    assert!(!queue.needs_poll(SubmissionId(1)));
    assert!(queue.is_complete(SubmissionId(1), 7));
    assert_eq!(queue.last_completed(), SubmissionId(1));
    // the cached value never goes back
    assert_eq!(queue.poll_fence(0), SubmissionId(1));
    assert_eq!(queue.poll_fence(2), SubmissionId(2));
    assert_eq!(queue.outstanding(), 0);
    assert_eq!(queue.pending(), 2);
}

#[test]
fn record_hands_back_the_oldest_complete_submission() {
    let mut queue = Queue::new();
    let mut first = Recording::new("list", 11);
    assert_eq!(first.deferred(), 0);
    first.defer(100);
    assert_eq!(first.deferred(), 1);
    first.defer(200);
    assert_eq!(first.deferred(), 2);
    queue.submit(first, 1000);
    queue.submit(Recording::new("other", 22), 2000);

    // nothing is complete: a new allocator is needed, the command buffers are used again
    let plan = queue.record(0);
    assert!(plan.recycled.is_none());
    assert_eq!(plan.commands, Some("other"));
    assert_eq!(queue.pending(), 2);

    let plan = queue.record(1);
    let recycled = plan.recycled.unwrap();
    assert_eq!(recycled.allocator, 11);
    assert_eq!(recycled.data, 1000);
    assert_eq!(recycled.released, vec![100, 200]);
    assert_eq!(plan.commands, Some("list"));
    assert_eq!(queue.pending(), 1);

    // the list that is handed back is empty and can be used again
    let mut again = Recording {
        commands: "list",
        barriers: recycled.barriers,
        allocator: recycled.allocator,
    };
    assert_eq!(again.deferred(), 0);
    again.defer(300);
    assert_eq!(again.deferred(), 1);
    assert_eq!(queue.submit(again, 3000), SubmissionId(3));

    // one submission is handed back at a time, the oldest first
    let plan = queue.record(3);
    assert_eq!(plan.recycled.unwrap().data, 2000);
    let plan = queue.record(3);
    let recycled = plan.recycled.unwrap();
    assert_eq!((recycled.allocator, recycled.data), (11, 3000));
    assert_eq!(recycled.released, vec![300]);
    assert!(queue.record(3).recycled.is_none());
}

#[test]
fn wait_until_blocks_only_for_what_is_not_reached() {
    let mut queue = Queue::new();
    queue.submit(Recording::new("a", 1), 0);
    queue.submit(Recording::new("b", 2), 0);
    assert!(!queue.wait_until(SubmissionId(1), 1));
    assert_eq!(queue.last_completed(), SubmissionId(1));
    assert!(queue.wait_until(SubmissionId(2), 1));
    assert_eq!(queue.last_completed(), SubmissionId(2));
    assert!(!queue.wait_until(SubmissionId(2), 0));
}

#[test]
fn flush_leaves_nothing_outstanding() {
    let mut queue = Queue::new();
    queue.submit(Recording::new("a", 1), 0);
    queue.submit(Recording::new("b", 2), 0);
    assert_eq!(queue.outstanding(), 2);
    let (id, block) = queue.flush(1);
    assert_eq!(id, SubmissionId(3));
    assert!(block);
    assert_eq!(queue.outstanding(), 0);
    assert_eq!(queue.next_id(), SubmissionId(4));
    assert_eq!(queue.last_completed(), SubmissionId(3));
    // a fence that is ahead already does not block
    let (id, block) = queue.flush(9);
    assert_eq!((id, block), (SubmissionId(4), false));
    assert_eq!(queue.last_completed(), SubmissionId(9));
}

#[test]
fn release_hands_back_all_complete_submissions() {
    let mut queue = Queue::new();
    let mut a = Recording::new("a", 1);
    a.defer(5);
    queue.submit(a, 10);
    queue.submit(Recording::new("b", 2), 20);
    queue.submit(Recording::new("c", 3), 30);
    let released = queue.release_completed_submissions(2);
    assert_eq!(released.len(), 2);
    assert_eq!((released[0].allocator, released[0].data), (1, 10));
    assert_eq!(released[0].released, vec![5]);
    assert_eq!((released[1].allocator, released[1].data), (2, 20));
    assert!(released[1].released.is_empty());
    assert_eq!(queue.pending(), 1);
    assert_eq!(queue.outstanding(), 1);
    assert_eq!(queue.last_completed(), SubmissionId(2));
    assert!(queue.release_completed_submissions(2).is_empty());
    assert_eq!(queue.release_completed_submissions(3).len(), 1);
    assert_eq!(queue.pending(), 0);
    // with nothing queued the fence is not looked at
    assert!(queue.release_completed_submissions(99).is_empty());
    assert_eq!(queue.last_completed(), SubmissionId(3));
}
