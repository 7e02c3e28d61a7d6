use rsmq::engine::Engine;
use rsmq::errors::RsmqError;
use rsmq::ids::make_id;

const NOW: u64 = 1_700_000_000_000;

fn entropy(fill: u8) -> Vec<u8> {
    let mut v = Vec::new();
    let mut i = 0;
    while i < rsmq::ids::ID_RANDOM_LEN {
        v.push(fill);
        i += 1;
    }
    v
}

#[test]
fn created_queue_reads_back_its_exact_attributes() {
    let mut e = Engine::new(false);
    e.create_queue("q1", Some(30), Some(0), Some(2048), NOW).unwrap();
    let a = e.get_queue_attributes("q1", NOW + 5).unwrap();
    assert_eq!(a.hidden, 30);
    assert_eq!(a.delay, 0);
    assert_eq!(a.maxsize, 2048);
    assert_eq!(a.created, NOW);
    assert_eq!(a.modified, NOW);
    assert_eq!(a.totalsent, 0);
    assert_eq!(a.totalrecv, 0);
    assert_eq!(a.msgs, 0);
    assert_eq!(a.hiddenmsgs, 0);
}

#[test]
fn creating_a_queue_twice_fails_with_queue_already_exists() {
    let mut e = Engine::new(false);
    e.create_queue("q1", Some(30), Some(0), Some(2048), NOW).unwrap();
    let r = e.create_queue("q1", None, None, None, NOW + 1);
    assert_eq!(r, Err(RsmqError::QueueAlreadyExists));
}

#[test]
fn queue_created_with_defaults() {
    let mut e = Engine::new(false);
    e.create_queue("q", None, None, None, NOW).unwrap();
    let a = e.get_queue_attributes("q", NOW).unwrap();
    assert_eq!(a.hidden, 30);
    assert_eq!(a.delay, 0);
    assert_eq!(a.maxsize, 65_536);
}

#[test]
fn out_of_range_settings_fail_with_invalid_parameter() {
    let mut e = Engine::new(false);
    assert_eq!(
        e.create_queue("q", Some(32_401), None, None, NOW),
        Err(RsmqError::InvalidParameter)
    );
    assert_eq!(
        e.create_queue("q", None, Some(32_401), None, NOW),
        Err(RsmqError::InvalidParameter)
    );
    assert_eq!(e.create_queue("q", None, None, Some(1023), NOW), Err(RsmqError::InvalidParameter));
    assert_eq!(
        e.create_queue("q", None, None, Some(65_537), NOW),
        Err(RsmqError::InvalidParameter)
    );
    assert_eq!(e.create_queue("q", None, None, Some(0), NOW), Err(RsmqError::InvalidParameter));
    // -1 means unlimited and is accepted.
    e.create_queue("q", None, None, Some(-1), NOW).unwrap();
    assert!(e.list_queues().len() == 1);
}

#[test]
fn operations_on_a_missing_queue_fail_with_queue_not_found() {
    let mut e = Engine::new(false);
    assert_eq!(e.get_queue_attributes("nope", NOW), Err(RsmqError::QueueNotFound));
    assert_eq!(e.set_queue_attributes("nope", Some(1), None, None, NOW), Err(RsmqError::QueueNotFound));
    assert_eq!(e.delete_queue("nope"), Err(RsmqError::QueueNotFound));
    assert_eq!(
        e.send_message("nope", vec![1], None, NOW, &entropy(0)),
        Err(RsmqError::QueueNotFound)
    );
    assert!(matches!(e.receive_message("nope", None, NOW), Err(RsmqError::QueueNotFound)));
    assert!(matches!(e.pop_message("nope", NOW), Err(RsmqError::QueueNotFound)));
}

#[test]
fn list_queues_names_every_queue() {
    let mut e = Engine::new(false);
    assert_eq!(e.list_queues(), Vec::<String>::new());
    e.create_queue("a", None, None, None, NOW).unwrap();
    e.create_queue("b", None, None, None, NOW).unwrap();
    assert_eq!(e.list_queues(), vec!["a".to_string(), "b".to_string()]);
    e.delete_queue("a").unwrap();
    assert_eq!(e.list_queues(), vec!["b".to_string()]);
}

#[test]
fn deleted_queue_is_gone_with_its_messages() {
    let mut e = Engine::new(false);
    e.create_queue("q", None, None, None, NOW).unwrap();
    e.send_message("q", vec![1, 2], None, NOW, &entropy(0)).unwrap();
    e.delete_queue("q").unwrap();
    assert_eq!(e.get_queue_attributes("q", NOW), Err(RsmqError::QueueNotFound));
    // The name can be reused, and the new queue starts empty.
    e.create_queue("q", None, None, None, NOW).unwrap();
    let a = e.get_queue_attributes("q", NOW).unwrap();
    assert_eq!(a.msgs, 0);
    assert_eq!(a.totalsent, 0);
}

#[test]
fn set_queue_attributes_overwrites_only_supplied_fields() {
    let mut e = Engine::new(false);
    e.create_queue("q", Some(30), Some(0), Some(2048), NOW).unwrap();
    let a = e.set_queue_attributes("q", None, Some(60), None, NOW + 10).unwrap();
    assert_eq!(a.hidden, 30);
    assert_eq!(a.delay, 60);
    assert_eq!(a.maxsize, 2048);
    assert_eq!(a.created, NOW);
    assert_eq!(a.modified, NOW + 10);
    assert_eq!(
        e.set_queue_attributes("q", Some(40_000), None, None, NOW + 11),
        Err(RsmqError::InvalidParameter)
    );
    // The failed call changed nothing.
    let b = e.get_queue_attributes("q", NOW + 12).unwrap();
    assert_eq!(b.hidden, 30);
    assert_eq!(b.modified, NOW + 10);
}

#[test]
fn send_returns_the_deterministic_identifier() {
    let mut e = Engine::new(false);
    e.create_queue("q", None, None, None, NOW).unwrap();
    let id = e.send_message("q", vec![9], None, NOW, &entropy(7)).unwrap();
    assert_eq!(id, make_id(NOW, &entropy(7)));
    let a = e.get_queue_attributes("q", NOW).unwrap();
    assert_eq!(a.totalsent, 1);
    assert_eq!(a.msgs, 1);
    assert_eq!(a.hiddenmsgs, 0);
}

#[test]
fn oversized_payload_fails_and_creates_nothing() {
    let mut e = Engine::new(false);
    e.create_queue("q", Some(30), Some(0), Some(2048), NOW).unwrap();
    let payload = vec![0u8; 3000];
    assert_eq!(
        e.send_message("q", payload, None, NOW, &entropy(0)),
        Err(RsmqError::PayloadTooLarge)
    );
    let a = e.get_queue_attributes("q", NOW).unwrap();
    assert_eq!(a.msgs, 0);
    assert_eq!(a.totalsent, 0);
    assert!(e.receive_message("q", None, NOW).unwrap().is_none());
}

#[test]
fn unlimited_queue_takes_any_payload() {
    let mut e = Engine::new(false);
    e.create_queue("q", None, None, Some(-1), NOW).unwrap();
    e.send_message("q", vec![0u8; 100_000], None, NOW, &entropy(0)).unwrap();
    assert_eq!(e.get_queue_attributes("q", NOW).unwrap().msgs, 1);
}

#[test]
fn out_of_range_delay_or_visibility_fails_with_invalid_parameter() {
    let mut e = Engine::new(false);
    e.create_queue("q", None, None, None, NOW).unwrap();
    assert_eq!(
        e.send_message("q", vec![1], Some(32_401), NOW, &entropy(0)),
        Err(RsmqError::InvalidParameter)
    );
    assert!(matches!(e.receive_message("q", Some(32_401), NOW), Err(RsmqError::InvalidParameter)));
    assert_eq!(
        e.change_message_visibility("q", "whatever", 32_401, NOW),
        Err(RsmqError::InvalidParameter)
    );
}

#[test]
fn received_message_carries_payload_and_bookkeeping() {
    let mut e = Engine::new(false);
    e.create_queue("q", Some(30), Some(0), None, NOW).unwrap();
    e.send_message("q", vec![1, 2, 3], None, NOW, &entropy(4)).unwrap();
    let m = e.receive_message("q", None, NOW + 1).unwrap().unwrap();
    assert_eq!(m.id, make_id(NOW, &entropy(4)));
    assert_eq!(m.message, vec![1, 2, 3]);
    assert_eq!(m.sent, NOW);
    assert_eq!(m.fr, NOW + 1);
    assert_eq!(m.rc, 1);
    let a = e.get_queue_attributes("q", NOW + 1).unwrap();
    assert_eq!(a.totalrecv, 1);
    assert_eq!(a.msgs, 1);
    assert_eq!(a.hiddenmsgs, 1);
}

#[test]
fn two_receives_inside_the_window_never_share_a_message() {
    let mut e = Engine::new(false);
    e.create_queue("q", Some(30), Some(0), None, NOW).unwrap();
    let id1 = e.send_message("q", vec![1], Some(0), NOW, &entropy(1)).unwrap();
    let id2 = e.send_message("q", vec![2], Some(0), NOW, &entropy(2)).unwrap();
    let m1 = e.receive_message("q", None, NOW + 1).unwrap().unwrap();
    let m2 = e.receive_message("q", None, NOW + 2).unwrap().unwrap();
    assert_ne!(m1.id, m2.id);
    assert!(m1.id == id1 || m1.id == id2);
    assert!(m2.id == id1 || m2.id == id2);
    // Both are now hidden: nothing is eligible.
    assert!(e.receive_message("q", None, NOW + 3).unwrap().is_none());
}

#[test]
fn eligibility_prefers_smaller_score_then_identifier_order() {
    let mut e = Engine::new(false);
    e.create_queue("q", None, Some(0), None, NOW).unwrap();
    // Same eligibility instant: the smaller identifier wins; entropy 1
    // yields a lexicographically smaller suffix than entropy 2.
    let id_small = e.send_message("q", vec![1], Some(0), NOW, &entropy(1)).unwrap();
    let id_big = e.send_message("q", vec![2], Some(0), NOW, &entropy(2)).unwrap();
    assert!(rsmq::ids::str_lt(&id_small, &id_big));
    let m = e.receive_message("q", None, NOW).unwrap().unwrap();
    assert_eq!(m.id, id_small);
    // An earlier-eligible message beats a smaller identifier.
    let mut e2 = Engine::new(false);
    e2.create_queue("q", None, Some(0), None, NOW).unwrap();
    let early = e2.send_message("q", vec![1], Some(0), NOW, &entropy(3)).unwrap();
    let late = e2.send_message("q", vec![2], Some(2), NOW, &entropy(1)).unwrap();
    assert!(rsmq::ids::str_lt(&late, &early));
    let m2 = e2.receive_message("q", None, NOW + 3000).unwrap().unwrap();
    assert_eq!(m2.id, early);
}

#[test]
fn delayed_message_is_invisible_until_its_delay_passes() {
    let mut e = Engine::new(false);
    e.create_queue("q", None, None, None, NOW).unwrap();
    e.send_message("q", vec![1], Some(2), NOW, &entropy(0)).unwrap();
    assert!(e.receive_message("q", None, NOW + 1999).unwrap().is_none());
    let m = e.receive_message("q", None, NOW + 2000).unwrap();
    assert!(m.is_some());
}

#[test]
fn expired_visibility_redelivers_the_same_message() {
    let mut e = Engine::new(false);
    e.create_queue("q", Some(30), Some(0), None, NOW).unwrap();
    e.send_message("q", vec![8], None, NOW, &entropy(0)).unwrap();
    let m1 = e.receive_message("q", Some(1), NOW + 10).unwrap().unwrap();
    // Inside the one-second window nothing is eligible.
    assert!(e.receive_message("q", None, NOW + 1000).unwrap().is_none());
    // Past it, the same message comes back, counted once more, with the
    // first-delivery stamp unchanged.
    let m2 = e.receive_message("q", None, NOW + 1011).unwrap().unwrap();
    assert_eq!(m2.id, m1.id);
    assert_eq!(m2.rc, m1.rc + 1);
    assert_eq!(m2.rc, 2);
    assert_eq!(m2.fr, m1.fr);
    assert_eq!(m2.fr, NOW + 10);
}

#[test]
fn send_then_delete_then_delete_again() {
    let mut e = Engine::new(false);
    e.create_queue("q", None, None, None, NOW).unwrap();
    let id = e.send_message("q", vec![1], None, NOW, &entropy(0)).unwrap();
    assert!(e.delete_message("q", &id));
    assert!(!e.delete_message("q", &id));
    assert!(e.receive_message("q", None, NOW + 1).unwrap().is_none());
    // Deleting in an unknown queue is a normal miss, not an error.
    assert!(!e.delete_message("other", &id));
}

#[test]
fn pop_on_an_empty_queue_is_an_untouched_no_op() {
    let mut e = Engine::new(false);
    e.create_queue("q", Some(30), Some(0), Some(2048), NOW).unwrap();
    assert!(e.pop_message("q", NOW).unwrap().is_none());
    let a = e.get_queue_attributes("q", NOW).unwrap();
    assert_eq!(a.totalsent, 0);
    assert_eq!(a.totalrecv, 0);
    assert_eq!(a.msgs, 0);
}

#[test]
fn pop_delivers_and_removes_in_one_step() {
    let mut e = Engine::new(false);
    e.create_queue("q", None, None, None, NOW).unwrap();
    let id = e.send_message("q", vec![5, 6], None, NOW, &entropy(0)).unwrap();
    let m = e.pop_message("q", NOW + 1).unwrap().unwrap();
    assert_eq!(m.id, id);
    assert_eq!(m.message, vec![5, 6]);
    assert_eq!(m.rc, 1);
    assert_eq!(m.fr, NOW + 1);
    let a = e.get_queue_attributes("q", NOW + 1).unwrap();
    assert_eq!(a.msgs, 0);
    assert_eq!(a.totalrecv, 1);
    assert!(e.pop_message("q", NOW + 2).unwrap().is_none());
    assert!(!e.delete_message("q", &id));
}

#[test]
fn change_visibility_of_a_missing_message_fails_with_message_not_found() {
    let mut e = Engine::new(false);
    e.create_queue("q", None, None, None, NOW).unwrap();
    assert_eq!(e.change_message_visibility("q", "no-such-id", 5, NOW), Err(RsmqError::MessageNotFound));
    // An unknown queue has no index either.
    assert_eq!(e.change_message_visibility("p", "no-such-id", 5, NOW), Err(RsmqError::MessageNotFound));
}

#[test]
fn change_visibility_moves_eligibility_to_now_plus_hidden() {
    let mut e = Engine::new(false);
    e.create_queue("q", None, None, None, NOW).unwrap();
    let id = e.send_message("q", vec![1], Some(10), NOW, &entropy(0)).unwrap();
    // Originally eligible at NOW + 10_000; pull it to NOW + 5_000.
    e.change_message_visibility("q", &id, 5, NOW).unwrap();
    assert!(e.receive_message("q", None, NOW + 4_999).unwrap().is_none());
    let m = e.receive_message("q", None, NOW + 5_000).unwrap().unwrap();
    assert_eq!(m.id, id);
    // Push it out again: strictly in the future by the requested window.
    e.change_message_visibility("q", &id, 7, NOW + 5_000).unwrap();
    assert!(e.receive_message("q", None, NOW + 11_999).unwrap().is_none());
    assert!(e.receive_message("q", None, NOW + 12_000).unwrap().is_some());
}

#[test]
fn realtime_flag_is_carried() {
    let e = Engine::new(true);
    assert!(e.realtime());
    let e2 = Engine::new(false);
    assert!(!e2.realtime());
}
