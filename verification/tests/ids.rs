use rsmq::ids::{make_id, str_lt, ID_RANDOM_LEN, ID_TIME_LEN};
use rsmq::scripts::{script_step, ScriptAction, ScriptEvent};

fn entropy(fill: u8) -> Vec<u8> {
    let mut v = Vec::new();
    let mut i = 0;
    while i < ID_RANDOM_LEN {
        v.push(fill);
        i += 1;
    }
    v
}

#[test]
fn id_of_zero_time_and_zero_entropy_is_all_zero_digits() {
    let id = make_id(0, &entropy(0));
    assert_eq!(id, "00000000000000000000000000000000");
    assert_eq!(id.len(), ID_TIME_LEN + ID_RANDOM_LEN);
}

#[test]
fn id_prefix_encodes_time_in_base36() {
    // 35 is the last single digit, 'z'; 36 rolls over to "10".
    let id35 = make_id(35, &entropy(0));
    assert_eq!(&id35[..10], "000000000z");
    let id36 = make_id(36, &entropy(0));
    assert_eq!(&id36[..10], "0000000010");
    // 1_506_103_928_342 ms is "j7w7e4nq" in base 36.
    let id = make_id(1_506_103_928_342, &entropy(0));
    assert_eq!(&id[..10], "00j7w7e4nq");
}

#[test]
fn id_suffix_maps_entropy_bytes_to_alphabet() {
    // 10 -> 'a', 35 -> 'z', 36 wraps to '0', 255 % 36 == 3 -> '3'.
    let id = make_id(0, &vec![10, 35, 36, 255]);
    assert_eq!(id, "0000000000az03");
}

#[test]
fn ids_of_later_milliseconds_sort_after_earlier_ones() {
    let a = make_id(1_000, &entropy(35));
    let b = make_id(2_000, &entropy(0));
    assert!(a < b);
    assert!(str_lt(&a, &b));
    assert!(!str_lt(&b, &a));
}

#[test]
fn ids_on_one_millisecond_differ_by_entropy() {
    let a = make_id(77, &entropy(1));
    let b = make_id(77, &entropy(2));
    assert_ne!(a, b);
    assert_eq!(&a[..10], &b[..10]);
}

#[test]
fn str_lt_is_code_point_lexicographic() {
    assert!(str_lt("abc", "abd"));
    assert!(str_lt("ab", "abc"));
    assert!(!str_lt("abc", "abc"));
    assert!(!str_lt("b", "abc"));
    assert!(str_lt("", "a"));
    assert!(!str_lt("", ""));
}

#[test]
fn script_cache_miss_is_retried_exactly_once() {
    assert_eq!(script_step(ScriptEvent::Completed, false), ScriptAction::Deliver);
    assert_eq!(script_step(ScriptEvent::Completed, true), ScriptAction::Deliver);
    assert_eq!(script_step(ScriptEvent::NotCached, false), ScriptAction::Reregister);
    assert_eq!(script_step(ScriptEvent::NotCached, true), ScriptAction::Surface);
    assert_eq!(script_step(ScriptEvent::Failed, false), ScriptAction::Surface);
    assert_eq!(script_step(ScriptEvent::Failed, true), ScriptAction::Surface);
}

#[test]
fn key_layout_matches_the_shared_store_convention() {
    assert_eq!(rsmq::keys::index_key("rsmq", "q1"), "rsmq:q1");
    assert_eq!(rsmq::keys::attributes_key("rsmq", "q1"), "rsmq:q1:Q");
    assert_eq!(rsmq::keys::message_key("rsmq", "q1", "abc"), "rsmq:q1:Q:abc");
    assert_eq!(rsmq::keys::queue_set_key("rsmq"), "rsmq:QUEUES");
    assert_eq!(rsmq::keys::realtime_channel("rsmq", "q1"), "rsmq:rt:q1");
}
