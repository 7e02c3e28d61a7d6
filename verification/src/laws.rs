//! Delivery laws of the engine.
//!
//! Each proof function here states a guarantee that spans more than one
//! operation, over the same transition predicates the operations' own
//! contracts use, and Verus proves it from those contracts alone.

use vstd::prelude::*;

use crate::assoc::{
    find_key, has_key, lemma_distinct_push, lemma_distinct_update, lemma_distinct_upsert,
    lemma_find_key_distinct, lemma_find_key_props, lemma_remove_key_gone,
};
use crate::engine::{
    change_visibility_ok, count_hidden, create_ok, delete_message_rel, next_eligible, queue_wf,
    receive_ok, send_ok, spec_attributes, view_wf, lemma_next_eligible_props,
};
use crate::types::{
    bump, eff_i64, eff_u64, valid_now, MessageView, MsgView, QueueAttributes, DEFAULT_DELAY_SECS,
    DEFAULT_HIDDEN_SECS, DEFAULT_MAXSIZE,
};

verus! {

/// A delivered message is one of the queue's pending eligible messages,
/// and no second delivery from the same queue can hand out the same
/// message while the first delivery's visibility window is still open:
/// two consecutive successful receives inside the window return distinct
/// identifiers.
pub proof fn lemma_receive_exclusive(
    pre: crate::engine::EngineView,
    mid: crate::engine::EngineView,
    post: crate::engine::EngineView,
    qname: Seq<char>,
    h1: Option<u64>,
    h2: Option<u64>,
    now1: u64,
    now2: u64,
    m1: MessageView,
    m2: MessageView,
)
    requires
        view_wf(pre),
        valid_now(now1),
        receive_ok(pre, mid, qname, h1, now1, Option::Some(m1)),
        now2 < now1 + eff_u64(h1, pre.queues[find_key(pre.queues, qname)].1.config.hidden) * 1000,
        receive_ok(mid, post, qname, h2, now2, Option::Some(m2)),
    ensures
        m2.id != m1.id,
        ({
            let q = pre.queues[find_key(pre.queues, qname)].1;
            exists|i: int|
                0 <= i < q.msgs.len() && (#[trigger] q.msgs[i]).0 == m1.id && q.msgs[i].1.score
                    <= now1
        }),
{
    let qi = find_key(pre.queues, qname);
    lemma_find_key_props(pre.queues, qname);
    assert(queue_wf(pre.queues[qi].1));
    let q = pre.queues[qi].1;
    let ci1 = next_eligible(q.msgs, now1);
    lemma_next_eligible_props(q.msgs, now1);
    assert(q.msgs[ci1].0 == m1.id && q.msgs[ci1].1.score <= now1);
    lemma_distinct_update(pre.queues, qi, (qname, mid.queues[qi].1));
    lemma_find_key_distinct(mid.queues, qname, qi);
    let qmid = mid.queues[qi].1;
    lemma_distinct_update(q.msgs, ci1, (m1.id, qmid.msgs[ci1].1));
    let ci2 = next_eligible(qmid.msgs, now2);
    lemma_next_eligible_props(qmid.msgs, now2);
    assert(qmid.msgs[ci1].1.score == now1 + eff_u64(h1, q.config.hidden) * 1000);
    assert(qmid.msgs[ci2].1.score <= now2);
    assert(ci2 != ci1);
    assert(m2.id == qmid.msgs[ci2].0);
    assert(qmid.msgs[ci1].0 != qmid.msgs[ci2].0);
    assert(qmid.msgs[ci1].0 == m1.id);
}

/// Acknowledgment is exact: after a send, the first delete of the
/// returned identifier reports it present and removes it; a second
/// delete of the same identifier reports it absent and changes nothing.
pub proof fn lemma_send_delete_delete(
    pre: crate::engine::EngineView,
    s1: crate::engine::EngineView,
    s2: crate::engine::EngineView,
    s3: crate::engine::EngineView,
    qname: Seq<char>,
    payload: Seq<u8>,
    delay: Option<u64>,
    now: u64,
    entropy: Seq<u8>,
    id: Seq<char>,
    found1: bool,
    found2: bool,
)
    requires
        view_wf(pre),
        send_ok(pre, s1, qname, payload, delay, now, entropy, id),
        delete_message_rel(s1, s2, qname, id, found1),
        delete_message_rel(s2, s3, qname, id, found2),
    ensures
        found1,
        !found2,
        s3 == s2,
{
    let qi = find_key(pre.queues, qname);
    lemma_find_key_props(pre.queues, qname);
    assert(queue_wf(pre.queues[qi].1));
    let q = pre.queues[qi].1;
    let rec = (MsgView {
        payload: payload,
        sent: now,
        fr: Option::None,
        rc: 0,
        score: (now + eff_u64(delay, q.config.delay) * 1000) as u64,
    });
    lemma_distinct_upsert(q.msgs, id, rec);
    lemma_distinct_update(pre.queues, qi, (qname, s1.queues[qi].1));
    lemma_find_key_distinct(s1.queues, qname, qi);
    let q1 = s1.queues[qi].1;
    let mi = find_key(q1.msgs, id);
    assert(mi >= 0);
    assert(found1);
    lemma_remove_key_gone(q1.msgs, id);
    lemma_distinct_update(s1.queues, qi, (qname, s2.queues[qi].1));
    lemma_find_key_distinct(s2.queues, qname, qi);
    assert(find_key(s2.queues[qi].1.msgs, id) == -1) by {
        lemma_find_key_props(s2.queues[qi].1.msgs, id);
    }
}

/// A message whose visibility window has expired is delivered again as
/// the same message: from a queue holding exactly one message, a second
/// successful receive after the window returns the same identifier, the
/// delivery count moved up by one, and the first-delivery timestamp
/// unchanged; and once the window has expired the message is indeed
/// eligible again.
pub proof fn lemma_redelivery_after_expiry(
    pre: crate::engine::EngineView,
    mid: crate::engine::EngineView,
    post: crate::engine::EngineView,
    qname: Seq<char>,
    h1: Option<u64>,
    h2: Option<u64>,
    now1: u64,
    now2: u64,
    m1: MessageView,
    m2: MessageView,
)
    requires
        view_wf(pre),
        valid_now(now1),
        pre.queues[find_key(pre.queues, qname)].1.msgs.len() == 1,
        receive_ok(pre, mid, qname, h1, now1, Option::Some(m1)),
        now2 >= now1 + eff_u64(h1, pre.queues[find_key(pre.queues, qname)].1.config.hidden)
            * 1000,
        receive_ok(mid, post, qname, h2, now2, Option::Some(m2)),
    ensures
        m2.id == m1.id,
        m2.rc == bump(m1.rc),
        m2.fr == m1.fr,
        next_eligible(mid.queues[find_key(mid.queues, qname)].1.msgs, now2) == 0,
{
    let qi = find_key(pre.queues, qname);
    lemma_find_key_props(pre.queues, qname);
    assert(queue_wf(pre.queues[qi].1));
    let q = pre.queues[qi].1;
    let ci1 = next_eligible(q.msgs, now1);
    lemma_next_eligible_props(q.msgs, now1);
    assert(ci1 == 0);
    lemma_distinct_update(pre.queues, qi, (qname, mid.queues[qi].1));
    lemma_find_key_distinct(mid.queues, qname, qi);
    let qmid = mid.queues[qi].1;
    assert(qmid.msgs.len() == 1);
    assert(qmid.msgs[0].1.score == now1 + eff_u64(h1, q.config.hidden) * 1000);
    assert(qmid.msgs[0].1.score <= now2);
    assert(qmid.msgs.drop_last() =~= Seq::<(Seq<char>, MsgView)>::empty());
    assert(next_eligible(Seq::<(Seq<char>, MsgView)>::empty(), now2) == -1);
    assert(next_eligible(qmid.msgs, now2) == 0);
    let ci2 = next_eligible(qmid.msgs, now2);
    assert(m2.id == qmid.msgs[ci2].0);
    assert(qmid.msgs[0].0 == m1.id);
}

/// A queue comes into being exactly as asked: after a successful create,
/// the queue exists — so a second create of the same name must fail with
/// `QueueAlreadyExists` — and its attributes read back, at any later
/// clock, as the requested or default settings, the creation stamp, and
/// counters and message counts all zero.
pub proof fn lemma_create_then_get(
    pre: crate::engine::EngineView,
    post: crate::engine::EngineView,
    qname: Seq<char>,
    hidden: Option<u64>,
    delay: Option<u64>,
    maxsize: Option<i64>,
    now: u64,
    later: u64,
)
    requires
        view_wf(pre),
        create_ok(pre, post, qname, hidden, delay, maxsize, now),
    ensures
        has_key(post.queues, qname),
        spec_attributes(post.queues[find_key(post.queues, qname)].1, later)
            == (QueueAttributes {
            hidden: eff_u64(hidden, DEFAULT_HIDDEN_SECS),
            delay: eff_u64(delay, DEFAULT_DELAY_SECS),
            maxsize: eff_i64(maxsize, DEFAULT_MAXSIZE),
            created: now,
            modified: now,
            totalsent: 0,
            totalrecv: 0,
            msgs: 0,
            hiddenmsgs: 0,
        }),
{
    lemma_find_key_props(pre.queues, qname);
    lemma_distinct_push(pre.queues, post.queues.last());
    lemma_find_key_distinct(post.queues, qname, pre.queues.len() as int);
    let q = post.queues[find_key(post.queues, qname)].1;
    assert(q.msgs.len() == 0);
    assert(count_hidden(q.msgs, later) == 0);
}

/// Changing visibility moves exactly the eligibility time: the record
/// keeps its payload, timestamps and delivery count, its new eligibility
/// is the clock plus the requested window, and a positive window puts it
/// strictly in the future.
pub proof fn lemma_change_visibility_effect(
    pre: crate::engine::EngineView,
    post: crate::engine::EngineView,
    qname: Seq<char>,
    id: Seq<char>,
    hidden: u64,
    now: u64,
)
    requires
        view_wf(pre),
        valid_now(now),
        change_visibility_ok(pre, post, qname, id, hidden, now),
    ensures
        ({
            let q = pre.queues[find_key(pre.queues, qname)].1;
            let entry = q.msgs[find_key(q.msgs, id)];
            let qpost = post.queues[find_key(post.queues, qname)].1;
            let epost = qpost.msgs[find_key(qpost.msgs, id)];
            &&& has_key(post.queues, qname)
            &&& has_key(qpost.msgs, id)
            &&& epost.1.score == now + hidden * 1000
            &&& (hidden > 0 ==> epost.1.score > now)
            &&& epost.1.payload == entry.1.payload
            &&& epost.1.sent == entry.1.sent
            &&& epost.1.fr == entry.1.fr
            &&& epost.1.rc == entry.1.rc
        }),
{
    let qi = find_key(pre.queues, qname);
    lemma_find_key_props(pre.queues, qname);
    assert(queue_wf(pre.queues[qi].1));
    let q = pre.queues[qi].1;
    let mi = find_key(q.msgs, id);
    lemma_find_key_props(q.msgs, id);
    lemma_distinct_update(pre.queues, qi, (qname, post.queues[qi].1));
    lemma_find_key_distinct(post.queues, qname, qi);
    let qpost = post.queues[qi].1;
    lemma_distinct_update(q.msgs, mi, (id, qpost.msgs[mi].1));
    lemma_find_key_distinct(qpost.msgs, id, mi);
}

} // verus!
