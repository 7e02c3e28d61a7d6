//! The queue protocol engine.
//!
//! An [`Engine`] value is the state one namespace of queues goes through:
//! for every queue its configuration and counters, and its pending-message
//! index ordered by eligibility time. Every operation of the public
//! surface — queue registry and message lifecycle — is a verified function
//! here, with a contract that pins the outcome and the whole next state
//! for every input. A binding that keeps this state in a shared store must
//! run each operation as one atomic unit against the store's clock; the
//! contracts here are what such a unit must do.

use vstd::prelude::*;

use crate::assoc::{
    distinct_keys, find_by_key, find_key, has_key, lemma_distinct_push, lemma_distinct_remove,
    lemma_distinct_update, lemma_distinct_upsert, lemma_find_key_props, lemma_map_pairs_push,
    lemma_map_pairs_remove, lemma_remove_insert_is_update, map_pairs, upsert,
};
use crate::errors::RsmqError;
use crate::ids::{id_of, lex_lt, make_id, str_lt, ID_RANDOM_LEN};
use crate::types::{
    bump, bump_counter, config_valid, eff_i64, eff_u64, valid_delay_opt, valid_hidden,
    valid_hidden_opt, valid_maxsize_opt, valid_now, Message, MessageView, MsgRecord, MsgView,
    QueueAttributes, QueueConfig, DEFAULT_DELAY_SECS, DEFAULT_HIDDEN_SECS, DEFAULT_MAXSIZE,
    MAX_DELAY_SECS, MAX_HIDDEN_SECS, MAX_MAXSIZE, MIN_MAXSIZE, UNLIMITED_MAXSIZE,
};

verus! {

/// One queue: its configuration and its pending-message index.
pub struct Queue {
    pub config: QueueConfig,
    /// The pending messages, keyed by identifier. A message sits here
    /// exactly as long as it has been sent and neither deleted nor popped.
    pub msgs: Vec<(String, MsgRecord)>,
}

/// Mathematical image of a [`Queue`].
pub struct QueueView {
    pub config: QueueConfig,
    pub msgs: Seq<(Seq<char>, MsgView)>,
}

impl View for Queue {
    type V = QueueView;

    open spec fn view(&self) -> QueueView {
        QueueView { config: self.config, msgs: map_pairs(self.msgs@) }
    }
}

/// A queue is well formed when its configuration is in range and no
/// message identifier occurs twice in its index.
pub open spec fn queue_wf(q: QueueView) -> bool {
    config_valid(q.config) && distinct_keys(q.msgs)
}

/// One namespace of queues.
pub struct Engine {
    /// Whether a successful send should additionally signal a
    /// notification channel. The engine only carries the flag; signalling
    /// is a store-binding concern.
    pub realtime: bool,
    pub queues: Vec<(String, Queue)>,
}

/// Mathematical image of an [`Engine`].
pub struct EngineView {
    pub realtime: bool,
    pub queues: Seq<(Seq<char>, QueueView)>,
}

impl View for Engine {
    type V = EngineView;

    open spec fn view(&self) -> EngineView {
        EngineView { realtime: self.realtime, queues: map_pairs(self.queues@) }
    }
}

/// How many indexed messages are still hidden at `now`: their eligibility
/// time lies strictly in the future.
pub open spec fn count_hidden(msgs: Seq<(Seq<char>, MsgView)>, now: u64) -> int
    decreases msgs.len(),
{
    if msgs.len() == 0 {
        0
    } else {
        count_hidden(msgs.drop_last(), now) + if msgs.last().1.score > now {
            1int
        } else {
            0int
        }
    }
}

pub proof fn lemma_count_hidden_bound(msgs: Seq<(Seq<char>, MsgView)>, now: u64)
    ensures
        0 <= count_hidden(msgs, now) <= msgs.len(),
    decreases msgs.len(),
{
    if msgs.len() > 0 {
        lemma_count_hidden_bound(msgs.drop_last(), now);
    }
}

/// The attribute snapshot a queue yields at `now`.
pub open spec fn spec_attributes(q: QueueView, now: u64) -> QueueAttributes {
    QueueAttributes {
        hidden: q.config.hidden,
        delay: q.config.delay,
        maxsize: q.config.maxsize,
        created: q.config.created,
        modified: q.config.modified,
        totalsent: q.config.totalsent,
        totalrecv: q.config.totalrecv,
        msgs: q.msgs.len() as u64,
        hiddenmsgs: count_hidden(q.msgs, now) as u64,
    }
}

/// Counts the hidden messages of a queue and assembles its attribute
/// snapshot.
fn queue_attributes(q: &Queue, now: u64) -> (a: QueueAttributes)
    ensures
        a == spec_attributes(q@, now),
{
    let mut hiddenmsgs: u64 = 0;
    let mut i: usize = 0;
    proof {
        assert(q@.msgs.subrange(0, 0) =~= Seq::<(Seq<char>, MsgView)>::empty());
    }
    while i < q.msgs.len()
        invariant
            i <= q.msgs@.len(),
            hiddenmsgs <= i,
            hiddenmsgs == count_hidden(q@.msgs.subrange(0, i as int), now),
        decreases q.msgs@.len() - i,
    {
        let sc = q.msgs[i].1.score;
        proof {
            let pre = q@.msgs.subrange(0, i as int);
            let cur = q@.msgs.subrange(0, i + 1);
            assert(cur.drop_last() =~= pre);
            assert(cur.last() == q@.msgs[i as int]);
            lemma_count_hidden_bound(pre, now);
        }
        if sc > now {
            hiddenmsgs = hiddenmsgs + 1;
        }
        i = i + 1;
    }
    proof {
        assert(q@.msgs.subrange(0, q@.msgs.len() as int) =~= q@.msgs);
        lemma_count_hidden_bound(q@.msgs, now);
    }
    QueueAttributes {
        hidden: q.config.hidden,
        delay: q.config.delay,
        maxsize: q.config.maxsize,
        created: q.config.created,
        modified: q.config.modified,
        totalsent: q.config.totalsent,
        totalrecv: q.config.totalrecv,
        msgs: q.msgs.len() as u64,
        hiddenmsgs,
    }
}

/// No queue identifier occurs twice, and every queue is well formed.
pub open spec fn view_wf(v: EngineView) -> bool {
    &&& distinct_keys(v.queues)
    &&& forall|i: int| 0 <= i < v.queues.len() ==> queue_wf((#[trigger] v.queues[i]).1)
}

impl Engine {
    /// The namespace invariant every operation preserves: [`view_wf`].
    pub open spec fn wf(&self) -> bool {
        view_wf(self@)
    }

    /// Whether the named queue exists.
    pub open spec fn spec_has_queue(&self, qname: Seq<char>) -> bool {
        has_key(self@.queues, qname)
    }

    /// The named queue's state; meaningful only under `spec_has_queue`.
    pub open spec fn spec_queue(&self, qname: Seq<char>) -> QueueView {
        self@.queues[find_key(self@.queues, qname)].1
    }

    /// A fresh, empty namespace.
    pub fn new(realtime: bool) -> (r: Engine)
        ensures
            r.wf(),
            r@.realtime == realtime,
            r@.queues.len() == 0,
    {
        let r = Engine { realtime, queues: Vec::new() };
        proof {
            assert(r@.queues =~= Seq::<(Seq<char>, QueueView)>::empty());
        }
        r
    }

    /// Whether sends should signal the notification channel.
    pub fn realtime(&self) -> (r: bool)
        ensures
            r == self@.realtime,
    {
        self.realtime
    }

    /// Registers a queue. Fails with `QueueAlreadyExists` if the name is
    /// taken, with `InvalidParameter` if a supplied setting is out of
    /// range; otherwise appends a queue with the supplied or default
    /// settings, created and modified at `now`, counters at zero, and no
    /// pending messages. Errors leave the namespace untouched.
    pub fn create_queue(
        &mut self,
        qname: &str,
        hidden: Option<u64>,
        delay: Option<u64>,
        maxsize: Option<i64>,
        now: u64,
    ) -> (r: Result<(), RsmqError>)
        requires
            old(self).wf(),
        ensures
            final(self).wf(),
            final(self)@.realtime == old(self)@.realtime,
            ({
                let pre = old(self)@.queues;
                match r {
                    Result::Ok(()) => {
                        &&& !has_key(pre, qname@)
                        &&& valid_hidden_opt(hidden)
                        &&& valid_delay_opt(delay)
                        &&& valid_maxsize_opt(maxsize)
                        &&& final(self)@.queues == pre.push(
                            (
                                qname@,
                                (QueueView {
                                    config: QueueConfig {
                                        hidden: eff_u64(hidden, DEFAULT_HIDDEN_SECS),
                                        delay: eff_u64(delay, DEFAULT_DELAY_SECS),
                                        maxsize: eff_i64(maxsize, DEFAULT_MAXSIZE),
                                        created: now,
                                        modified: now,
                                        totalsent: 0,
                                        totalrecv: 0,
                                    },
                                    msgs: Seq::empty(),
                                }),
                            ),
                        )
                    },
                    Result::Err(e) => {
                        &&& final(self)@ == old(self)@
                        &&& (e == RsmqError::QueueAlreadyExists <==> has_key(pre, qname@))
                        &&& (e == RsmqError::QueueAlreadyExists || e == RsmqError::InvalidParameter)
                        &&& (e == RsmqError::InvalidParameter ==> !(valid_hidden_opt(hidden)
                            && valid_delay_opt(delay) && valid_maxsize_opt(maxsize)))
                    },
                }
            }),
    {
        if find_by_key(&self.queues, qname).is_some() {
            return Err(RsmqError::QueueAlreadyExists);
        }
        let hidden_ok = match hidden {
            Option::Some(h) => h <= MAX_HIDDEN_SECS,
            Option::None => true,
        };
        let delay_ok = match delay {
            Option::Some(d) => d <= MAX_DELAY_SECS,
            Option::None => true,
        };
        let maxsize_ok = match maxsize {
            Option::Some(m) => m == UNLIMITED_MAXSIZE || (MIN_MAXSIZE <= m && m <= MAX_MAXSIZE),
            Option::None => true,
        };
        if !(hidden_ok && delay_ok && maxsize_ok) {
            return Err(RsmqError::InvalidParameter);
        }
        let config = QueueConfig {
            hidden: match hidden {
                Option::Some(h) => h,
                Option::None => DEFAULT_HIDDEN_SECS,
            },
            delay: match delay {
                Option::Some(d) => d,
                Option::None => DEFAULT_DELAY_SECS,
            },
            maxsize: match maxsize {
                Option::Some(m) => m,
                Option::None => DEFAULT_MAXSIZE,
            },
            created: now,
            modified: now,
            totalsent: 0,
            totalrecv: 0,
        };
        let name: String = qname.to_owned();
        self.queues.push((name, Queue { config, msgs: Vec::new() }));
        proof {
            let pre = old(self)@.queues;
            lemma_map_pairs_push(old(self).queues@, self.queues@.last());
            assert(map_pairs(self.queues@.last().1.msgs@) =~= Seq::<(Seq<char>, MsgView)>::empty());
            lemma_find_key_props(pre, qname@);
            lemma_distinct_push(pre, (qname@, self.queues@.last().1@));
            assert(self@.queues =~= pre.push((qname@, self.queues@.last().1@)));
            assert forall|i: int|
                0 <= i < self@.queues.len() implies queue_wf((#[trigger] self@.queues[i]).1) by {
                if i < pre.len() {
                    assert(self@.queues[i] == pre[i]);
                }
            }
        }
        Ok(())
    }

    /// Unregisters a queue, dropping its configuration, its pending index
    /// and every message record in it. Fails with `QueueNotFound`, leaving
    /// the namespace untouched, if the name is unknown.
    pub fn delete_queue(&mut self, qname: &str) -> (r: Result<(), RsmqError>)
        requires
            old(self).wf(),
        ensures
            final(self).wf(),
            final(self)@.realtime == old(self)@.realtime,
            ({
                let pre = old(self)@.queues;
                match r {
                    Result::Ok(()) => {
                        &&& has_key(pre, qname@)
                        &&& final(self)@.queues == pre.remove(find_key(pre, qname@))
                    },
                    Result::Err(e) => {
                        &&& e == RsmqError::QueueNotFound
                        &&& !has_key(pre, qname@)
                        &&& final(self)@ == old(self)@
                    },
                }
            }),
    {
        let qi = match find_by_key(&self.queues, qname) {
            Option::Some(i) => i,
            Option::None => {
                return Err(RsmqError::QueueNotFound);
            },
        };
        self.queues.remove(qi);
        proof {
            let pre = old(self)@.queues;
            lemma_map_pairs_remove(old(self).queues@, qi as int);
            lemma_distinct_remove(pre, qi as int);
            assert forall|i: int|
                0 <= i < self@.queues.len() implies queue_wf((#[trigger] self@.queues[i]).1) by {
                let i0 = if i < qi as int {
                    i
                } else {
                    i + 1
                };
                assert(self@.queues[i] == pre[i0]);
            }
        }
        Ok(())
    }

    /// Names of all queues of the namespace, in registration order.
    pub fn list_queues(&self) -> (r: Vec<String>)
        ensures
            r@.len() == self@.queues.len(),
            forall|i: int| 0 <= i < r@.len() ==> (#[trigger] r@[i])@ == self@.queues[i].0,
    {
        let mut r: Vec<String> = Vec::new();
        let mut i: usize = 0;
        while i < self.queues.len()
            invariant
                i <= self.queues@.len(),
                r@.len() == i,
                forall|j: int| 0 <= j < i ==> (#[trigger] r@[j])@ == self@.queues[j].0,
            decreases self.queues@.len() - i,
        {
            r.push(self.queues[i].0.clone());
            i = i + 1;
        }
        r
    }

    /// The queue's settings, counters, and message counts as of `now`.
    /// Fails with `QueueNotFound` if the name is unknown.
    pub fn get_queue_attributes(&self, qname: &str, now: u64) -> (r: Result<
        QueueAttributes,
        RsmqError,
    >)
        ensures
            ({
                match r {
                    Result::Ok(a) => {
                        &&& self.spec_has_queue(qname@)
                        &&& a == spec_attributes(self.spec_queue(qname@), now)
                    },
                    Result::Err(e) => {
                        &&& e == RsmqError::QueueNotFound
                        &&& !self.spec_has_queue(qname@)
                    },
                }
            }),
    {
        let qi = match find_by_key(&self.queues, qname) {
            Option::Some(i) => i,
            Option::None => {
                return Err(RsmqError::QueueNotFound);
            },
        };
        let a = queue_attributes(&self.queues[qi].1, now);
        Ok(a)
    }

    /// Overwrites exactly the supplied settings, stamps the change at
    /// `now`, and returns the resulting attribute snapshot; counters are
    /// never reset. Fails with `QueueNotFound` if the name is unknown and
    /// with `InvalidParameter` if a supplied setting is out of range;
    /// errors leave the namespace untouched.
    pub fn set_queue_attributes(
        &mut self,
        qname: &str,
        hidden: Option<u64>,
        delay: Option<u64>,
        maxsize: Option<i64>,
        now: u64,
    ) -> (r: Result<QueueAttributes, RsmqError>)
        requires
            old(self).wf(),
        ensures
            final(self).wf(),
            final(self)@.realtime == old(self)@.realtime,
            ({
                let pre = old(self)@.queues;
                match r {
                    Result::Ok(a) => ({
                        let qi = find_key(pre, qname@);
                        let q = pre[qi].1;
                        let updated = (QueueView {
                            config: QueueConfig {
                                hidden: eff_u64(hidden, q.config.hidden),
                                delay: eff_u64(delay, q.config.delay),
                                maxsize: eff_i64(maxsize, q.config.maxsize),
                                created: q.config.created,
                                modified: now,
                                totalsent: q.config.totalsent,
                                totalrecv: q.config.totalrecv,
                            },
                            msgs: q.msgs,
                        });
                        &&& has_key(pre, qname@)
                        &&& valid_hidden_opt(hidden)
                        &&& valid_delay_opt(delay)
                        &&& valid_maxsize_opt(maxsize)
                        &&& final(self)@.queues == pre.update(qi, (qname@, updated))
                        &&& a == spec_attributes(updated, now)
                    }),
                    Result::Err(e) => {
                        &&& final(self)@ == old(self)@
                        &&& (e == RsmqError::QueueNotFound <==> !has_key(pre, qname@))
                        &&& (e == RsmqError::QueueNotFound || e == RsmqError::InvalidParameter)
                        &&& (e == RsmqError::InvalidParameter ==> !(valid_hidden_opt(hidden)
                            && valid_delay_opt(delay) && valid_maxsize_opt(maxsize)))
                    },
                }
            }),
    {
        let qi = match find_by_key(&self.queues, qname) {
            Option::Some(i) => i,
            Option::None => {
                return Err(RsmqError::QueueNotFound);
            },
        };
        let hidden_ok = match hidden {
            Option::Some(h) => h <= MAX_HIDDEN_SECS,
            Option::None => true,
        };
        let delay_ok = match delay {
            Option::Some(d) => d <= MAX_DELAY_SECS,
            Option::None => true,
        };
        let maxsize_ok = match maxsize {
            Option::Some(m) => m == UNLIMITED_MAXSIZE || (MIN_MAXSIZE <= m && m <= MAX_MAXSIZE),
            Option::None => true,
        };
        if !(hidden_ok && delay_ok && maxsize_ok) {
            return Err(RsmqError::InvalidParameter);
        }
        let (name, mut q) = self.queues.remove(qi);
        q.config.hidden = match hidden {
            Option::Some(h) => h,
            Option::None => q.config.hidden,
        };
        q.config.delay = match delay {
            Option::Some(d) => d,
            Option::None => q.config.delay,
        };
        q.config.maxsize = match maxsize {
            Option::Some(m) => m,
            Option::None => q.config.maxsize,
        };
        q.config.modified = now;
        let a = queue_attributes(&q, now);
        self.queues.insert(qi, (name, q));
        proof {
            let pre = old(self)@.queues;
            lemma_find_key_props(pre, qname@);
            assert(pre[qi as int].0 == qname@);
            lemma_remove_insert_is_update(old(self).queues@, qi as int, self.queues@[qi as int]);
            crate::assoc::lemma_map_pairs_update(
                old(self).queues@,
                qi as int,
                self.queues@[qi as int],
            );
            assert(self@.queues =~= pre.update(qi as int, (qname@, self.queues@[qi as int].1@)));
            lemma_distinct_update(pre, qi as int, (qname@, self.queues@[qi as int].1@));
            assert forall|i: int|
                0 <= i < self@.queues.len() implies queue_wf((#[trigger] self@.queues[i]).1) by {
                if i != qi as int {
                    assert(self@.queues[i] == pre[i]);
                }
            }
        }
        Ok(a)
    }
}

/// Preference among indexed messages: earlier eligibility first, and
/// identifier order breaking ties.
pub open spec fn msg_better(a: (Seq<char>, MsgView), b: (Seq<char>, MsgView)) -> bool {
    a.1.score < b.1.score || (a.1.score == b.1.score && lex_lt(a.0, b.0))
}

/// Index of the message `receive` or `pop` hands out at `now`: among the
/// messages whose eligibility time has passed, the preferred one under
/// [`msg_better`]; `-1` when none is eligible. The choice is a function of
/// the index contents and the clock alone, so it is deterministic for a
/// given store state.
pub open spec fn next_eligible(msgs: Seq<(Seq<char>, MsgView)>, now: u64) -> int
    decreases msgs.len(),
{
    if msgs.len() == 0 {
        -1
    } else {
        let last = msgs.len() - 1;
        let p = next_eligible(msgs.drop_last(), now);
        if msgs[last].1.score > now {
            p
        } else if p < 0 {
            last
        } else if msg_better(msgs[last], msgs[p]) {
            last
        } else {
            p
        }
    }
}

/// The chosen message is eligible and no eligible message is preferred to
/// it; when none is chosen, none is eligible.
pub proof fn lemma_next_eligible_props(msgs: Seq<(Seq<char>, MsgView)>, now: u64)
    ensures
        next_eligible(msgs, now) == -1 ==> forall|i: int|
            0 <= i < msgs.len() ==> (#[trigger] msgs[i]).1.score > now,
        next_eligible(msgs, now) >= 0 ==> {
            let c = next_eligible(msgs, now);
            &&& c < msgs.len()
            &&& msgs[c].1.score <= now
            &&& forall|i: int|
                0 <= i < msgs.len() && (#[trigger] msgs[i]).1.score <= now && i != c
                    ==> !msg_better(msgs[i], msgs[c])
        },
        next_eligible(msgs, now) >= -1,
    decreases msgs.len(),
{
    if msgs.len() > 0 {
        let last = msgs.len() - 1;
        let prefix = msgs.drop_last();
        let p = next_eligible(prefix, now);
        let c = next_eligible(msgs, now);
        lemma_next_eligible_props(prefix, now);
        assert forall|i: int| 0 <= i < last implies prefix[i] == msgs[i] by {}
        if msgs[last as int].1.score > now {
            if c >= 0 {
                assert forall|i: int|
                    0 <= i < msgs.len() && (#[trigger] msgs[i]).1.score <= now && i != c
                        implies !msg_better(msgs[i], msgs[c]) by {
                    assert(i < last);
                    assert(prefix[i] == msgs[i]);
                }
            }
        } else if p >= 0 && msg_better(msgs[last as int], msgs[p]) {
            assert(c == last);
            assert forall|i: int|
                0 <= i < msgs.len() && (#[trigger] msgs[i]).1.score <= now && i != c
                    implies !msg_better(msgs[i], msgs[c]) by {
                assert(i < last);
                if msg_better(msgs[i], msgs[last as int]) {
                    lemma_msg_better_trans(msgs[i], msgs[last as int], msgs[p]);
                    if i == p {
                        lemma_msg_better_trans(msgs[p], msgs[last as int], msgs[p]);
                        crate::ids::lemma_lex_lt_irrefl(msgs[p].0);
                    } else {
                        assert(!msg_better(prefix[i], prefix[p]));
                    }
                }
            }
        }
    }
}

/// The message preference is transitive.
proof fn lemma_msg_better_trans(
    a: (Seq<char>, MsgView),
    b: (Seq<char>, MsgView),
    c: (Seq<char>, MsgView),
)
    requires
        msg_better(a, b),
        msg_better(b, c),
    ensures
        msg_better(a, c),
{
    if a.1.score == b.1.score && b.1.score == c.1.score {
        crate::ids::lemma_lex_lt_trans(a.0, b.0, c.0);
    }
}

/// The `Ok` outcome of `create_queue`.
pub open spec fn create_ok(
    pre: EngineView,
    post: EngineView,
    qname: Seq<char>,
    hidden: Option<u64>,
    delay: Option<u64>,
    maxsize: Option<i64>,
    now: u64,
) -> bool {
    &&& !has_key(pre.queues, qname)
    &&& valid_hidden_opt(hidden)
    &&& valid_delay_opt(delay)
    &&& valid_maxsize_opt(maxsize)
    &&& post.queues == pre.queues.push(
        (
            qname,
            (QueueView {
                config: QueueConfig {
                    hidden: eff_u64(hidden, DEFAULT_HIDDEN_SECS),
                    delay: eff_u64(delay, DEFAULT_DELAY_SECS),
                    maxsize: eff_i64(maxsize, DEFAULT_MAXSIZE),
                    created: now,
                    modified: now,
                    totalsent: 0,
                    totalrecv: 0,
                },
                msgs: Seq::empty(),
            }),
        ),
    )
}

/// The `Ok` outcome of `send_message`: the record enters the index with
/// its eligibility at `now` plus the effective delay, the sent counter
/// moves, and nothing else does.
pub open spec fn send_ok(
    pre: EngineView,
    post: EngineView,
    qname: Seq<char>,
    payload: Seq<u8>,
    delay: Option<u64>,
    now: u64,
    entropy: Seq<u8>,
    id: Seq<char>,
) -> bool {
    let qi = find_key(pre.queues, qname);
    let q = pre.queues[qi].1;
    let rec = (MsgView {
        payload: payload,
        sent: now,
        fr: Option::None,
        rc: 0,
        score: (now + eff_u64(delay, q.config.delay) * 1000) as u64,
    });
    &&& valid_delay_opt(delay)
    &&& has_key(pre.queues, qname)
    &&& (q.config.maxsize == UNLIMITED_MAXSIZE || payload.len() <= q.config.maxsize)
    &&& id == id_of(now, entropy)
    &&& post.queues == pre.queues.update(
        qi,
        (
            qname,
            (QueueView {
                config: QueueConfig {
                    hidden: q.config.hidden,
                    delay: q.config.delay,
                    maxsize: q.config.maxsize,
                    created: q.config.created,
                    modified: q.config.modified,
                    totalsent: bump(q.config.totalsent),
                    totalrecv: q.config.totalrecv,
                },
                msgs: upsert(q.msgs, id, rec),
            }),
        ),
    )
}

/// The `Ok` outcome of `receive_message`: either nothing is eligible and
/// nothing changes, or the chosen message is handed out, hidden until
/// `now` plus the effective visibility timeout, its delivery bookkeeping
/// and the queue's received counter moved, and nothing else changes.
pub open spec fn receive_ok(
    pre: EngineView,
    post: EngineView,
    qname: Seq<char>,
    hidden: Option<u64>,
    now: u64,
    out: Option<MessageView>,
) -> bool {
    let qi = find_key(pre.queues, qname);
    let q = pre.queues[qi].1;
    let ci = next_eligible(q.msgs, now);
    &&& valid_hidden_opt(hidden)
    &&& has_key(pre.queues, qname)
    &&& match out {
        Option::None => ci == -1 && post == pre,
        Option::Some(m) => ({
            let entry = q.msgs[ci];
            let newfr = match entry.1.fr {
                Option::Some(f) => f,
                Option::None => now,
            };
            let newrec = (MsgView {
                payload: entry.1.payload,
                sent: entry.1.sent,
                fr: Option::Some(newfr),
                rc: bump(entry.1.rc),
                score: (now + eff_u64(hidden, q.config.hidden) * 1000) as u64,
            });
            &&& ci >= 0
            &&& m == (MessageView {
                id: entry.0,
                message: entry.1.payload,
                sent: entry.1.sent,
                fr: newfr,
                rc: bump(entry.1.rc),
            })
            &&& post.queues == pre.queues.update(
                qi,
                (
                    qname,
                    (QueueView {
                        config: QueueConfig {
                            hidden: q.config.hidden,
                            delay: q.config.delay,
                            maxsize: q.config.maxsize,
                            created: q.config.created,
                            modified: q.config.modified,
                            totalsent: q.config.totalsent,
                            totalrecv: bump(q.config.totalrecv),
                        },
                        msgs: q.msgs.update(ci, (entry.0, newrec)),
                    }),
                ),
            )
        }),
    }
}

/// The `Ok` outcome of `pop_message`: like a receive, but the chosen
/// message leaves the index and its record altogether.
pub open spec fn pop_ok(
    pre: EngineView,
    post: EngineView,
    qname: Seq<char>,
    now: u64,
    out: Option<MessageView>,
) -> bool {
    let qi = find_key(pre.queues, qname);
    let q = pre.queues[qi].1;
    let ci = next_eligible(q.msgs, now);
    &&& has_key(pre.queues, qname)
    &&& match out {
        Option::None => ci == -1 && post == pre,
        Option::Some(m) => ({
            let entry = q.msgs[ci];
            let newfr = match entry.1.fr {
                Option::Some(f) => f,
                Option::None => now,
            };
            &&& ci >= 0
            &&& m == (MessageView {
                id: entry.0,
                message: entry.1.payload,
                sent: entry.1.sent,
                fr: newfr,
                rc: bump(entry.1.rc),
            })
            &&& post.queues == pre.queues.update(
                qi,
                (
                    qname,
                    (QueueView {
                        config: QueueConfig {
                            hidden: q.config.hidden,
                            delay: q.config.delay,
                            maxsize: q.config.maxsize,
                            created: q.config.created,
                            modified: q.config.modified,
                            totalsent: q.config.totalsent,
                            totalrecv: bump(q.config.totalrecv),
                        },
                        msgs: q.msgs.remove(ci),
                    }),
                ),
            )
        }),
    }
}

/// What `delete_message` does: the record leaves the index if its queue
/// and identifier exist, and the result says whether it did; counters
/// never move.
pub open spec fn delete_message_rel(
    pre: EngineView,
    post: EngineView,
    qname: Seq<char>,
    id: Seq<char>,
    found: bool,
) -> bool {
    let qi = find_key(pre.queues, qname);
    let q = pre.queues[qi].1;
    let mi = find_key(q.msgs, id);
    if has_key(pre.queues, qname) && mi >= 0 {
        &&& found
        &&& post.queues == pre.queues.update(
            qi,
            (qname, (QueueView { config: q.config, msgs: q.msgs.remove(mi) })),
        )
    } else {
        &&& !found
        &&& post == pre
    }
}

/// The `Ok` outcome of `change_message_visibility`: the record's
/// eligibility moves to `now` plus the requested hidden window, and
/// nothing else changes.
pub open spec fn change_visibility_ok(
    pre: EngineView,
    post: EngineView,
    qname: Seq<char>,
    id: Seq<char>,
    hidden: u64,
    now: u64,
) -> bool {
    let qi = find_key(pre.queues, qname);
    let q = pre.queues[qi].1;
    let mi = find_key(q.msgs, id);
    let entry = q.msgs[mi];
    let newrec = (MsgView {
        payload: entry.1.payload,
        sent: entry.1.sent,
        fr: entry.1.fr,
        rc: entry.1.rc,
        score: (now + hidden * 1000) as u64,
    });
    &&& valid_hidden(hidden)
    &&& has_key(pre.queues, qname)
    &&& mi >= 0
    &&& post.queues == pre.queues.update(
        qi,
        (qname, (QueueView { config: q.config, msgs: q.msgs.update(mi, (id, newrec)) })),
    )
}

/// An exact copy of a byte vector.
fn clone_bytes(v: &Vec<u8>) -> (r: Vec<u8>)
    ensures
        r@ == v@,
{
    let mut r: Vec<u8> = Vec::new();
    let mut i: usize = 0;
    while i < v.len()
        invariant
            i <= v@.len(),
            r@ =~= v@.subrange(0, i as int),
        decreases v@.len() - i,
    {
        r.push(v[i]);
        i = i + 1;
    }
    proof {
        assert(v@.subrange(0, v@.len() as int) =~= v@);
    }
    r
}

/// Finds the message `receive` or `pop` would hand out at `now`.
fn scan_eligible(msgs: &Vec<(String, MsgRecord)>, now: u64) -> (r: Option<usize>)
    ensures
        match r {
            Option::Some(i) => i < msgs@.len() && next_eligible(map_pairs(msgs@), now) == i as int,
            Option::None => next_eligible(map_pairs(msgs@), now) == -1,
        },
{
    let ghost m = map_pairs(msgs@);
    let mut best: Option<usize> = None;
    let mut i: usize = 0;
    proof {
        assert(m.subrange(0, 0) =~= Seq::<(Seq<char>, MsgView)>::empty());
    }
    while i < msgs.len()
        invariant
            i <= msgs@.len(),
            m == map_pairs(msgs@),
            match best {
                Option::Some(b) => b < i && next_eligible(m.subrange(0, i as int), now) == b as int,
                Option::None => next_eligible(m.subrange(0, i as int), now) == -1,
            },
        decreases msgs@.len() - i,
    {
        proof {
            let cur = m.subrange(0, i + 1);
            assert(cur.drop_last() =~= m.subrange(0, i as int));
            assert(cur.last() == m[i as int]);
        }
        let sc = msgs[i].1.score;
        if sc <= now {
            best = match best {
                Option::None => Some(i),
                Option::Some(b) => {
                    let bs = msgs[b].1.score;
                    if sc < bs {
                        Some(i)
                    } else if sc == bs && str_lt(msgs[i].0.as_str(), msgs[b].0.as_str()) {
                        Some(i)
                    } else {
                        Some(b)
                    }
                },
            };
        }
        i = i + 1;
    }
    proof {
        assert(m.subrange(0, msgs@.len() as int) =~= m);
    }
    best
}

impl Engine {
    /// Enqueues a payload. Fails with `InvalidParameter` if the supplied
    /// delay is out of range, with `QueueNotFound` if the queue does not
    /// exist, and with `PayloadTooLarge` if the payload exceeds the
    /// queue's cap; errors leave the namespace untouched. Otherwise the
    /// message is indexed under a fresh identifier built from `now` and
    /// `entropy`, eligible once the delay has passed, and the identifier
    /// is returned.
    pub fn send_message(
        &mut self,
        qname: &str,
        payload: Vec<u8>,
        delay: Option<u64>,
        now: u64,
        entropy: &Vec<u8>,
    ) -> (r: Result<String, RsmqError>)
        requires
            old(self).wf(),
            valid_now(now),
            entropy@.len() == ID_RANDOM_LEN,
        ensures
            final(self).wf(),
            final(self)@.realtime == old(self)@.realtime,
            ({
                let pre = old(self)@.queues;
                match r {
                    Result::Ok(id) => send_ok(
                        old(self)@,
                        final(self)@,
                        qname@,
                        payload@,
                        delay,
                        now,
                        entropy@,
                        id@,
                    ),
                    Result::Err(e) => {
                        let qi = find_key(pre, qname@);
                        let q = pre[qi].1;
                        &&& final(self)@ == old(self)@
                        &&& (e == RsmqError::InvalidParameter <==> !valid_delay_opt(delay))
                        &&& (e == RsmqError::QueueNotFound <==> valid_delay_opt(delay) && !has_key(
                            pre,
                            qname@,
                        ))
                        &&& (e == RsmqError::PayloadTooLarge <==> valid_delay_opt(delay) && has_key(
                            pre,
                            qname@,
                        ) && !(q.config.maxsize == UNLIMITED_MAXSIZE || payload@.len()
                            <= q.config.maxsize))
                        &&& (e == RsmqError::InvalidParameter || e == RsmqError::QueueNotFound
                            || e == RsmqError::PayloadTooLarge)
                    },
                }
            }),
    {
        let delay_ok = match delay {
            Option::Some(d) => d <= MAX_DELAY_SECS,
            Option::None => true,
        };
        if !delay_ok {
            return Err(RsmqError::InvalidParameter);
        }
        let qi = match find_by_key(&self.queues, qname) {
            Option::Some(i) => i,
            Option::None => {
                return Err(RsmqError::QueueNotFound);
            },
        };
        proof {
            lemma_find_key_props(old(self)@.queues, qname@);
            assert(queue_wf(self@.queues[qi as int].1));
        }
        let maxsize = self.queues[qi].1.config.maxsize;
        if maxsize != UNLIMITED_MAXSIZE && payload.len() as u64 > maxsize as u64 {
            return Err(RsmqError::PayloadTooLarge);
        }
        let id = make_id(now, entropy);
        let (name, mut q) = self.queues.remove(qi);
        let eff_delay = match delay {
            Option::Some(d) => d,
            Option::None => q.config.delay,
        };
        let score = now + eff_delay * 1000;
        let rec = MsgRecord { payload, sent: now, fr: None, rc: 0, score };
        let ghost qv = q@;
        match find_by_key(&q.msgs, id.as_str()) {
            Option::Some(mi) => {
                let _ = q.msgs.remove(mi);
                q.msgs.insert(mi, (id.clone(), rec));
                proof {
                    lemma_remove_insert_is_update(qv.msgs, mi as int, (id@, rec@));
                    crate::assoc::lemma_map_pairs_remove(old(self).queues@[qi as int].1.msgs@, mi as int);
                    crate::assoc::lemma_map_pairs_insert(
                        old(self).queues@[qi as int].1.msgs@.remove(mi as int),
                        mi as int,
                        q.msgs@[mi as int],
                    );
                    lemma_find_key_props(qv.msgs, id@);
                    assert(q@.msgs =~= qv.msgs.update(mi as int, (id@, rec@)));
                    assert(q@.msgs == upsert(qv.msgs, id@, rec@));
                }
            },
            Option::None => {
                q.msgs.push((id.clone(), rec));
                proof {
                    lemma_map_pairs_push(old(self).queues@[qi as int].1.msgs@, q.msgs@.last());
                    assert(q@.msgs =~= qv.msgs.push((id@, rec@)));
                    assert(q@.msgs == upsert(qv.msgs, id@, rec@));
                }
            },
        }
        q.config.totalsent = bump_counter(q.config.totalsent);
        self.queues.insert(qi, (name, q));
        proof {
            let pre = old(self)@.queues;
            assert(pre[qi as int].0 == qname@);
            lemma_remove_insert_is_update(old(self).queues@, qi as int, self.queues@[qi as int]);
            crate::assoc::lemma_map_pairs_update(
                old(self).queues@,
                qi as int,
                self.queues@[qi as int],
            );
            assert(self@.queues =~= pre.update(qi as int, (qname@, self.queues@[qi as int].1@)));
            lemma_distinct_upsert(qv.msgs, id@, rec@);
            lemma_distinct_update(pre, qi as int, (qname@, self.queues@[qi as int].1@));
            assert forall|i: int|
                0 <= i < self@.queues.len() implies queue_wf((#[trigger] self@.queues[i]).1) by {
                if i != qi as int {
                    assert(self@.queues[i] == pre[i]);
                }
            }
        }
        Ok(id)
    }

    /// Delivers the next eligible message, if any, hiding it from other
    /// consumers until `now` plus the supplied or default visibility
    /// timeout. "No message available" is the `Ok(None)` outcome, not an
    /// error, and changes nothing. Fails with `InvalidParameter` if the
    /// supplied timeout is out of range and with `QueueNotFound` if the
    /// queue does not exist; errors leave the namespace untouched.
    pub fn receive_message(&mut self, qname: &str, hidden: Option<u64>, now: u64) -> (r: Result<
        Option<Message>,
        RsmqError,
    >)
        requires
            old(self).wf(),
            valid_now(now),
        ensures
            final(self).wf(),
            final(self)@.realtime == old(self)@.realtime,
            ({
                let pre = old(self)@.queues;
                match r {
                    Result::Ok(out) => receive_ok(
                        old(self)@,
                        final(self)@,
                        qname@,
                        hidden,
                        now,
                        match out {
                            Option::Some(m) => Option::Some(m@),
                            Option::None => Option::None,
                        },
                    ),
                    Result::Err(e) => {
                        &&& final(self)@ == old(self)@
                        &&& (e == RsmqError::InvalidParameter <==> !valid_hidden_opt(hidden))
                        &&& (e == RsmqError::QueueNotFound <==> valid_hidden_opt(hidden)
                            && !has_key(pre, qname@))
                        &&& (e == RsmqError::InvalidParameter || e == RsmqError::QueueNotFound)
                    },
                }
            }),
    {
        let hidden_ok = match hidden {
            Option::Some(h) => h <= MAX_HIDDEN_SECS,
            Option::None => true,
        };
        if !hidden_ok {
            return Err(RsmqError::InvalidParameter);
        }
        let qi = match find_by_key(&self.queues, qname) {
            Option::Some(i) => i,
            Option::None => {
                return Err(RsmqError::QueueNotFound);
            },
        };
        proof {
            lemma_find_key_props(old(self)@.queues, qname@);
            assert(queue_wf(self@.queues[qi as int].1));
        }
        let ci = match scan_eligible(&self.queues[qi].1.msgs, now) {
            Option::None => {
                return Ok(None);
            },
            Option::Some(c) => c,
        };
        let (name, mut q) = self.queues.remove(qi);
        let ghost qv = q@;
        let vt = match hidden {
            Option::Some(h) => h,
            Option::None => q.config.hidden,
        };
        let (mid, mut rec) = q.msgs.remove(ci);
        let fr_val = match rec.fr {
            Option::Some(f) => f,
            Option::None => now,
        };
        rec.fr = Some(fr_val);
        rec.rc = bump_counter(rec.rc);
        rec.score = now + vt * 1000;
        let msg = Message {
            id: mid.clone(),
            message: clone_bytes(&rec.payload),
            sent: rec.sent,
            fr: fr_val,
            rc: rec.rc,
        };
        q.msgs.insert(ci, (mid, rec));
        q.config.totalrecv = bump_counter(q.config.totalrecv);
        self.queues.insert(qi, (name, q));
        proof {
            let pre = old(self)@.queues;
            assert(pre[qi as int].0 == qname@);
            lemma_remove_insert_is_update(
                old(self).queues@[qi as int].1.msgs@,
                ci as int,
                q.msgs@[ci as int],
            );
            crate::assoc::lemma_map_pairs_remove(old(self).queues@[qi as int].1.msgs@, ci as int);
            crate::assoc::lemma_map_pairs_insert(
                old(self).queues@[qi as int].1.msgs@.remove(ci as int),
                ci as int,
                q.msgs@[ci as int],
            );
            assert(q@.msgs =~= qv.msgs.update(ci as int, (qv.msgs[ci as int].0, q.msgs@[ci as int].1@)));
            lemma_remove_insert_is_update(old(self).queues@, qi as int, self.queues@[qi as int]);
            crate::assoc::lemma_map_pairs_update(
                old(self).queues@,
                qi as int,
                self.queues@[qi as int],
            );
            assert(self@.queues =~= pre.update(qi as int, (qname@, self.queues@[qi as int].1@)));
            lemma_distinct_update(qv.msgs, ci as int, (qv.msgs[ci as int].0, q.msgs@[ci as int].1@));
            lemma_distinct_update(pre, qi as int, (qname@, self.queues@[qi as int].1@));
            assert forall|i: int|
                0 <= i < self@.queues.len() implies queue_wf((#[trigger] self@.queues[i]).1) by {
                if i != qi as int {
                    assert(self@.queues[i] == pre[i]);
                }
            }
        }
        Ok(Some(msg))
    }

    /// Delivers and removes the next eligible message in one step, with
    /// no visibility window and no acknowledgment to follow. "No message
    /// available" is the `Ok(None)` outcome, not an error, and changes
    /// nothing — counters included. Fails with `QueueNotFound` if the
    /// queue does not exist.
    pub fn pop_message(&mut self, qname: &str, now: u64) -> (r: Result<Option<Message>, RsmqError>)
        requires
            old(self).wf(),
            valid_now(now),
        ensures
            final(self).wf(),
            final(self)@.realtime == old(self)@.realtime,
            ({
                let pre = old(self)@.queues;
                match r {
                    Result::Ok(out) => pop_ok(
                        old(self)@,
                        final(self)@,
                        qname@,
                        now,
                        match out {
                            Option::Some(m) => Option::Some(m@),
                            Option::None => Option::None,
                        },
                    ),
                    Result::Err(e) => {
                        &&& final(self)@ == old(self)@
                        &&& e == RsmqError::QueueNotFound
                        &&& !has_key(pre, qname@)
                    },
                }
            }),
    {
        let qi = match find_by_key(&self.queues, qname) {
            Option::Some(i) => i,
            Option::None => {
                return Err(RsmqError::QueueNotFound);
            },
        };
        proof {
            lemma_find_key_props(old(self)@.queues, qname@);
            assert(queue_wf(self@.queues[qi as int].1));
        }
        let ci = match scan_eligible(&self.queues[qi].1.msgs, now) {
            Option::None => {
                return Ok(None);
            },
            Option::Some(c) => c,
        };
        let (name, mut q) = self.queues.remove(qi);
        let ghost qv = q@;
        let (mid, rec) = q.msgs.remove(ci);
        let fr_val = match rec.fr {
            Option::Some(f) => f,
            Option::None => now,
        };
        let msg = Message {
            id: mid,
            message: rec.payload,
            sent: rec.sent,
            fr: fr_val,
            rc: bump_counter(rec.rc),
        };
        q.config.totalrecv = bump_counter(q.config.totalrecv);
        self.queues.insert(qi, (name, q));
        proof {
            let pre = old(self)@.queues;
            assert(pre[qi as int].0 == qname@);
            crate::assoc::lemma_map_pairs_remove(old(self).queues@[qi as int].1.msgs@, ci as int);
            assert(q@.msgs =~= qv.msgs.remove(ci as int));
            lemma_remove_insert_is_update(old(self).queues@, qi as int, self.queues@[qi as int]);
            crate::assoc::lemma_map_pairs_update(
                old(self).queues@,
                qi as int,
                self.queues@[qi as int],
            );
            assert(self@.queues =~= pre.update(qi as int, (qname@, self.queues@[qi as int].1@)));
            lemma_distinct_remove(qv.msgs, ci as int);
            lemma_distinct_update(pre, qi as int, (qname@, self.queues@[qi as int].1@));
            assert forall|i: int|
                0 <= i < self@.queues.len() implies queue_wf((#[trigger] self@.queues[i]).1) by {
                if i != qi as int {
                    assert(self@.queues[i] == pre[i]);
                }
            }
        }
        Ok(Some(msg))
    }

    /// Acknowledges a message: its record leaves the index for good. The
    /// result says whether the identifier was present; absence — an
    /// unknown queue included — is a normal race outcome, not an error.
    pub fn delete_message(&mut self, qname: &str, id: &str) -> (found: bool)
        requires
            old(self).wf(),
        ensures
            final(self).wf(),
            final(self)@.realtime == old(self)@.realtime,
            delete_message_rel(old(self)@, final(self)@, qname@, id@, found),
    {
        let qi = match find_by_key(&self.queues, qname) {
            Option::Some(i) => i,
            Option::None => {
                return false;
            },
        };
        proof {
            lemma_find_key_props(old(self)@.queues, qname@);
            assert(queue_wf(self@.queues[qi as int].1));
        }
        let mi = match find_by_key(&self.queues[qi].1.msgs, id) {
            Option::Some(i) => i,
            Option::None => {
                return false;
            },
        };
        let (name, mut q) = self.queues.remove(qi);
        let ghost qv = q@;
        let _ = q.msgs.remove(mi);
        self.queues.insert(qi, (name, q));
        proof {
            let pre = old(self)@.queues;
            assert(pre[qi as int].0 == qname@);
            crate::assoc::lemma_map_pairs_remove(old(self).queues@[qi as int].1.msgs@, mi as int);
            assert(q@.msgs =~= qv.msgs.remove(mi as int));
            lemma_remove_insert_is_update(old(self).queues@, qi as int, self.queues@[qi as int]);
            crate::assoc::lemma_map_pairs_update(
                old(self).queues@,
                qi as int,
                self.queues@[qi as int],
            );
            assert(self@.queues =~= pre.update(qi as int, (qname@, self.queues@[qi as int].1@)));
            lemma_distinct_remove(qv.msgs, mi as int);
            lemma_distinct_update(pre, qi as int, (qname@, self.queues@[qi as int].1@));
            assert forall|i: int|
                0 <= i < self@.queues.len() implies queue_wf((#[trigger] self@.queues[i]).1) by {
                if i != qi as int {
                    assert(self@.queues[i] == pre[i]);
                }
            }
        }
        true
    }

    /// Moves a held message's eligibility to `now` plus `hidden` seconds,
    /// extending or shortening how long its holder keeps it. Fails with
    /// `InvalidParameter` if `hidden` is out of range and with
    /// `MessageNotFound` if the identifier is not in the queue's index —
    /// an unknown queue has an empty index; errors leave the namespace
    /// untouched.
    pub fn change_message_visibility(&mut self, qname: &str, id: &str, hidden: u64, now: u64) -> (r:
        Result<(), RsmqError>)
        requires
            old(self).wf(),
            valid_now(now),
        ensures
            final(self).wf(),
            final(self)@.realtime == old(self)@.realtime,
            ({
                let pre = old(self)@.queues;
                let present = has_key(pre, qname@) && has_key(
                    pre[find_key(pre, qname@)].1.msgs,
                    id@,
                );
                match r {
                    Result::Ok(()) => change_visibility_ok(
                        old(self)@,
                        final(self)@,
                        qname@,
                        id@,
                        hidden,
                        now,
                    ),
                    Result::Err(e) => {
                        &&& final(self)@ == old(self)@
                        &&& (e == RsmqError::InvalidParameter <==> !valid_hidden(hidden))
                        &&& (e == RsmqError::MessageNotFound <==> valid_hidden(hidden) && !present)
                        &&& (e == RsmqError::InvalidParameter || e == RsmqError::MessageNotFound)
                    },
                }
            }),
    {
        if hidden > MAX_HIDDEN_SECS {
            return Err(RsmqError::InvalidParameter);
        }
        let qi = match find_by_key(&self.queues, qname) {
            Option::Some(i) => i,
            Option::None => {
                return Err(RsmqError::MessageNotFound);
            },
        };
        proof {
            lemma_find_key_props(old(self)@.queues, qname@);
            assert(queue_wf(self@.queues[qi as int].1));
        }
        let mi = match find_by_key(&self.queues[qi].1.msgs, id) {
            Option::Some(i) => i,
            Option::None => {
                return Err(RsmqError::MessageNotFound);
            },
        };
        let (name, mut q) = self.queues.remove(qi);
        let ghost qv = q@;
        let (mid, mut rec) = q.msgs.remove(mi);
        rec.score = now + hidden * 1000;
        q.msgs.insert(mi, (mid, rec));
        self.queues.insert(qi, (name, q));
        proof {
            let pre = old(self)@.queues;
            assert(pre[qi as int].0 == qname@);
            lemma_find_key_props(qv.msgs, id@);
            assert(qv.msgs[mi as int].0 == id@);
            lemma_remove_insert_is_update(
                old(self).queues@[qi as int].1.msgs@,
                mi as int,
                q.msgs@[mi as int],
            );
            crate::assoc::lemma_map_pairs_remove(old(self).queues@[qi as int].1.msgs@, mi as int);
            crate::assoc::lemma_map_pairs_insert(
                old(self).queues@[qi as int].1.msgs@.remove(mi as int),
                mi as int,
                q.msgs@[mi as int],
            );
            assert(q@.msgs =~= qv.msgs.update(mi as int, (id@, q.msgs@[mi as int].1@)));
            lemma_remove_insert_is_update(old(self).queues@, qi as int, self.queues@[qi as int]);
            crate::assoc::lemma_map_pairs_update(
                old(self).queues@,
                qi as int,
                self.queues@[qi as int],
            );
            assert(self@.queues =~= pre.update(qi as int, (qname@, self.queues@[qi as int].1@)));
            lemma_distinct_update(qv.msgs, mi as int, (id@, q.msgs@[mi as int].1@));
            lemma_distinct_update(pre, qi as int, (qname@, self.queues@[qi as int].1@));
            assert forall|i: int|
                0 <= i < self@.queues.len() implies queue_wf((#[trigger] self@.queues[i]).1) by {
                if i != qi as int {
                    assert(self@.queues[i] == pre[i]);
                }
            }
        }
        Ok(())
    }
}

} // verus!
