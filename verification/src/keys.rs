//! The key layout a namespace occupies in a shared store.
//!
//! Any client sharing a store and a namespace must use the same keys:
//! `ns:qname` holds the pending-message index, `ns:qname:Q` the queue's
//! attribute hash, `ns:qname:Q:id` a message's body record, `ns:QUEUES`
//! the set of queue names, and `ns:rt:qname` the realtime notification
//! channel.

use vstd::prelude::*;

verus! {

/// Key of the queue's pending-message index.
pub fn index_key(ns: &str, qname: &str) -> (r: String)
    ensures
        r@ == ns@ + ":"@ + qname@,
{
    let mut s: String = ns.to_owned();
    s.append(":");
    s.append(qname);
    s
}

/// Key of the queue's attribute hash.
pub fn attributes_key(ns: &str, qname: &str) -> (r: String)
    ensures
        r@ == ns@ + ":"@ + qname@ + ":Q"@,
{
    let mut s = index_key(ns, qname);
    s.append(":Q");
    s
}

/// Key of one message's body record.
pub fn message_key(ns: &str, qname: &str, id: &str) -> (r: String)
    ensures
        r@ == ns@ + ":"@ + qname@ + ":Q:"@ + id@,
{
    let mut s = index_key(ns, qname);
    s.append(":Q:");
    s.append(id);
    s
}

/// Key of the namespace's set of queue names.
pub fn queue_set_key(ns: &str) -> (r: String)
    ensures
        r@ == ns@ + ":QUEUES"@,
{
    let mut s: String = ns.to_owned();
    s.append(":QUEUES");
    s
}

/// Name of the queue's realtime notification channel.
pub fn realtime_channel(ns: &str, qname: &str) -> (r: String)
    ensures
        r@ == ns@ + ":rt:"@ + qname@,
{
    let mut s: String = ns.to_owned();
    s.append(":rt:");
    s.append(qname);
    s
}

} // verus!
