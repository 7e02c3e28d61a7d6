//! Data model of the queue engine: per-queue configuration, message
//! records, delivered messages, and the attribute snapshot handed to
//! callers, together with the parameter ranges every operation validates.

use vstd::prelude::*;

verus! {

/// Largest visibility timeout (seconds): nine hours.
pub const MAX_HIDDEN_SECS: u64 = 32_400;

/// Largest delivery delay (seconds): nine hours.
pub const MAX_DELAY_SECS: u64 = 32_400;

/// Smallest payload cap a queue may be configured with (bytes).
pub const MIN_MAXSIZE: i64 = 1024;

/// Largest payload cap a queue may be configured with (bytes).
pub const MAX_MAXSIZE: i64 = 65_536;

/// Sentinel meaning "no payload cap".
pub const UNLIMITED_MAXSIZE: i64 = -1;

/// Visibility timeout used when a queue is created without one.
pub const DEFAULT_HIDDEN_SECS: u64 = 30;

/// Delivery delay used when a queue is created without one.
pub const DEFAULT_DELAY_SECS: u64 = 0;

/// Payload cap used when a queue is created without one.
pub const DEFAULT_MAXSIZE: i64 = 65_536;

pub open spec fn valid_hidden(secs: u64) -> bool {
    secs <= MAX_HIDDEN_SECS
}

pub open spec fn valid_delay(secs: u64) -> bool {
    secs <= MAX_DELAY_SECS
}

pub open spec fn valid_maxsize(size: i64) -> bool {
    size == UNLIMITED_MAXSIZE || (MIN_MAXSIZE <= size && size <= MAX_MAXSIZE)
}

pub open spec fn valid_hidden_opt(secs: Option<u64>) -> bool {
    match secs {
        Option::None => true,
        Option::Some(s) => valid_hidden(s),
    }
}

pub open spec fn valid_delay_opt(secs: Option<u64>) -> bool {
    match secs {
        Option::None => true,
        Option::Some(s) => valid_delay(s),
    }
}

pub open spec fn valid_maxsize_opt(size: Option<i64>) -> bool {
    match size {
        Option::None => true,
        Option::Some(s) => valid_maxsize(s),
    }
}

/// The store clock readings the engine accepts (epoch milliseconds). The
/// bound keeps every score and identifier computation inside `u64` and the
/// ten-character identifier prefix; it is not reached before the year
/// 117,000.
pub open spec fn valid_now(now_ms: u64) -> bool {
    now_ms < crate::ids::ID_TIME_CEILING
}

/// A counter increment that sticks at the top of `u64` instead of wrapping.
pub open spec fn bump(x: u64) -> u64 {
    if x == u64::MAX {
        x
    } else {
        (x + 1) as u64
    }
}

/// Saturating counter increment, the executable side of [`bump`].
pub fn bump_counter(x: u64) -> (r: u64)
    ensures
        r == bump(x),
{
    if x == u64::MAX {
        x
    } else {
        x + 1
    }
}

/// Option fallback: the supplied value, or the queue default.
pub open spec fn eff_u64(opt: Option<u64>, dflt: u64) -> u64 {
    match opt {
        Option::None => dflt,
        Option::Some(v) => v,
    }
}

pub open spec fn eff_i64(opt: Option<i64>, dflt: i64) -> i64 {
    match opt {
        Option::None => dflt,
        Option::Some(v) => v,
    }
}

/// Per-queue configuration and counters, as held in the queue's attribute
/// hash.
#[derive(Clone, Copy, Debug, PartialEq, Eq, Structural)]
pub struct QueueConfig {
    /// Default visibility timeout, seconds.
    pub hidden: u64,
    /// Default delivery delay, seconds.
    pub delay: u64,
    /// Payload cap in bytes, or [`UNLIMITED_MAXSIZE`].
    pub maxsize: i64,
    /// Creation time, epoch milliseconds.
    pub created: u64,
    /// Last configuration change, epoch milliseconds.
    pub modified: u64,
    /// Messages ever sent to the queue.
    pub totalsent: u64,
    /// Deliveries ever made from the queue.
    pub totalrecv: u64,
}

pub open spec fn config_valid(c: QueueConfig) -> bool {
    valid_hidden(c.hidden) && valid_delay(c.delay) && valid_maxsize(c.maxsize)
}

/// The attribute snapshot returned by `get_queue_attributes` and
/// `set_queue_attributes`: the configuration plus derived message counts.
#[derive(Clone, Copy, Debug, PartialEq, Eq, Structural)]
pub struct QueueAttributes {
    pub hidden: u64,
    pub delay: u64,
    pub maxsize: i64,
    pub created: u64,
    pub modified: u64,
    pub totalsent: u64,
    pub totalrecv: u64,
    /// Messages currently in the pending index, eligible or not.
    pub msgs: u64,
    /// Messages in the index whose eligibility time lies in the future.
    pub hiddenmsgs: u64,
}

/// One message's state while it sits in a queue.
pub struct MsgRecord {
    /// Payload bytes.
    pub payload: Vec<u8>,
    /// Send time, epoch milliseconds.
    pub sent: u64,
    /// First delivery time, unset until the message is first received.
    pub fr: Option<u64>,
    /// Times the message has been delivered.
    pub rc: u64,
    /// Epoch millisecond at which the message is (again) eligible.
    pub score: u64,
}

/// Mathematical image of a [`MsgRecord`].
pub struct MsgView {
    pub payload: Seq<u8>,
    pub sent: u64,
    pub fr: Option<u64>,
    pub rc: u64,
    pub score: u64,
}

impl View for MsgRecord {
    type V = MsgView;

    open spec fn view(&self) -> MsgView {
        MsgView {
            payload: self.payload@,
            sent: self.sent,
            fr: self.fr,
            rc: self.rc,
            score: self.score,
        }
    }
}

/// A message as handed to a consumer by `receive_message` or `pop_message`.
pub struct Message {
    /// The message identifier.
    pub id: String,
    /// Payload bytes.
    pub message: Vec<u8>,
    /// Send time, epoch milliseconds.
    pub sent: u64,
    /// First delivery time, epoch milliseconds.
    pub fr: u64,
    /// Times delivered, this delivery included.
    pub rc: u64,
}

/// Mathematical image of a [`Message`].
pub struct MessageView {
    pub id: Seq<char>,
    pub message: Seq<u8>,
    pub sent: u64,
    pub fr: u64,
    pub rc: u64,
}

impl View for Message {
    type V = MessageView;

    open spec fn view(&self) -> MessageView {
        MessageView {
            id: self.id@,
            message: self.message@,
            sent: self.sent,
            fr: self.fr,
            rc: self.rc,
        }
    }
}

} // verus!
