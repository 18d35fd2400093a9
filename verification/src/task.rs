//! Task priorities, urgency information and the embedding layout.

use vstd::prelude::*;
use crate::skill::SkillTag;
use crate::text::{ascii_lower_seq, same_chars_ascii_ci};

verus! {

/// Task priority levels, ordered from lowest to highest urgency
#[derive(Clone, Copy, Debug, PartialEq, Eq, PartialOrd, Ord, Structural)]
pub enum TaskPriority {
    /// Low priority — best-effort, can be deferred
    Low,
    /// Normal priority — standard processing
    Normal,
    /// High priority — expedited processing
    High,
    /// Critical priority — immediate processing required
    Critical,
}

/// The priority named by an (already lower-cased) label, if any.
pub open spec fn priority_from_label(s: Seq<char>) -> Option<TaskPriority> {
    if s == "low"@ {
        Some(TaskPriority::Low)
    } else if s == "normal"@ {
        Some(TaskPriority::Normal)
    } else if s == "high"@ {
        Some(TaskPriority::High)
    } else if s == "critical"@ {
        Some(TaskPriority::Critical)
    } else {
        None
    }
}

impl TaskPriority {
    /// Parse from string, ignoring the case of ASCII letters
    pub fn from_str_label(s: &str) -> (r: Option<TaskPriority>)
        ensures
            r == priority_from_label(ascii_lower_seq(s@)),
    {
        if same_chars_ascii_ci(s, "low") {
            Some(TaskPriority::Low)
        } else if same_chars_ascii_ci(s, "normal") {
            Some(TaskPriority::Normal)
        } else if same_chars_ascii_ci(s, "high") {
            Some(TaskPriority::High)
        } else if same_chars_ascii_ci(s, "critical") {
            Some(TaskPriority::Critical)
        } else {
            None
        }
    }
}

/// The system clock's time type, carried through opaquely.
#[verifier::external_type_specification]
#[verifier::external_body]
pub struct ExSystemTime(std::time::SystemTime);

/// Trusted: `std::time::SystemTime::now`. Nothing is claimed of the reading:
/// it depends on the machine's clock.
#[verifier::external_body]
fn system_now() -> (r: std::time::SystemTime) {
    std::time::SystemTime::now()
}

/// Trusted: `SystemTime::duration_since(UNIX_EPOCH)`, with the error for a
/// time before the epoch turned into `None`. Nothing is claimed of the
/// duration.
#[verifier::external_body]
fn since_epoch(t: &std::time::SystemTime) -> (r: Option<core::time::Duration>) {
    t.duration_since(std::time::UNIX_EPOCH).ok()
}

/// Trusted: `Duration::as_millis`, the whole milliseconds of a duration.
/// Nothing is claimed of the count: `Duration` is opaque here.
#[verifier::external_body]
fn whole_millis(d: &core::time::Duration) -> (r: u128) {
    d.as_millis()
}

/// Milliseconds since the Unix epoch by the system clock, truncated to `u64`;
/// 0 for a clock set before the epoch.
fn current_ms() -> u64 {
    let now = system_now();
    match since_epoch(&now) {
        Some(d) => {
            let ms = whole_millis(&d);
            #[verifier::truncate]
            (ms as u64)
        },
        None => 0,
    }
}

/// Describes the time pressure on a task
#[derive(Clone, Copy, Debug, PartialEq, Eq, Structural)]
pub struct TaskUrgency {
    /// Deadline timestamp in milliseconds (0 = no deadline)
    pub deadline_ms: u64,
    /// Time estimate in milliseconds for how long the task takes
    pub estimated_duration_ms: u64,
    /// Current timestamp when urgency was computed
    pub now_ms: u64,
}

/// Time left before the deadline, in milliseconds (0 once it has passed).
pub open spec fn spec_remaining_ms(u: TaskUrgency) -> nat {
    if u.deadline_ms > u.now_ms {
        (u.deadline_ms - u.now_ms) as nat
    } else {
        0
    }
}

impl TaskUrgency {
    /// Urgency with a deadline `deadline_offset_ms` after the time `now_ms`.
    /// `None` when the deadline does not fit in a `u64`.
    pub fn with_deadline_at(now_ms: u64, deadline_offset_ms: u64, estimated_duration_ms: u64) -> (r: Option<TaskUrgency>)
        ensures
            r is None <==> now_ms + deadline_offset_ms > u64::MAX,
            r matches Some(u) ==> u == (TaskUrgency {
                deadline_ms: (now_ms + deadline_offset_ms) as u64,
                estimated_duration_ms,
                now_ms,
            }),
    {
        match now_ms.checked_add(deadline_offset_ms) {
            Some(deadline_ms) => Some(TaskUrgency { deadline_ms, estimated_duration_ms, now_ms }),
            None => None,
        }
    }

    /// Create urgency with a deadline offset from now.
    /// `None` when the clock reading plus the offset does not fit in a `u64`.
    pub fn with_deadline_from_now(deadline_offset_ms: u64, estimated_duration_ms: u64) -> (r: Option<TaskUrgency>)
        ensures
            r matches Some(u) ==> u.deadline_ms == u.now_ms + deadline_offset_ms
                && u.estimated_duration_ms == estimated_duration_ms,
            r is None ==> deadline_offset_ms > 0,
    {
        Self::with_deadline_at(current_ms(), deadline_offset_ms, estimated_duration_ms)
    }

    /// Urgency with no deadline, computed at the time `now_ms`.
    pub fn no_deadline_at(now_ms: u64, estimated_duration_ms: u64) -> (r: TaskUrgency)
        ensures
            r == (TaskUrgency { deadline_ms: 0, estimated_duration_ms, now_ms }),
    {
        TaskUrgency { deadline_ms: 0, estimated_duration_ms, now_ms }
    }

    /// Create urgency with no deadline (low urgency)
    pub fn no_deadline(estimated_duration_ms: u64) -> (r: TaskUrgency)
        ensures
            r.deadline_ms == 0,
            r.estimated_duration_ms == estimated_duration_ms,
    {
        Self::no_deadline_at(current_ms(), estimated_duration_ms)
    }

    /// Time left before the deadline in milliseconds, saturating at 0.
    pub fn remaining_ms(&self) -> (r: u64)
        ensures
            r == spec_remaining_ms(*self),
    {
        self.deadline_ms.saturating_sub(self.now_ms)
    }

    /// Whether the task is overdue
    pub fn is_overdue(&self) -> (r: bool)
        ensures
            r == (self.deadline_ms > 0 && self.now_ms > self.deadline_ms),
    {
        self.deadline_ms > 0 && self.now_ms > self.deadline_ms
    }
}

/// Embeds tasks into fixed-dimension feature vectors.
///
/// The embedding dimension is structured as:
///   [0..SkillTag::COUNT] = required skill levels (the "query" of what's needed)
///   [SkillTag::COUNT] = priority weight
///   [SkillTag::COUNT + 1] = urgency score
///   [SkillTag::COUNT + 2] = complexity
///   [SkillTag::COUNT + 3] = task difficulty (priority * complexity * urgency)
#[derive(Clone, Debug)]
pub struct TaskEmbedder {
    /// Dimension of the embedding vector
    pub embedding_dim: usize,
}

impl TaskEmbedder {
    pub fn new() -> (r: TaskEmbedder)
        ensures
            r.embedding_dim == SkillTag::COUNT + 4,
    {
        TaskEmbedder { embedding_dim: SkillTag::COUNT + 4 }
    }
}

} // verus!
