//! The physical bounds of one execution.

use vstd::prelude::*;
use vstd::string::*;

use crate::error::{ToolError, ToolResult};
use crate::text::{decimal, decimal_of};

verus! {

/// The most events that a stream may be configured to hold.
pub const MAX_QUEUED_EVENTS_CEILING: usize = 65536;

/// The most queued output bytes that a stream may be configured to hold.
pub const MAX_QUEUED_OUTPUT_BYTES_CEILING: usize = 67108864;

/// The longest output chunk that may be configured.
pub const MAX_OUTPUT_CHUNK_BYTES_CEILING: usize = 1048576;

/// The longest grace period that may be configured, in seconds.
pub const MAX_GRACE_SECS: u64 = 600;

/// A span of time.
#[derive(Debug, Clone, Copy, PartialEq, Eq, Structural)]
pub struct Grace {
    /// Whole seconds.
    pub secs: u64,
    /// Nanoseconds besides.
    pub nanos: u32,
}

impl Grace {
    /// The span in nanoseconds.
    pub open spec fn total_nanos(self) -> int {
        self.secs * 1_000_000_000 + self.nanos
    }

    /// Less than a second is given in nanoseconds.
    pub open spec fn is_normal(self) -> bool {
        self.nanos < 1_000_000_000
    }

    /// A span of whole seconds.
    pub fn from_secs(secs: u64) -> (r: Self)
        ensures
            r == (Grace { secs, nanos: 0 }),
            r.total_nanos() == secs * 1_000_000_000,
    {
        Grace { secs, nanos: 0 }
    }

    /// A span of whole milliseconds.
    pub fn from_millis(ms: u64) -> (r: Self)
        ensures
            r == span(ms, 0),
            r.total_nanos() == ms * 1_000_000,
            r.is_normal(),
    {
        Grace::from_parts(ms, 0)
    }

    /// A span of whole milliseconds and a part of one.
    pub fn from_parts(ms: u64, rest_nanos: u32) -> (r: Self)
        requires
            rest_nanos < 1_000_000,
        ensures
            r == span(ms, rest_nanos),
            r.total_nanos() == ms * 1_000_000 + rest_nanos,
            r.is_normal(),
    {
        Grace { secs: ms / 1000, nanos: (ms % 1000) as u32 * 1_000_000 + rest_nanos }
    }

    /// Whether the span is empty.
    pub fn is_zero(&self) -> (r: bool)
        ensures
            r == (self.total_nanos() == 0),
    {
        self.secs == 0 && self.nanos == 0
    }

    /// Whether the span is longer than the ceiling.
    pub fn exceeds_ceiling(&self) -> (r: bool)
        ensures
            r == (self.total_nanos() > MAX_GRACE_SECS * 1_000_000_000),
    {
        let whole: u128 = self.secs as u128 * 1_000_000_000 + self.nanos as u128;
        whole > 600_000_000_000
    }

    /// The whole milliseconds of the span, or the greatest number where there
    /// are more.
    pub fn as_millis(&self) -> (r: u64)
        ensures
            r == (if self.total_nanos() / 1_000_000 <= u64::MAX {
                self.total_nanos() / 1_000_000
            } else {
                u64::MAX as int
            }),
    {
        let whole: u128 = self.secs as u128 * 1_000_000_000 + self.nanos as u128;
        let millis: u128 = whole / 1_000_000;
        if millis <= u64::MAX as u128 {
            millis as u64
        } else {
            u64::MAX
        }
    }

    /// The nanoseconds of the span beside its whole milliseconds.
    pub fn rest_nanos(&self) -> (r: u32)
        ensures
            r == self.total_nanos() % 1_000_000,
    {
        let whole: u128 = self.secs as u128 * 1_000_000_000 + self.nanos as u128;
        (whole % 1_000_000) as u32
    }
}

/// Why a bound is refused, if it is: a bound is positive, and none exceeds its
/// ceiling.
pub open spec fn bound_refusal(field: Seq<char>, value: int, ceiling: int) -> Option<Seq<char>> {
    if value <= 0 {
        Some(field + " must be greater than zero"@)
    } else if value > ceiling {
        Some(
            field + " = "@ + decimal(value as nat) + " exceeds the repository ceiling of "@
                + decimal(ceiling as nat),
        )
    } else {
        None
    }
}

fn check_bound(field: &str, value: usize, ceiling: usize) -> (r: ToolResult<()>)
    ensures
        match bound_refusal(field@, value as int, ceiling as int) {
            None => r is Ok,
            Some(reason) => r is Err && r->Err_0.is_denial(reason),
        },
{
    if value == 0 {
        return Err(ToolError::denied(field.to_owned().concat(" must be greater than zero")));
    }
    if value > ceiling {
        return Err(
            ToolError::denied(
                field.to_owned().concat(" = ").concat(decimal_of(value as u64).as_str()).concat(
                    " exceeds the repository ceiling of ",
                ).concat(decimal_of(ceiling as u64).as_str()),
            ),
        );
    }
    Ok(())
}

/// Bounds on the buffering and the timing of one execution. Every bound is
/// positive and within its ceiling.
#[derive(Debug, Clone, Copy, PartialEq, Eq)]
pub struct ExecutionLimits {
    max_queued_events: usize,
    max_queued_output_bytes: usize,
    max_output_chunk_bytes: usize,
    cancel_grace: Grace,
    reap_grace: Grace,
}

/// The model of [`ExecutionLimits`].
pub ghost struct LimitsView {
    pub max_queued_events: int,
    pub max_queued_output_bytes: int,
    pub max_output_chunk_bytes: int,
    pub cancel_grace: Grace,
    pub reap_grace: Grace,
}

impl View for ExecutionLimits {
    type V = LimitsView;

    closed spec fn view(&self) -> LimitsView {
        LimitsView {
            max_queued_events: self.max_queued_events as int,
            max_queued_output_bytes: self.max_queued_output_bytes as int,
            max_output_chunk_bytes: self.max_output_chunk_bytes as int,
            cancel_grace: self.cancel_grace,
            reap_grace: self.reap_grace,
        }
    }
}

impl LimitsView {
    /// Why the bounds are refused, if they are.
    pub open spec fn refusal(self) -> Option<Seq<char>> {
        let events = bound_refusal(
            "max_queued_events"@,
            self.max_queued_events,
            MAX_QUEUED_EVENTS_CEILING as int,
        );
        let bytes = bound_refusal(
            "max_queued_output_bytes"@,
            self.max_queued_output_bytes,
            MAX_QUEUED_OUTPUT_BYTES_CEILING as int,
        );
        let chunk = bound_refusal(
            "max_output_chunk_bytes"@,
            self.max_output_chunk_bytes,
            MAX_OUTPUT_CHUNK_BYTES_CEILING as int,
        );
        if events is Some {
            events
        } else if bytes is Some {
            bytes
        } else if chunk is Some {
            chunk
        } else if self.cancel_grace.total_nanos() == 0 {
            Some("cancel_grace must be greater than zero"@)
        } else if self.reap_grace.total_nanos() == 0 {
            Some("reap_grace must be greater than zero"@)
        } else if self.cancel_grace.total_nanos() > MAX_GRACE_SECS * 1_000_000_000
            || self.reap_grace.total_nanos() > MAX_GRACE_SECS * 1_000_000_000 {
            Some("execution grace periods exceed the 600s ceiling"@)
        } else if self.max_queued_events * self.max_output_chunk_bytes > usize::MAX {
            Some("execution limits overflow: max_queued_events * max_output_chunk_bytes"@)
        } else {
            None
        }
    }
}

/// The form in which limits are exchanged.
#[derive(Debug, Clone, Copy, PartialEq, Eq, Structural)]
pub struct RawExecutionLimits {
    /// The most queued events.
    pub max_queued_events: usize,
    /// The most queued output bytes.
    pub max_queued_output_bytes: usize,
    /// The longest output chunk.
    pub max_output_chunk_bytes: usize,
    /// The grace of a cancellation, in whole milliseconds.
    pub cancel_grace_ms: u64,
    /// The nanoseconds of that grace besides: less than a millisecond.
    pub cancel_grace_rest_nanos: u32,
    /// The grace of the reaper, in whole milliseconds.
    pub reap_grace_ms: u64,
    /// The nanoseconds of that grace besides: less than a millisecond.
    pub reap_grace_rest_nanos: u32,
}

impl ExecutionLimits {
    #[verifier::type_invariant]
    spec fn admissible(self) -> bool {
        self@.refusal() is None
    }

    /// Limits, unless a bound or a grace period is zero or above its ceiling, or
    /// the largest possible queue could not be counted.
    pub fn new(
        max_queued_events: usize,
        max_queued_output_bytes: usize,
        max_output_chunk_bytes: usize,
        cancel_grace: Grace,
        reap_grace: Grace,
    ) -> (r: ToolResult<Self>)
        ensures
            ({
                let asked = LimitsView {
                    max_queued_events: max_queued_events as int,
                    max_queued_output_bytes: max_queued_output_bytes as int,
                    max_output_chunk_bytes: max_output_chunk_bytes as int,
                    cancel_grace,
                    reap_grace,
                };
                match asked.refusal() {
                    None => r matches Ok(limits) && limits@ == asked,
                    Some(reason) => r is Err && r->Err_0.is_denial(reason),
                }
            }),
            cancel_grace.total_nanos() == 0 || reap_grace.total_nanos() == 0 ==> r is Err,
    {
        if let Err(e) = check_bound(
            "max_queued_events",
            max_queued_events,
            MAX_QUEUED_EVENTS_CEILING,
        ) {
            return Err(e);
        }
        if let Err(e) = check_bound(
            "max_queued_output_bytes",
            max_queued_output_bytes,
            MAX_QUEUED_OUTPUT_BYTES_CEILING,
        ) {
            return Err(e);
        }
        if let Err(e) = check_bound(
            "max_output_chunk_bytes",
            max_output_chunk_bytes,
            MAX_OUTPUT_CHUNK_BYTES_CEILING,
        ) {
            return Err(e);
        }
        if cancel_grace.is_zero() {
            return Err(ToolError::denied("cancel_grace must be greater than zero".to_owned()));
        }
        if reap_grace.is_zero() {
            return Err(ToolError::denied("reap_grace must be greater than zero".to_owned()));
        }
        if cancel_grace.exceeds_ceiling() || reap_grace.exceeds_ceiling() {
            return Err(
                ToolError::denied("execution grace periods exceed the 600s ceiling".to_owned()),
            );
        }
        if max_queued_events.checked_mul(max_output_chunk_bytes).is_none() {
            return Err(
                ToolError::denied(
                    "execution limits overflow: max_queued_events * max_output_chunk_bytes".to_owned(),
                ),
            );
        }
        Ok(
            ExecutionLimits {
                max_queued_events,
                max_queued_output_bytes,
                max_output_chunk_bytes,
                cancel_grace,
                reap_grace,
            },
        )
    }

    /// The most events held for a consumer.
    pub fn max_queued_events(&self) -> (r: usize)
        ensures
            r == self@.max_queued_events,
            0 < r <= MAX_QUEUED_EVENTS_CEILING,
    {
        proof {
            use_type_invariant(self);
        }
        self.max_queued_events
    }

    /// The most output bytes held for a consumer.
    pub fn max_queued_output_bytes(&self) -> (r: usize)
        ensures
            r == self@.max_queued_output_bytes,
            0 < r <= MAX_QUEUED_OUTPUT_BYTES_CEILING,
    {
        proof {
            use_type_invariant(self);
        }
        self.max_queued_output_bytes
    }

    /// The longest output chunk.
    pub fn max_output_chunk_bytes(&self) -> (r: usize)
        ensures
            r == self@.max_output_chunk_bytes,
            0 < r <= MAX_OUTPUT_CHUNK_BYTES_CEILING,
    {
        proof {
            use_type_invariant(self);
        }
        self.max_output_chunk_bytes
    }

    /// How long a cancellation waits before the tree is killed.
    pub fn cancel_grace(&self) -> (r: Grace)
        ensures
            r == self@.cancel_grace,
            0 < r.total_nanos() <= MAX_GRACE_SECS * 1_000_000_000,
    {
        proof {
            use_type_invariant(self);
        }
        self.cancel_grace
    }

    /// How long the reaper waits for the pipes to end once the child is gone.
    pub fn reap_grace(&self) -> (r: Grace)
        ensures
            r == self@.reap_grace,
            0 < r.total_nanos() <= MAX_GRACE_SECS * 1_000_000_000,
    {
        proof {
            use_type_invariant(self);
        }
        self.reap_grace
    }

    /// The form in which the limits are exchanged. Nothing is lost in it.
    pub fn to_raw(&self) -> (r: RawExecutionLimits)
        ensures
            r == exchange_form(self@),
            r.max_queued_events == self@.max_queued_events,
            r.max_queued_output_bytes == self@.max_queued_output_bytes,
            r.max_output_chunk_bytes == self@.max_output_chunk_bytes,
            r.cancel_grace_ms * 1_000_000 + r.cancel_grace_rest_nanos
                == self@.cancel_grace.total_nanos(),
            r.cancel_grace_rest_nanos < 1_000_000,
            r.reap_grace_ms * 1_000_000 + r.reap_grace_rest_nanos
                == self@.reap_grace.total_nanos(),
            r.reap_grace_rest_nanos < 1_000_000,
            raw_refusal(r) is None,
            same_bounds(raw_view(r), self@),
    {
        proof {
            use_type_invariant(self);
            law_exchanged_limits_come_back(self@);
        }
        RawExecutionLimits {
            max_queued_events: self.max_queued_events,
            max_queued_output_bytes: self.max_queued_output_bytes,
            max_output_chunk_bytes: self.max_output_chunk_bytes,
            cancel_grace_ms: self.cancel_grace.as_millis(),
            cancel_grace_rest_nanos: self.cancel_grace.rest_nanos(),
            reap_grace_ms: self.reap_grace.as_millis(),
            reap_grace_rest_nanos: self.reap_grace.rest_nanos(),
        }
    }

    /// Limits from the form in which they are exchanged. Every check of
    /// [`ExecutionLimits::new`] is made again, and a part of a millisecond is
    /// less than one; the refusal is given in words.
    pub fn from_raw(raw: RawExecutionLimits) -> (r: Result<Self, String>)
        ensures
            match raw_refusal(raw) {
                None => r matches Ok(limits) && limits@ == raw_view(raw),
                Some(reason) => r is Err && r->Err_0@ == "denied: "@ + reason,
            },
    {
        if raw.cancel_grace_rest_nanos >= 1_000_000 {
            return Err(
                "denied: ".to_owned().concat(
                    "cancel_grace_rest_nanos must be less than a millisecond",
                ),
            );
        }
        if raw.reap_grace_rest_nanos >= 1_000_000 {
            return Err(
                "denied: ".to_owned().concat(
                    "reap_grace_rest_nanos must be less than a millisecond",
                ),
            );
        }
        let cancel_grace: Grace = Grace::from_parts(
            raw.cancel_grace_ms,
            raw.cancel_grace_rest_nanos,
        );
        let reap_grace: Grace = Grace::from_parts(raw.reap_grace_ms, raw.reap_grace_rest_nanos);
        match ExecutionLimits::new(
            raw.max_queued_events,
            raw.max_queued_output_bytes,
            raw.max_output_chunk_bytes,
            cancel_grace,
            reap_grace,
        ) {
            Ok(limits) => Ok(limits),
            Err(e) => Err(e.message()),
        }
    }
}

/// The span of a number of milliseconds and a part of one.
pub open spec fn span(ms: u64, rest_nanos: u32) -> Grace {
    Grace { secs: ms / 1000, nanos: ((ms % 1000) * 1_000_000 + rest_nanos) as u32 }
}

/// The limits that the exchanged form asks for.
pub open spec fn raw_view(raw: RawExecutionLimits) -> LimitsView {
    LimitsView {
        max_queued_events: raw.max_queued_events as int,
        max_queued_output_bytes: raw.max_queued_output_bytes as int,
        max_output_chunk_bytes: raw.max_output_chunk_bytes as int,
        cancel_grace: span(raw.cancel_grace_ms, raw.cancel_grace_rest_nanos),
        reap_grace: span(raw.reap_grace_ms, raw.reap_grace_rest_nanos),
    }
}

/// Why an exchanged form is refused, if it is.
pub open spec fn raw_refusal(raw: RawExecutionLimits) -> Option<Seq<char>> {
    if raw.cancel_grace_rest_nanos >= 1_000_000 {
        Some("cancel_grace_rest_nanos must be less than a millisecond"@)
    } else if raw.reap_grace_rest_nanos >= 1_000_000 {
        Some("reap_grace_rest_nanos must be less than a millisecond"@)
    } else {
        raw_view(raw).refusal()
    }
}

/// The form in which admitted limits are exchanged.
pub open spec fn exchange_form(limits: LimitsView) -> RawExecutionLimits {
    RawExecutionLimits {
        max_queued_events: limits.max_queued_events as usize,
        max_queued_output_bytes: limits.max_queued_output_bytes as usize,
        max_output_chunk_bytes: limits.max_output_chunk_bytes as usize,
        cancel_grace_ms: (limits.cancel_grace.total_nanos() / 1_000_000) as u64,
        cancel_grace_rest_nanos: (limits.cancel_grace.total_nanos() % 1_000_000) as u32,
        reap_grace_ms: (limits.reap_grace.total_nanos() / 1_000_000) as u64,
        reap_grace_rest_nanos: (limits.reap_grace.total_nanos() % 1_000_000) as u32,
    }
}

/// The limits bound the same things in the same way.
pub open spec fn same_bounds(a: LimitsView, b: LimitsView) -> bool {
    &&& a.max_queued_events == b.max_queued_events
    &&& a.max_queued_output_bytes == b.max_queued_output_bytes
    &&& a.max_output_chunk_bytes == b.max_output_chunk_bytes
    &&& a.cancel_grace.total_nanos() == b.cancel_grace.total_nanos()
    &&& a.reap_grace.total_nanos() == b.reap_grace.total_nanos()
}

impl Default for ExecutionLimits {
    fn default() -> (r: Self)
        ensures
            r@ == (LimitsView {
                max_queued_events: 4096,
                max_queued_output_bytes: 8388608,
                max_output_chunk_bytes: 65536,
                cancel_grace: Grace { secs: 5, nanos: 0 },
                reap_grace: Grace { secs: 2, nanos: 0 },
            }),
    {
        ExecutionLimits {
            max_queued_events: 4096,
            max_queued_output_bytes: 8388608,
            max_output_chunk_bytes: 65536,
            cancel_grace: Grace { secs: 5, nanos: 0 },
            reap_grace: Grace { secs: 2, nanos: 0 },
        }
    }
}

/// Whatever limits are admitted, they come back from the exchange: the form is
/// accepted, and what is read back bounds the same things in the same way. With
/// grace periods in normal form they are the very same limits.
pub proof fn law_exchanged_limits_come_back(limits: LimitsView)
    requires
        limits.refusal() is None,
    ensures
        raw_refusal(exchange_form(limits)) is None,
        same_bounds(raw_view(exchange_form(limits)), limits),
        limits.cancel_grace.is_normal() && limits.reap_grace.is_normal() ==> raw_view(
            exchange_form(limits),
        ) == limits,
{
    lemma_split_span(limits.cancel_grace);
    lemma_split_span(limits.reap_grace);
}

/// A span within the ceiling is put together again from its parts.
proof fn lemma_split_span(g: Grace)
    requires
        g.total_nanos() <= MAX_GRACE_SECS * 1_000_000_000,
    ensures
        ({
            let n = g.total_nanos();
            let back = span((n / 1_000_000) as u64, (n % 1_000_000) as u32);
            back.total_nanos() == n && (g.is_normal() ==> back == g)
        }),
{
}

} // verus!
