//! Delivery of messages: the rate limit, the replies of the webhook and the retries.
//!
//! Times are nanoseconds on a clock that never goes back.
use crate::text::{concat2, concat3};
use vstd::prelude::*;

verus! {

/// Discord API rate limit: 30 requests per minute per webhook
pub const RATE_LIMIT_REQUESTS: u32 = 30;

/// The length of the rate limit window.
pub const RATE_LIMIT_WINDOW_SECS: u64 = 60;

/// Maximum retries for failed webhook calls
pub const MAX_RETRIES: u32 = 3;

/// Initial backoff delay for retries (milliseconds)
pub const INITIAL_BACKOFF_MS: u64 = 1000;

/// Maximum backoff delay (milliseconds)
pub const MAX_BACKOFF_MS: u64 = 30000;

/// Nanoseconds in a second.
pub const NANOS_PER_SEC: u64 = 1_000_000_000;

/// How long to wait after a refusal that does not say, in nanoseconds.
pub const DEFAULT_RETRY_AFTER: u64 = 5_000_000_000;

/// Discord notification errors
#[derive(Debug)]
pub enum DiscordError {
    NotConfigured,
    Disabled,
    /// The request may be tried again after the given nanoseconds.
    RateLimited(u64),
    /// What the HTTP client reported.
    Http(String),
    WebhookError(String),
    /// What the serializer reported.
    Serialization(String),
    MaxRetriesExceeded,
}

/// Discord notification result
pub type DiscordResult<T> = Result<T, DiscordError>;

impl DiscordError {
    /// The text that a reader is shown; `wait` is the text of the time to wait.
    pub open spec fn text(self, wait: Seq<char>) -> Seq<char> {
        match self {
            DiscordError::NotConfigured => "Discord notifications not configured"@,
            DiscordError::Disabled => "Discord notifications disabled"@,
            DiscordError::RateLimited(_) => "Rate limited, retry after "@ + wait,
            DiscordError::Http(e) => "HTTP error: "@ + e@,
            DiscordError::WebhookError(e) => "Webhook returned error status: "@ + e@,
            DiscordError::Serialization(e) => "Serialization error: "@ + e@,
            DiscordError::MaxRetriesExceeded => "Max retries exceeded"@,
        }
    }

    /// The text that a reader is shown; `wait` is the text of the time to wait.
    pub fn message(&self, wait: &str) -> (r: String)
        ensures
            r@ == self.text(wait@),
    {
        match self {
            DiscordError::NotConfigured => "Discord notifications not configured".to_string(),
            DiscordError::Disabled => "Discord notifications disabled".to_string(),
            DiscordError::RateLimited(_) => concat2("Rate limited, retry after ", wait),
            DiscordError::Http(e) => concat2("HTTP error: ", e),
            DiscordError::WebhookError(e) => concat2("Webhook returned error status: ", e),
            DiscordError::Serialization(e) => concat2("Serialization error: ", e),
            DiscordError::MaxRetriesExceeded => "Max retries exceeded".to_string(),
        }
    }
}

// ---------------------------------------------------------------------------
// Rate limit
// ---------------------------------------------------------------------------

/// Whether a request at time `t` still counts against the limit at time `now`.
pub open spec fn counts(t: u64, window: u64, now: u64) -> bool {
    t + window > now
}

/// The requests that still count.
pub open spec fn counting(times: Seq<u64>, window: u64, now: u64) -> Seq<u64> {
    times.filter(|t: u64| counts(t, window, now))
}

/// The requests that count after a request at time `now` was asked for.
pub open spec fn after_acquire(times: Seq<u64>, max_requests: u32, window: u64, now: u64) -> Seq<
    u64,
> {
    let left = counting(times, window, now);
    if left.len() < max_requests {
        left.push(now)
    } else {
        left
    }
}

/// Rate limiter for the Discord API: so many requests in a window of time
#[derive(Debug)]
pub struct RateLimiter {
    /// Timestamps of recent requests
    pub request_times: Vec<u64>,
    /// Window duration
    pub window: u64,
    /// Maximum requests per window
    pub max_requests: u32,
}

impl RateLimiter {
    /// A limiter for so many requests in so many seconds, without requests so far.
    pub fn new(max_requests: u32, window_secs: u64) -> (r: Self)
        requires
            window_secs * NANOS_PER_SEC <= u64::MAX,
        ensures
            r.request_times@ == Seq::<u64>::empty(),
            r.max_requests == max_requests,
            r.window == window_secs * NANOS_PER_SEC,
    {
        RateLimiter {
            request_times: Vec::new(),
            window: window_secs * NANOS_PER_SEC,
            max_requests,
        }
    }

    /// Check if a request can be made, and if so, record it
    pub fn acquire(&mut self, now: u64) -> (granted: bool)
        ensures
            granted == (counting(old(self).request_times@, old(self).window, now).len()
                < old(self).max_requests),
            final(self).request_times@ == after_acquire(
                old(self).request_times@,
                old(self).max_requests,
                old(self).window,
                now,
            ),
            final(self).window == old(self).window,
            final(self).max_requests == old(self).max_requests,
    {
        let ghost times = self.request_times@;
        let mut left: Vec<u64> = Vec::new();
        let mut i: usize = 0;
        let window: u64 = self.window;
        proof {
            reveal(Seq::filter);
            assert(times.take(0) =~= seq![]);
        }
        while i < self.request_times.len()
            invariant
                i <= self.request_times.len(),
                times == self.request_times@,
                window == self.window,
                left@ == counting(times.take(i as int), window, now),
            decreases self.request_times.len() - i,
        {
            let t: u64 = self.request_times[i];
            proof {
                reveal(Seq::filter);
                assert(times.take(i + 1).drop_last() =~= times.take(i as int));
            }
            if t as u128 + window as u128 > now as u128 {
                left.push(t);
            }
            i += 1;
        }
        assert(times.take(times.len() as int) =~= times);
        let granted = (left.len() as u64) < self.max_requests as u64;
        if granted {
            left.push(now);
        }
        self.request_times = left;
        granted
    }

    /// The time until a request can be made: none where one can be made now.
    pub open spec fn wait(self, now: u64) -> Option<u64> {
        if self.request_times@.len() < self.max_requests || self.request_times@.len() == 0 {
            None
        } else if self.request_times@[0] + self.window > now {
            Some((self.request_times@[0] + self.window - now) as u64)
        } else {
            None
        }
    }

    /// Get time until next available slot
    pub fn time_until_available(&self, now: u64) -> (r: Option<u64>)
        requires
            self.request_times@.len() > 0 ==> self.request_times@[0] <= now,
        ensures
            r == self.wait(now),
    {
        if (self.request_times.len() as u64) < self.max_requests as u64 {
            return None;
        }
        if self.request_times.len() == 0 {
            return None;
        }
        let available_at: u128 = self.request_times[0] as u128 + self.window as u128;
        if available_at > now as u128 {
            Some((available_at - now as u128) as u64)
        } else {
            None
        }
    }
}

/// Times that never go back.
pub open spec fn is_rising(times: Seq<u64>) -> bool {
    forall|i: int, j: int| 0 <= i <= j < times.len() ==> times[i] <= times[j]
}

/// The requests that count after requests were asked for at the given times.
pub open spec fn state_after(asked: Seq<u64>, max_requests: u32, window: u64) -> Seq<u64>
    decreases asked.len(),
{
    if asked.len() == 0 {
        seq![]
    } else {
        after_acquire(
            state_after(asked.drop_last(), max_requests, window),
            max_requests,
            window,
            asked.last(),
        )
    }
}

/// The requests that are granted of those asked for at the given times.
pub open spec fn granted_of(asked: Seq<u64>, max_requests: u32, window: u64) -> Seq<u64>
    decreases asked.len(),
{
    if asked.len() == 0 {
        seq![]
    } else {
        let before = granted_of(asked.drop_last(), max_requests, window);
        let state = state_after(asked.drop_last(), max_requests, window);
        if counting(state, window, asked.last()).len() < max_requests {
            before.push(asked.last())
        } else {
            before
        }
    }
}

/// Of rising times those that still count are the last ones.
proof fn lemma_counting_is_a_suffix(times: Seq<u64>, window: u64, now: u64)
    requires
        is_rising(times),
    ensures
        exists|k: int|
            0 <= k <= times.len() && counting(times, window, now) == #[trigger] times.skip(k) && (
            forall|i: int| 0 <= i < k ==> !counts(#[trigger] times[i], window, now)),
    decreases times.len(),
{
    reveal(Seq::filter);
    if times.len() == 0 {
        assert(counting(times, window, now) =~= times.skip(0));
    } else {
        let front = times.drop_last();
        let last = times.last();
        lemma_counting_is_a_suffix(front, window, now);
        let k = choose|k: int|
            0 <= k <= front.len() && counting(front, window, now) == #[trigger] front.skip(k) && (
            forall|i: int| 0 <= i < k ==> !counts(#[trigger] front[i], window, now));
        if counts(last, window, now) {
            assert(counting(times, window, now) =~= times.skip(k));
            assert forall|i: int| 0 <= i < k implies !counts(#[trigger] times[i], window, now) by {
                assert(front[i] == times[i]);
            }
        } else {
            // Nothing before the last one counts either.
            assert forall|i: int| 0 <= i < times.len() implies !counts(
                #[trigger] times[i],
                window,
                now,
            ) by {
                assert(times[i] <= times[times.len() - 1]);
            }
            if k < front.len() {
                let kept = front.skip(k);
                let p = |t: u64| counts(t, window, now);
                assert(kept == front.filter(p));
                front.lemma_filter_pred(p, 0);
                assert(kept[0] == times[k]);
            }
            assert(counting(times, window, now) =~= times.skip(times.len() as int));
        }
    }
}

/// The state of the limiter is the end of the list of granted requests; what is missing from
/// it no longer counts.
proof fn lemma_state_is_a_suffix(asked: Seq<u64>, max_requests: u32, window: u64)
    requires
        is_rising(asked),
    ensures
        ({
            let granted = granted_of(asked, max_requests, window);
            let state = state_after(asked, max_requests, window);
            &&& state.len() <= granted.len()
            &&& state == granted.skip(granted.len() - state.len())
            &&& is_rising(granted)
            &&& asked.len() > 0 ==> forall|i: int|
                #![trigger granted[i]]
                0 <= i < granted.len() ==> granted[i] <= asked.last()
            &&& asked.len() == 0 ==> granted.len() == 0
            &&& forall|i: int|
                0 <= i < granted.len() - state.len() ==> !counts(
                    #[trigger] granted[i],
                    window,
                    asked.last(),
                )
        }),
    decreases asked.len(),
{
    if asked.len() == 0 {
        assert(state_after(asked, max_requests, window) =~= granted_of(
            asked,
            max_requests,
            window,
        ).skip(0));
    } else {
        let earlier = asked.drop_last();
        let now = asked.last();
        assert(is_rising(earlier));
        lemma_state_is_a_suffix(earlier, max_requests, window);
        let granted0 = granted_of(earlier, max_requests, window);
        let state0 = state_after(earlier, max_requests, window);
        let gone = granted0.len() - state0.len();
        assert forall|i: int, j: int| 0 <= i <= j < state0.len() implies state0[i] <= state0[j] by {
            assert(state0[i] == granted0[gone + i] && state0[j] == granted0[gone + j]);
        }
        lemma_counting_is_a_suffix(state0, window, now);
        let left = counting(state0, window, now);
        let k = choose|k: int|
            0 <= k <= state0.len() && left == #[trigger] state0.skip(k) && (forall|i: int|
                0 <= i < k ==> !counts(#[trigger] state0[i], window, now));
        let granted = granted_of(asked, max_requests, window);
        let state = state_after(asked, max_requests, window);
        assert forall|i: int| 0 <= i < gone + k implies !counts(
            #[trigger] granted0[i],
            window,
            now,
        ) by {
            if i < gone {
                assert(!counts(granted0[i], window, earlier.last()));
                assert(earlier.len() > 0);
                assert(earlier.last() == asked[asked.len() - 2]);
                assert(asked[asked.len() - 2] <= asked[asked.len() - 1]);
            } else {
                assert(state0[i - gone] == granted0[i]);
            }
        }
        if left.len() < max_requests {
            assert(state =~= granted.skip(granted.len() - state.len()));
            assert forall|i: int| 0 <= i < granted.len() implies #[trigger] granted[i] <= now by {
                if i < granted0.len() {
                    assert(granted[i] == granted0[i]);
                    assert(earlier.last() == asked[asked.len() - 2]);
                }
            }
            assert forall|i: int, j: int| 0 <= i <= j < granted.len() implies granted[i]
                <= granted[j] by {
                if j < granted0.len() {
                    assert(granted[i] == granted0[i] && granted[j] == granted0[j]);
                }
            }
            assert forall|i: int| 0 <= i < granted.len() - state.len() implies !counts(
                #[trigger] granted[i],
                window,
                now,
            ) by {
                assert(granted[i] == granted0[i]);
            }
        } else {
            assert(state =~= granted.skip(granted.len() - state.len()));
            assert forall|i: int| 0 <= i < granted.len() implies #[trigger] granted[i] <= now by {
                assert(earlier.last() == asked[asked.len() - 2]);
            }
        }
    }
}

/// However requests are asked for, no more than the permitted number is granted in any
/// window: the request that follows so many others is at least a window behind the first.
pub proof fn law_rate_limit_holds(asked: Seq<u64>, max_requests: u32, window: u64, i: int)
    requires
        is_rising(asked),
        0 <= i,
        i + max_requests < granted_of(asked, max_requests, window).len(),
    ensures
        granted_of(asked, max_requests, window)[i] + window <= granted_of(
            asked,
            max_requests,
            window,
        )[i + max_requests],
    decreases asked.len(),
{
    if asked.len() > 0 {
        let earlier = asked.drop_last();
        let now = asked.last();
        assert(is_rising(earlier));
        let granted0 = granted_of(earlier, max_requests, window);
        let state0 = state_after(earlier, max_requests, window);
        let granted = granted_of(asked, max_requests, window);
        if i + max_requests < granted0.len() {
            law_rate_limit_holds(earlier, max_requests, window, i);
            assert(granted[i] == granted0[i]);
            assert(granted[i + max_requests] == granted0[i + max_requests]);
        } else {
            // The last request was granted just now, so few enough others still count.
            lemma_state_is_a_suffix(asked, max_requests, window);
            let state = state_after(asked, max_requests, window);
            assert(state.len() <= max_requests);
            assert(!counts(granted[i], window, now));
            assert(granted[i + max_requests] == now);
        }
    }
}

// ---------------------------------------------------------------------------
// Replies of the webhook
// ---------------------------------------------------------------------------

/// Whether a status code means success.
pub open spec fn is_success(status: u16) -> bool {
    200 <= status < 300
}

/// What a reply with the given status means. `status_text` is the text of the status,
/// `retry_after` the time in nanoseconds that the reply asks to wait, `body` what it says.
pub fn classify_reply(status: u16, status_text: &str, retry_after: Option<u64>, body: &str) -> (r:
    DiscordResult<()>)
    ensures
        r is Ok <==> is_success(status),
        status == 429 ==> r == Err::<(), DiscordError>(
            DiscordError::RateLimited(
                match retry_after {
                    Some(wait) => wait,
                    None => DEFAULT_RETRY_AFTER,
                },
            ),
        ),
        !is_success(status) && status != 429 ==> (r matches Err(DiscordError::WebhookError(e))
            && e@ == "Status "@ + status_text@ + ": "@ + body@),
{
    if 200 <= status && status < 300 {
        Ok(())
    } else if status == 429 {
        let wait: u64 = match retry_after {
            Some(wait) => wait,
            None => DEFAULT_RETRY_AFTER,
        };
        Err(DiscordError::RateLimited(wait))
    } else {
        let mut text = concat3("Status ", status_text, ": ");
        text.push_str(body);
        Err(DiscordError::WebhookError(text))
    }
}

/// What a reply to a plain text message means.
pub fn classify_text_reply(status: u16, body: &str) -> (r: DiscordResult<()>)
    ensures
        r is Ok <==> is_success(status),
        !is_success(status) ==> (r matches Err(DiscordError::WebhookError(e)) && e@ == body@),
{
    if 200 <= status && status < 300 {
        Ok(())
    } else {
        Err(DiscordError::WebhookError(body.to_string()))
    }
}

/// Whether a plain text message may be posted: the rate limit refuses it where no slot was
/// granted and the limiter says how long to wait.
pub fn check_text_slot(granted: bool, wait: Option<u64>) -> (r: DiscordResult<()>)
    ensures
        r is Ok <==> granted || wait is None,
        !granted && wait is Some ==> r == Err::<(), DiscordError>(DiscordError::RateLimited(wait->0)),
{
    if !granted {
        if let Some(wait) = wait {
            return Err(DiscordError::RateLimited(wait));
        }
    }
    Ok(())
}

// ---------------------------------------------------------------------------
// Retries
// ---------------------------------------------------------------------------

/// How far the delivery of one message has come.
#[derive(Debug, Clone, Copy, PartialEq, Eq, Structural)]
pub struct Delivery {
    /// The attempts that have been used up.
    pub attempt: u32,
    /// How long to wait after the next failure, in milliseconds.
    pub backoff_ms: u64,
}

/// What to do once the rate limiter has been asked.
#[derive(Debug, Clone, Copy, PartialEq, Eq, Structural)]
pub enum SlotStep {
    /// Post the message.
    Post,
    /// Wait so many nanoseconds and ask again.
    Wait(u64),
}

/// What to do once the webhook has replied.
#[derive(Debug)]
pub enum ReplyStep {
    /// The message has been sent.
    Sent,
    /// Wait so many nanoseconds and ask for another attempt.
    Wait(u64),
    /// Wait so many milliseconds and ask for another attempt.
    BackOff(u64),
    /// The message has failed.
    Failed(DiscordError),
}

/// The delay that follows another one.
pub open spec fn next_backoff(backoff_ms: u64) -> u64 {
    if 2 * backoff_ms < MAX_BACKOFF_MS {
        (2 * backoff_ms) as u64
    } else {
        MAX_BACKOFF_MS
    }
}

/// What happens during one attempt.
pub enum AttemptEvent {
    /// No slot was granted, and the limiter said how long to wait.
    NoSlot,
    /// The message was posted and the webhook refused it by its rate limit.
    Refused,
    /// The message was posted and failed.
    Failure,
    /// The message was posted and taken.
    Success,
}

impl AttemptEvent {
    /// What a reply to a posted message is.
    pub open spec fn of_reply(reply: DiscordResult<()>) -> Self {
        match reply {
            Ok(_) => AttemptEvent::Success,
            Err(DiscordError::RateLimited(_)) => AttemptEvent::Refused,
            Err(_) => AttemptEvent::Failure,
        }
    }
}

/// The delivery after one attempt, and whether it is over.
pub open spec fn after_attempt(d: Delivery, event: AttemptEvent) -> (Delivery, bool) {
    match event {
        AttemptEvent::NoSlot | AttemptEvent::Refused => (
            Delivery { attempt: (d.attempt + 1) as u32, backoff_ms: d.backoff_ms },
            d.attempt + 1 >= MAX_RETRIES,
        ),
        AttemptEvent::Failure => if d.attempt < MAX_RETRIES - 1 {
            (
                Delivery {
                    attempt: (d.attempt + 1) as u32,
                    backoff_ms: next_backoff(d.backoff_ms),
                },
                false,
            )
        } else {
            (d, true)
        },
        AttemptEvent::Success => (d, true),
    }
}

impl Delivery {
    /// Whether the delivery is in a state that it can come to.
    pub open spec fn wf(self) -> bool {
        &&& self.attempt <= MAX_RETRIES
        &&& INITIAL_BACKOFF_MS <= self.backoff_ms <= MAX_BACKOFF_MS
    }

    /// A delivery at its start.
    pub open spec fn start() -> Self {
        Delivery { attempt: 0, backoff_ms: INITIAL_BACKOFF_MS }
    }

    /// A delivery at its start.
    pub fn new() -> (r: Self)
        ensures
            r == Self::start(),
            r.wf(),
    {
        Delivery { attempt: 0, backoff_ms: INITIAL_BACKOFF_MS }
    }

    /// Whether an attempt is left.
    pub fn has_attempt(&self) -> (r: bool)
        ensures
            r == (self.attempt < MAX_RETRIES),
    {
        self.attempt < MAX_RETRIES
    }

    /// The error of a delivery that has used up its attempts.
    pub fn exhausted(&self) -> (e: DiscordError)
        requires
            self.attempt == MAX_RETRIES,
        ensures
            e is MaxRetriesExceeded,
    {
        DiscordError::MaxRetriesExceeded
    }

    /// Go on once the rate limiter has been asked. An attempt is used up by waiting for a slot.
    pub fn on_slot(&mut self, granted: bool, wait: Option<u64>) -> (step: SlotStep)
        requires
            old(self).wf(),
            old(self).attempt < MAX_RETRIES,
        ensures
            final(self).wf(),
            !granted && wait is Some ==> step == SlotStep::Wait(wait->0) && *final(self)
                == after_attempt(*old(self), AttemptEvent::NoSlot).0,
            granted || wait is None ==> step == SlotStep::Post && *final(self) == *old(self),
    {
        if !granted {
            if let Some(wait) = wait {
                self.attempt = self.attempt + 1;
                return SlotStep::Wait(wait);
            }
        }
        SlotStep::Post
    }

    /// Go on once the webhook has replied. A refusal by the rate limit is waited out; another
    /// failure is tried again after a delay that doubles, unless it was the last attempt.
    pub fn on_reply(&mut self, reply: DiscordResult<()>) -> (step: ReplyStep)
        requires
            old(self).wf(),
            old(self).attempt < MAX_RETRIES,
        ensures
            final(self).wf(),
            ({
                let (next, over) = after_attempt(*old(self), AttemptEvent::of_reply(reply));
                &&& *final(self) == next
                &&& over == (step is Sent || step is Failed || final(self).attempt
                    == MAX_RETRIES)
            }),
            match reply {
                Ok(_) => step is Sent,
                Err(DiscordError::RateLimited(wait)) => step == ReplyStep::Wait(wait),
                Err(e) => if old(self).attempt < MAX_RETRIES - 1 {
                    step == ReplyStep::BackOff(old(self).backoff_ms)
                } else {
                    step == ReplyStep::Failed(e)
                },
            },
    {
        match reply {
            Ok(_) => ReplyStep::Sent,
            Err(DiscordError::RateLimited(wait)) => {
                self.attempt = self.attempt + 1;
                ReplyStep::Wait(wait)
            },
            Err(e) => if self.attempt < MAX_RETRIES - 1 {
                let delay: u64 = self.backoff_ms;
                self.attempt = self.attempt + 1;
                self.backoff_ms = if 2 * delay < MAX_BACKOFF_MS {
                    2 * delay
                } else {
                    MAX_BACKOFF_MS
                };
                ReplyStep::BackOff(delay)
            } else {
                ReplyStep::Failed(e)
            },
        }
    }
}

/// How often a message is posted while the given events happen.
pub open spec fn posts(d: Delivery, events: Seq<AttemptEvent>) -> nat
    decreases events.len(),
{
    if events.len() == 0 || d.attempt >= MAX_RETRIES {
        0
    } else {
        let (next, over) = after_attempt(d, events[0]);
        let rest = if over {
            0
        } else {
            posts(next, events.drop_first())
        };
        if events[0] is NoSlot {
            rest
        } else {
            1 + rest
        }
    }
}

/// How a delivery ends while the given events happen: whether the message was sent, once the
/// delivery is over.
pub open spec fn ending(d: Delivery, events: Seq<AttemptEvent>) -> Option<bool>
    decreases events.len(),
{
    if d.attempt >= MAX_RETRIES {
        Some(false)
    } else if events.len() == 0 {
        None
    } else {
        let (next, over) = after_attempt(d, events[0]);
        if over {
            Some(events[0] is Success)
        } else {
            ending(next, events.drop_first())
        }
    }
}

/// The counts while the given events happen: a delivery that is over counts.
pub open spec fn counts_after(
    counts: MessageCounts,
    d: Delivery,
    events: Seq<AttemptEvent>,
) -> MessageCounts
    decreases events.len(),
{
    if d.attempt >= MAX_RETRIES {
        counts.counted(false)
    } else if events.len() == 0 {
        counts
    } else {
        let (next, over) = after_attempt(d, events[0]);
        match events[0] {
            AttemptEvent::Success => counts.counted(true),
            AttemptEvent::Failure if over => counts.counted(false),
            _ => counts_after(counts, next, events.drop_first()),
        }
    }
}

/// A delivery is over after as many events as it has attempts, and a delivery that is over has
/// counted exactly one message: as sent if it was sent, else as failed.
pub proof fn law_a_delivery_counts_one_message(
    counts: MessageCounts,
    d: Delivery,
    events: Seq<AttemptEvent>,
)
    requires
        d.wf(),
    ensures
        counts_after(counts, d, events) == (match ending(d, events) {
            Some(sent) => counts.counted(sent),
            None => counts,
        }),
        events.len() >= MAX_RETRIES - d.attempt ==> ending(d, events) is Some,
        ending(d, events) == Some(true) ==> exists|i: int|
            0 <= i < events.len() && (#[trigger] events[i]) is Success,
    decreases events.len(),
{
    if events.len() > 0 && d.attempt < MAX_RETRIES {
        let (next, over) = after_attempt(d, events[0]);
        let rest = events.drop_first();
        if !over {
            law_a_delivery_counts_one_message(counts, next, rest);
            if ending(next, rest) == Some(true) {
                let i = choose|i: int| 0 <= i < rest.len() && (#[trigger] rest[i]) is Success;
                assert(events[i + 1] is Success);
            }
        } else if events[0] is NoSlot || events[0] is Refused {
            assert(counts_after(counts, next, rest) == counts.counted(false));
        } else if events[0] is Success {
            assert(events[0] is Success);
        }
    }
}

/// Whatever happens, a message is posted at most as often as there are attempts.
pub proof fn law_a_message_is_posted_a_bounded_number_of_times(
    d: Delivery,
    events: Seq<AttemptEvent>,
)
    requires
        d.wf(),
    ensures
        posts(d, events) <= MAX_RETRIES - d.attempt,
    decreases events.len(),
{
    if events.len() > 0 && d.attempt < MAX_RETRIES {
        let (next, over) = after_attempt(d, events[0]);
        if !over {
            law_a_message_is_posted_a_bounded_number_of_times(next, events.drop_first());
        }
    }
}

/// The delays between failures never shrink and never pass the maximum.
pub proof fn law_backoff_grows_to_its_maximum(backoff_ms: u64)
    requires
        INITIAL_BACKOFF_MS <= backoff_ms <= MAX_BACKOFF_MS,
    ensures
        backoff_ms <= next_backoff(backoff_ms) <= MAX_BACKOFF_MS,
        next_backoff(backoff_ms) == backoff_ms ==> backoff_ms == MAX_BACKOFF_MS,
{
}

/// Counts of messages
#[derive(Debug, Clone, Copy, PartialEq, Eq, Structural)]
pub struct MessageCounts {
    /// Count of sent messages
    pub sent: u64,
    /// Count of failed messages
    pub failed: u64,
}

impl MessageCounts {
    /// The counts after one more message. A count that has reached its maximum starts again
    /// from zero.
    pub open spec fn counted(self, delivered: bool) -> Self {
        if delivered {
            MessageCounts { sent: self.sent.wrapping_add(1), failed: self.failed }
        } else {
            MessageCounts { sent: self.sent, failed: self.failed.wrapping_add(1) }
        }
    }

    /// No messages so far.
    pub fn new() -> (r: Self)
        ensures
            r.sent == 0,
            r.failed == 0,
    {
        MessageCounts { sent: 0, failed: 0 }
    }

    /// Count what a reply has brought to an end, and hand out the result of the delivery; a
    /// delivery that goes on counts nothing.
    pub fn count_ending(&mut self, step: ReplyStep) -> (r: Option<DiscordResult<()>>)
        ensures
            match step {
                ReplyStep::Sent => {
                    &&& r == Some(Ok::<(), DiscordError>(()))
                    &&& *final(self) == old(self).counted(true)
                },
                ReplyStep::Failed(e) => {
                    &&& r == Some(Err::<(), DiscordError>(e))
                    &&& *final(self) == old(self).counted(false)
                },
                _ => r is None && *final(self) == *old(self),
            },
    {
        match step {
            ReplyStep::Sent => {
                self.count(true);
                Some(Ok(()))
            },
            ReplyStep::Failed(e) => {
                self.count(false);
                Some(Err(e))
            },
            _ => None,
        }
    }

    /// Count a delivery that has used up its attempts, and hand out its error.
    pub fn count_exhausted(&mut self, delivery: &Delivery) -> (e: DiscordError)
        requires
            delivery.attempt == MAX_RETRIES,
        ensures
            e is MaxRetriesExceeded,
            *final(self) == old(self).counted(false),
            *final(self) == counts_after(*old(self), *delivery, seq![]),
    {
        self.count(false);
        delivery.exhausted()
    }

    /// Count the reply to a plain text message.
    pub fn count_text_reply(&mut self, status: u16)
        ensures
            *final(self) == old(self).counted(is_success(status)),
    {
        self.count(200 <= status && status < 300);
    }

    /// Count a message that was sent, or one that failed.
    pub fn count(&mut self, delivered: bool)
        ensures
            *final(self) == old(self).counted(delivered),
    {
        if delivered {
            self.sent = self.sent.wrapping_add(1);
        } else {
            self.failed = self.failed.wrapping_add(1);
        }
    }
}

/// A request counts for one window of time, and no longer.
pub proof fn law_a_request_counts_for_one_window(t: u64, window: u64, now: u64)
    requires
        t <= now,
    ensures
        counts(t, window, now) <==> now - t < window,
{
}

/// The wait that the limiter names is exact: a request that is made after it is granted, and one
/// that is made before it is over is refused. Where no wait is named, a request is granted now.
pub proof fn law_the_wait_is_exact(limiter: RateLimiter, now: u64, later: u64)
    requires
        is_rising(limiter.request_times@),
        0 < limiter.max_requests,
        limiter.request_times@.len() <= limiter.max_requests,
        now <= later,
    ensures
        ({
            let granted = |t: u64|
                counting(limiter.request_times@, limiter.window, t).len() < limiter.max_requests;
            &&& limiter.wait(now) is None ==> granted(now)
            &&& limiter.wait(now) matches Some(w) ==> (limiter.request_times@[0] <= now ==> {
                &&& later - now < w ==> !granted(later)
                &&& later - now >= w ==> granted(later)
            })
        }),
{
    let (times, window) = (limiter.request_times@, limiter.window);
    lemma_first_decides(times, window, now);
    lemma_first_decides(times, window, later);
}

/// Of rising times either all count, or the first one does not.
proof fn lemma_first_decides(times: Seq<u64>, window: u64, now: u64)
    requires
        is_rising(times),
    ensures
        times.len() > 0 && counts(times[0], window, now) ==> counting(times, window, now).len()
            == times.len(),
        times.len() > 0 && !counts(times[0], window, now) ==> counting(times, window, now).len()
            < times.len(),
        times.len() == 0 ==> counting(times, window, now).len() == 0,
{
    lemma_counting_is_a_suffix(times, window, now);
    let k = choose|k: int|
        0 <= k <= times.len() && counting(times, window, now) == #[trigger] times.skip(k) && (
        forall|i: int| 0 <= i < k ==> !counts(#[trigger] times[i], window, now));
    if times.len() > 0 && !counts(times[0], window, now) && k == 0 {
        let p = |t: u64| counts(t, window, now);
        assert(times.skip(0) =~= times);
        assert(times.filter(p) == times);
        times.lemma_filter_pred(p, 0);
    }
}

/// A failure doubles the delay before the next attempt, up to the maximum, and uses up one attempt;
/// waiting for a slot uses up an attempt and leaves the delay; a message that was taken ends the
/// delivery, and so does the last failure.
pub proof fn law_failures_double_the_delay(d: Delivery)
    requires
        d.wf(),
        d.attempt < MAX_RETRIES,
    ensures
        ({
            let (next, over) = after_attempt(d, AttemptEvent::Failure);
            let (waited, gone) = after_attempt(d, AttemptEvent::NoSlot);
            &&& over <==> d.attempt + 1 == MAX_RETRIES
            &&& !over ==> next.attempt == d.attempt + 1
            &&& !over && 2 * d.backoff_ms <= MAX_BACKOFF_MS ==> next.backoff_ms == 2 * d.backoff_ms
            &&& !over && 2 * d.backoff_ms >= MAX_BACKOFF_MS ==> next.backoff_ms == MAX_BACKOFF_MS
            &&& waited.attempt == d.attempt + 1
            &&& waited.backoff_ms == d.backoff_ms
            &&& gone <==> d.attempt + 1 == MAX_RETRIES
            &&& after_attempt(d, AttemptEvent::Refused) == after_attempt(d, AttemptEvent::NoSlot)
            &&& after_attempt(d, AttemptEvent::Success).1
        }),
{
}

} // verus!
