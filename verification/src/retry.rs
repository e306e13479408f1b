use vstd::prelude::*;

use crate::messages::ContentBlock;
use crate::tasks::{decimal, decimal_string};
use crate::text::{
    all_digits, byte_len, char_index, char_index_exec, chars_of, copy_str, digits_value, is_ascii_digit, is_boundary,
    lemma_digits_prefix_grows, push_range, push_str, string_len,
};

verus! {

// ---------------------------------------------------------------------------
// Backoff
// ---------------------------------------------------------------------------

/// Retries of a request after the first attempt.
pub const MAX_RETRIES: u32 = 5;

/// Retries of a stream after the first attempt.
pub const STREAM_RETRIES: u32 = 2;

/// The first backoff delay, in milliseconds.
pub const BASE_DELAY_MS: u64 = 1000;

/// The longest wait between two attempts, in milliseconds.
pub const MAX_DELAY_MS: u64 = 60_000;

/// The exponential backoff before retry number `attempt + 1`:
/// `BASE_DELAY_MS * 2^attempt`.
pub open spec fn backoff_ms(attempt: nat) -> nat
    decreases attempt,
{
    if attempt == 0 {
        BASE_DELAY_MS as nat
    } else {
        2 * backoff_ms((attempt - 1) as nat)
    }
}

proof fn lemma_backoff_mono(a: nat, b: nat)
    requires
        a <= b,
    ensures
        backoff_ms(a) <= backoff_ms(b),
    decreases b,
{
    if a < b {
        lemma_backoff_mono(a, (b - 1) as nat);
    }
}

/// The backoff is a whole number of seconds.
proof fn lemma_backoff_whole_seconds(a: nat)
    ensures
        backoff_ms(a) % 1000 == 0,
        backoff_ms(a) >= 1000,
    decreases a,
{
    if a > 0 {
        lemma_backoff_whole_seconds((a - 1) as nat);
    }
}

/// The backoff as a power of two.
proof fn lemma_backoff_pow2(a: nat)
    ensures
        backoff_ms(a) == 1000 * vstd::arithmetic::power2::pow2(a),
    decreases a,
{
    if a == 0 {
        vstd::arithmetic::power2::lemma2_to64();
    } else {
        lemma_backoff_pow2((a - 1) as nat);
        vstd::arithmetic::power2::lemma_pow2_unfold(a);
    }
}

/// `BASE_DELAY_MS * 2^attempt`; beyond attempt 54 the product no longer fits
/// in `u64`.
pub fn backoff_delay(attempt: u32) -> (d: u64)
    requires
        attempt <= 54,
    ensures
        d == backoff_ms(attempt as nat),
{
    proof {
        lemma_backoff_mono(attempt as nat, 54);
        lemma_backoff_pow2(54);
        vstd::arithmetic::power2::lemma2_to64_rest();
        assert(vstd::arithmetic::power2::pow2(54) == 0x40000000000000);
        assert(backoff_ms(54) == 18014398509481984000);
    }
    let mut d: u64 = BASE_DELAY_MS;
    let mut i: u32 = 0;
    while i < attempt
        invariant
            i <= attempt <= 54,
            d == backoff_ms(i as nat),
            backoff_ms(attempt as nat) <= 18014398509481984000,
        decreases attempt - i,
    {
        proof {
            lemma_backoff_mono((i + 1) as nat, attempt as nat);
        }
        d = d * 2;
        i = i + 1;
    }
    d
}

// ---------------------------------------------------------------------------
// Retry-After
// ---------------------------------------------------------------------------

/// `u64::from_str`: an optional `+`, then decimal digits whose value fits.
pub open spec fn parse_u64_spec(s: Seq<char>) -> Option<u64> {
    let d = if s.len() > 0 && s[0] == '+' {
        s.drop_first()
    } else {
        s
    };
    if d.len() > 0 && all_digits(d) && digits_value(d) <= u64::MAX {
        Some(digits_value(d) as u64)
    } else {
        None
    }
}

/// Parses a `Retry-After` header value as whole seconds.
pub fn parse_retry_after(text: &str) -> (r: Option<u64>)
    ensures
        r == parse_u64_spec(text@),
{
    let v = chars_of(text);
    let ghost s = v@;
    let start: usize = if v.len() > 0 && v[0] == '+' {
        1
    } else {
        0
    };
    let ghost d = v@.subrange(start as int, v.len() as int);
    assert(d =~= (if s.len() > 0 && s[0] == '+' {
        s.drop_first()
    } else {
        s
    }));
    if start == v.len() {
        return None;
    }
    let mut acc: u128 = 0;
    let mut i = start;
    while i < v.len()
        invariant
            start <= i <= v.len(),
            s == v@,
            s == text@,
            d == v@.subrange(start as int, v.len() as int),
            parse_u64_spec(s) == (if d.len() > 0 && all_digits(d) && digits_value(d) <= u64::MAX {
                Some(digits_value(d) as u64)
            } else {
                None
            }),
            all_digits(v@.subrange(start as int, i as int)),
            acc == digits_value(v@.subrange(start as int, i as int)),
            acc <= u64::MAX,
        decreases v.len() - i,
    {
        let c = v[i];
        if !('0' <= c && c <= '9') {
            assert(d[i - start] == c);
            return None;
        }
        let ghost prev = v@.subrange(start as int, i as int);
        let next: u128 = acc * 10 + ((c as u128) - ('0' as u128));
        proof {
            let cur = v@.subrange(start as int, i + 1);
            assert(cur.drop_last() =~= prev);
            assert(cur.last() == c);
            assert forall|j: int| 0 <= j < cur.len() implies is_ascii_digit(#[trigger] cur[j]) by {
                if j < prev.len() {
                    assert(cur[j] == prev[j]);
                }
            }
        }
        if next > 18446744073709551615 {
            proof {
                lemma_digits_prefix_grows(d, i + 1 - start);
                assert(v@.subrange(start as int, i + 1) =~= d.take(i + 1 - start));
            }
            return None;
        }
        acc = next;
        i = i + 1;
    }
    assert(v@.subrange(start as int, v.len() as int) =~= d);
    Some(acc as u64)
}

// ---------------------------------------------------------------------------
// Sending a request
// ---------------------------------------------------------------------------

/// What one attempt at sending a request came to.
#[derive(Debug, Clone, PartialEq, Eq)]
pub enum SendOutcome {
    /// A response with this status code, and its `Retry-After` header when
    /// it is present and readable.
    Status { code: u16, retry_after: Option<String> },
    /// The request timed out.
    Timeout,
    /// The request failed in another way.
    Failed,
}

/// What to do after an attempt.
#[derive(Debug, Clone, PartialEq, Eq)]
pub enum SendAction {
    /// Hand the response over.
    Deliver,
    /// Return the request's error.
    Fail,
    /// Read the response body and fail with an API error.
    GiveUp,
    /// Wait this long, report the notice if there is one, and try again.
    Wait { delay_ms: u64, notice: Option<String> },
}

/// A [`SendAction`] as plain values.
pub enum SendPlan {
    Deliver,
    Fail,
    GiveUp,
    Wait(nat, Option<Seq<char>>),
}

pub open spec fn send_plan_of(a: SendAction) -> SendPlan {
    match a {
        SendAction::Deliver => SendPlan::Deliver,
        SendAction::Fail => SendPlan::Fail,
        SendAction::GiveUp => SendPlan::GiveUp,
        SendAction::Wait { delay_ms, notice } => SendPlan::Wait(
            delay_ms as nat,
            match notice {
                Some(n) => Some(n@),
                None => None,
            },
        ),
    }
}

/// Rate limits, overload and server errors are worth retrying.
pub open spec fn retryable(code: u16) -> bool {
    code == 429 || code == 529 || code >= 500
}

/// A status in `200..300`.
pub open spec fn is_success(code: u16) -> bool {
    200 <= code < 300
}

/// The seconds a `Retry-After` header asks for, when it holds a number.
pub open spec fn retry_after_secs(h: Option<String>) -> Option<u64> {
    match h {
        Some(t) => parse_u64_spec(t@),
        None => None,
    }
}

/// The wait before retrying a status: what `Retry-After` asks for, else the
/// backoff; at most a minute.
pub open spec fn status_delay(attempt: nat, h: Option<String>) -> nat {
    let d: nat = match retry_after_secs(h) {
        Some(s) => (s * 1000) as nat,
        None => backoff_ms(attempt),
    };
    if d < MAX_DELAY_MS {
        d
    } else {
        MAX_DELAY_MS as nat
    }
}

/// The notice shown while waiting out a status, the delay in seconds with
/// one decimal.
pub open spec fn rate_notice(code: u16, delay_ms: nat) -> Seq<char> {
    "Rate limited ("@ + decimal(code as nat) + "), retrying in "@ + decimal(delay_ms / 1000) + ".0s..."@
}

/// The decision after attempt number `attempt` (counting from 0): a
/// success is delivered; a timeout is retried after the backoff while
/// retries are left; a retryable status is retried after its delay, with a
/// notice, while retries are left; anything else ends the request.
pub open spec fn send_plan(attempt: nat, o: SendOutcome) -> SendPlan {
    match o {
        SendOutcome::Timeout => if attempt < MAX_RETRIES {
            SendPlan::Wait(backoff_ms(attempt), None)
        } else {
            SendPlan::Fail
        },
        SendOutcome::Failed => SendPlan::Fail,
        SendOutcome::Status { code, retry_after } => if is_success(code) {
            SendPlan::Deliver
        } else if !retryable(code) || attempt >= MAX_RETRIES {
            SendPlan::GiveUp
        } else {
            let d = status_delay(attempt, retry_after);
            SendPlan::Wait(d, Some(rate_notice(code, d)))
        },
    }
}

/// The `Retry-After` seconds of a retried status overflow `u64` once turned
/// into milliseconds.
pub open spec fn send_overflows(attempt: nat, o: SendOutcome) -> bool {
    match o {
        SendOutcome::Status { code, retry_after } => !is_success(code) && retryable(code) && attempt
            < MAX_RETRIES && (retry_after_secs(retry_after) matches Some(s) && s * 1000 > u64::MAX),
        _ => false,
    }
}

/// Decides what follows attempt number `attempt` at sending a request.
pub fn send_decision(attempt: u32, outcome: &SendOutcome) -> (a: SendAction)
    requires
        attempt <= MAX_RETRIES,
        !send_overflows(attempt as nat, *outcome),
    ensures
        send_plan_of(a) == send_plan(attempt as nat, *outcome),
{
    match outcome {
        SendOutcome::Timeout => {
            if attempt < MAX_RETRIES {
                SendAction::Wait { delay_ms: backoff_delay(attempt), notice: None }
            } else {
                SendAction::Fail
            }
        },
        SendOutcome::Failed => SendAction::Fail,
        SendOutcome::Status { code, retry_after } => {
            let code = *code;
            if 200 <= code && code < 300 {
                return SendAction::Deliver;
            }
            let is_retryable = code == 429 || code == 529 || code >= 500;
            if !is_retryable || attempt >= MAX_RETRIES {
                return SendAction::GiveUp;
            }
            let secs = match retry_after {
                Some(h) => parse_retry_after(h.as_str()),
                None => None,
            };
            let d0: u64 = match secs {
                Some(s) => s * 1000,
                None => backoff_delay(attempt),
            };
            let delay = if d0 < MAX_DELAY_MS {
                d0
            } else {
                MAX_DELAY_MS
            };
            let mut notice = copy_str("Rate limited (");
            push_str(&mut notice, decimal_string(code as u64).as_str());
            push_str(&mut notice, "), retrying in ");
            push_str(&mut notice, decimal_string(delay / 1000).as_str());
            push_str(&mut notice, ".0s...");
            SendAction::Wait { delay_ms: delay, notice: Some(notice) }
        },
    }
}

/// The first 500 bytes of a response body, or all of it when shorter.
pub open spec fn body_head(body: Seq<char>) -> Seq<char> {
    if byte_len(body) <= 500 {
        body
    } else {
        body.take(char_index(body, 500))
    }
}

/// The error for a response that is not retried: its status, then at most
/// 500 bytes of its body. `status` is the status as the HTTP client writes
/// it; the cut must fall on a character boundary.
pub fn api_error_message(status: &str, body: &str) -> (r: String)
    requires
        byte_len(body@) > 500 ==> is_boundary(body@, 500),
    ensures
        r@ == "API error ("@ + status@ + "): "@ + body_head(body@),
{
    let c = chars_of(body);
    let owned = copy_str(body);
    let total = string_len(&owned);
    let mut r = copy_str("API error (");
    push_str(&mut r, status);
    push_str(&mut r, "): ");
    if total <= 500 {
        push_str(&mut r, body);
    } else {
        let k = char_index_exec(&c, 500, total);
        push_range(&mut r, &c, 0, k);
        assert(c@.subrange(0, k as int) =~= c@.take(k as int));
    }
    r
}

// ---------------------------------------------------------------------------
// Reading a stream
// ---------------------------------------------------------------------------

/// How reading a response stream failed.
#[derive(Debug, Clone, PartialEq, Eq)]
pub enum StreamFailure {
    /// The stream broke off; `has_content` when some content had arrived.
    Interrupted { has_content: bool },
    /// Any other failure.
    Other,
}

/// What to do after a failed stream.
#[derive(Debug, Clone, PartialEq, Eq)]
pub enum StreamAction {
    /// Report the notice, keep the partial answer and ask for the rest.
    Recover { notice: String },
    /// Report the notice, wait, and send the request again.
    Reconnect { notice: String, delay_ms: u64 },
    /// Give up with the stream's error.
    Fail,
}

/// The decision after stream attempt number `attempt` failed: with retries
/// left, a stream interrupted after some content is recovered and any other
/// failure reconnects after the backoff; without, the error stands.
pub open spec fn stream_action_ok(attempt: nat, f: StreamFailure, a: StreamAction) -> bool {
    if attempt < STREAM_RETRIES {
        if f matches StreamFailure::Interrupted { has_content: true } {
            a matches StreamAction::Recover { notice } && notice@ == "Stream interrupted, recovering..."@
        } else {
            a matches StreamAction::Reconnect { notice, delay_ms } && notice@
                == "Stream interrupted, reconnecting..."@ && delay_ms == backoff_ms(attempt)
        }
    } else {
        a is Fail
    }
}

/// Decides what follows a failed stream attempt number `attempt`.
pub fn stream_decision(attempt: u32, failure: &StreamFailure) -> (a: StreamAction)
    requires
        attempt <= STREAM_RETRIES,
    ensures
        stream_action_ok(attempt as nat, *failure, a),
{
    if attempt < STREAM_RETRIES {
        match failure {
            StreamFailure::Interrupted { has_content: true } => {
                return StreamAction::Recover { notice: copy_str("Stream interrupted, recovering...") };
            },
            _ => {},
        }
        StreamAction::Reconnect {
            notice: copy_str("Stream interrupted, reconnecting..."),
            delay_ms: backoff_delay(attempt),
        }
    } else {
        StreamAction::Fail
    }
}

/// A block worth keeping from an interrupted answer: non-empty text, or
/// thinking.
pub open spec fn recoverable(b: ContentBlock) -> bool {
    (b matches ContentBlock::Text { text } && text@.len() > 0) || b is Thinking
}

/// The recoverable blocks, in order.
pub open spec fn recoverable_blocks(bs: Seq<ContentBlock>) -> Seq<ContentBlock>
    decreases bs.len(),
{
    if bs.len() == 0 {
        seq![]
    } else if recoverable(bs[0]) {
        seq![bs[0]] + recoverable_blocks(bs.drop_first())
    } else {
        recoverable_blocks(bs.drop_first())
    }
}

/// Keeps the text and thinking of an interrupted answer; partial tool calls
/// and empty text are dropped.
pub fn partial_content(blocks: Vec<ContentBlock>) -> (r: Vec<ContentBlock>)
    ensures
        r@ == recoverable_blocks(blocks@),
{
    let ghost all = blocks@;
    let mut rest = blocks;
    let mut r: Vec<ContentBlock> = Vec::new();
    while rest.len() > 0
        invariant
            r@ + recoverable_blocks(rest@) == recoverable_blocks(all),
        decreases rest.len(),
    {
        let ghost before = rest@;
        let b = rest.remove(0);
        assert(rest@ =~= before.drop_first());
        let keep = match &b {
            ContentBlock::Text { text } => chars_of(text.as_str()).len() > 0,
            ContentBlock::Thinking { .. } => true,
            _ => false,
        };
        if keep {
            r.push(b);
            assert(r@ + recoverable_blocks(rest@) =~= recoverable_blocks(all));
        }
    }
    assert(recoverable_blocks(rest@) =~= Seq::<ContentBlock>::empty());
    assert(r@ + Seq::<ContentBlock>::empty() =~= r@);
    r
}

/// The user message that asks for the rest of an interrupted answer.
pub fn continuation_prompt() -> (r: String)
    ensures
        r@ == "[The previous response was interrupted mid-stream. Continue exactly where you left off.]"@,
{
    copy_str("[The previous response was interrupted mid-stream. Continue exactly where you left off.]")
}

// ---------------------------------------------------------------------------
// Laws
// ---------------------------------------------------------------------------

/// A successful response is delivered at any attempt.
pub proof fn law_success_delivered(attempt: nat, code: u16, retry_after: Option<String>)
    requires
        is_success(code),
    ensures
        send_plan(attempt, SendOutcome::Status { code, retry_after }) == SendPlan::Deliver,
{
}

/// Only timeouts and retryable error statuses are waited out, only while
/// retries are left (so a request is sent at most `MAX_RETRIES + 1` times),
/// and each wait is a whole number of seconds, at most a minute.
pub proof fn law_send_waits(attempt: nat, o: SendOutcome)
    requires
        attempt <= MAX_RETRIES,
        !send_overflows(attempt, o),
    ensures
        send_plan(attempt, o) matches SendPlan::Wait(d, _) ==> {
            &&& d <= MAX_DELAY_MS
            &&& d % 1000 == 0
            &&& attempt < MAX_RETRIES
            &&& (o is Timeout || (o matches SendOutcome::Status { code, .. } && retryable(code) && !is_success(
                code,
            )))
        },
{
    if attempt < MAX_RETRIES {
        lemma_backoff_mono(attempt, 4);
        assert(backoff_ms(4) == 16000) by {
            reveal_with_fuel(backoff_ms, 5);
        }
        lemma_backoff_whole_seconds(attempt);
        match o {
            SendOutcome::Status { code, retry_after } => {
                match retry_after_secs(retry_after) {
                    Some(s) => {
                        assert((s * 1000) % 1000 == 0) by (nonlinear_arith);
                    },
                    None => {},
                }
            },
            _ => {},
        }
    }
}

/// A failed stream is retried at most `STREAM_RETRIES` times: at the last
/// attempt every failure is final.
pub proof fn law_stream_retries_bounded(f: StreamFailure, a: StreamAction)
    requires
        stream_action_ok(STREAM_RETRIES as nat, f, a),
    ensures
        a is Fail,
{
}

} // verus!
