//! The remote embedding backend's resilience logic: every decision the
//! retry loop takes — back off and resend on rate limiting, truncate and
//! resend on an oversized payload, accept a success, give up otherwise —
//! as a state machine over plain values. The caller performs the HTTP
//! exchange and the sleeps and feeds each observed outcome back in.

use vstd::arithmetic::power2::{
    lemma2_to64, lemma_pow2_adds, lemma_pow2_strictly_increases, pow2,
};
use vstd::prelude::*;

verus! {

/// The attempt ceiling: one `encode` call sends at most this many
/// requests before it fails with "too many retries".
pub const MAX_ATTEMPTS: u64 = 100;

/// The first rate-limit backoff, in seconds; it doubles on every further
/// rate-limit response and never shrinks.
pub const INITIAL_WAIT_SECS: u128 = 2;

/// The texts of one request, as sequences of characters.
pub open spec fn texts_view(texts: Vec<String>) -> Seq<Seq<char>> {
    texts@.map_values(|t: String| t@)
}

/// The length of the longest text; 0 when there are none.
pub open spec fn max_text_len(texts: Seq<Seq<char>>) -> int
    decreases texts.len(),
{
    if texts.len() == 0 {
        0
    } else {
        let rest = max_text_len(texts.drop_last());
        if texts.last().len() > rest {
            texts.last().len() as int
        } else {
            rest
        }
    }
}

/// Where an oversized batch is cut: four fifths of the longest text's
/// length, rounded down.
pub open spec fn truncation_cut(texts: Seq<Seq<char>>) -> int {
    max_text_len(texts) * 80 / 100
}

/// Every text cut to at most `cut` characters.
pub open spec fn truncate_all(texts: Seq<Seq<char>>, cut: int) -> Seq<Seq<char>> {
    texts.map_values(
        |t: Seq<char>|
            if t.len() <= cut {
                t
            } else {
                t.take(cut)
            },
    )
}

/// The mathematical state of one remote `encode` call's retry loop.
pub struct RetryModel {
    /// The texts the next request will carry; truncation shrinks them.
    pub texts: Seq<Seq<char>>,
    /// Requests answered so far.
    pub attempts: int,
    /// Rate-limit waits taken so far.
    pub backoffs: int,
    /// The next backoff's duration in seconds.
    pub wait_secs: int,
}

impl RetryModel {
    /// The states a retry loop can reach: the attempt counter stays under
    /// its ceiling and the wait is exactly the doubling schedule's value.
    pub open spec fn wf(self) -> bool {
        &&& 0 <= self.backoffs <= self.attempts <= MAX_ATTEMPTS
        &&& self.wait_secs == pow2((self.backoffs + 1) as nat)
    }
}

/// The state a fresh `encode` call starts from.
pub open spec fn initial_model(texts: Seq<Seq<char>>) -> RetryModel {
    RetryModel { texts, attempts: 0, backoffs: 0, wait_secs: INITIAL_WAIT_SECS as int }
}

/// What one HTTP exchange came to: a status line with its body, or no
/// response at all.
#[derive(Debug, Clone, PartialEq, Eq)]
pub enum RemoteEvent {
    /// An HTTP response: status code and response body.
    Status(u16, String),
    /// A transport-level failure before any response: its description.
    Transport(String),
}

/// The mathematical value of a [`RemoteEvent`].
pub enum EventModel {
    Status(int, Seq<char>),
    Transport(Seq<char>),
}

impl View for RemoteEvent {
    type V = EventModel;

    open spec fn view(&self) -> EventModel {
        match self {
            RemoteEvent::Status(code, body) => EventModel::Status(*code as int, body@),
            RemoteEvent::Transport(msg) => EventModel::Transport(msg@),
        }
    }
}

/// Why a remote `encode` call fails.
#[derive(Debug, Clone, PartialEq, Eq)]
pub enum RemoteError {
    /// A response status that is neither success nor recoverable: the
    /// status code and the response body.
    Status(u16, String),
    /// A transport-level failure: its description.
    Transport(String),
    /// The attempt ceiling was reached without a success.
    TooManyRetries,
}

/// The mathematical value of a [`RemoteError`].
pub enum ErrorModel {
    Status(int, Seq<char>),
    Transport(Seq<char>),
    TooManyRetries,
}

impl View for RemoteError {
    type V = ErrorModel;

    open spec fn view(&self) -> ErrorModel {
        match self {
            RemoteError::Status(code, body) => ErrorModel::Status(*code as int, body@),
            RemoteError::Transport(msg) => ErrorModel::Transport(msg@),
            RemoteError::TooManyRetries => ErrorModel::TooManyRetries,
        }
    }
}

/// What the retry loop does next after one observed exchange.
#[derive(Debug, Clone, PartialEq, Eq)]
pub enum RemoteStep {
    /// The response succeeded: parse its body and return the vectors.
    Accept,
    /// Rate limited: sleep this many seconds, then resend the same texts.
    Sleep(u128),
    /// Payload rejected: the texts were truncated; resend at once.
    Resend,
    /// A fatal outcome: stop with this error.
    GiveUp(RemoteError),
}

/// The mathematical value of a [`RemoteStep`].
pub enum StepModel {
    Accept,
    Sleep(int),
    Resend,
    GiveUp(ErrorModel),
}

impl View for RemoteStep {
    type V = StepModel;

    open spec fn view(&self) -> StepModel {
        match self {
            RemoteStep::Accept => StepModel::Accept,
            RemoteStep::Sleep(secs) => StepModel::Sleep(*secs as int),
            RemoteStep::Resend => StepModel::Resend,
            RemoteStep::GiveUp(e) => StepModel::GiveUp(e@),
        }
    }
}

/// The retry policy's transition: the state after one observed exchange.
/// A 2xx answer ends the loop; 429 and 503 double the backoff; 400
/// truncates the texts for every later attempt; anything else is fatal
/// and leaves the state to be discarded.
pub open spec fn step_state(m: RetryModel, ev: EventModel) -> RetryModel {
    match ev {
        EventModel::Status(code, body) => {
            if 200 <= code < 300 {
                RetryModel { attempts: m.attempts + 1, ..m }
            } else if code == 429 || code == 503 {
                RetryModel {
                    attempts: m.attempts + 1,
                    backoffs: m.backoffs + 1,
                    wait_secs: m.wait_secs * 2,
                    ..m
                }
            } else if code == 400 {
                RetryModel {
                    attempts: m.attempts + 1,
                    texts: truncate_all(m.texts, truncation_cut(m.texts)),
                    ..m
                }
            } else {
                RetryModel { attempts: m.attempts + 1, ..m }
            }
        },
        EventModel::Transport(_) => RetryModel { attempts: m.attempts + 1, ..m },
    }
}

/// The retry policy's decision for one observed exchange.
pub open spec fn step_action(m: RetryModel, ev: EventModel) -> StepModel {
    match ev {
        EventModel::Status(code, body) => {
            if 200 <= code < 300 {
                StepModel::Accept
            } else if code == 429 || code == 503 {
                StepModel::Sleep(m.wait_secs)
            } else if code == 400 {
                StepModel::Resend
            } else {
                StepModel::GiveUp(ErrorModel::Status(code, body))
            }
        },
        EventModel::Transport(msg) => StepModel::GiveUp(ErrorModel::Transport(msg)),
    }
}

/// Taking a step keeps the state well formed while the attempt ceiling
/// is not yet reached.
pub proof fn lemma_step_preserves_wf(m: RetryModel, ev: EventModel)
    requires
        m.wf(),
        m.attempts < MAX_ATTEMPTS,
    ensures
        step_state(m, ev).wf(),
{
    let m2 = step_state(m, ev);
    if m2.backoffs == m.backoffs + 1 {
        assert(pow2((m.backoffs + 1) as nat) * 2 == pow2((m.backoffs + 2) as nat)) by {
            lemma_pow2_adds((m.backoffs + 1) as nat, 1);
            lemma2_to64();
        };
    }
}

/// The longest text length among `texts`.
fn max_len_of(texts: &Vec<String>) -> (m: usize)
    ensures
        m as int == max_text_len(texts_view(*texts)),
{
    let mut m: usize = 0;
    let n = texts.len();
    let mut i: usize = 0;
    proof {
        assert(texts_view(*texts).take(0) =~= Seq::<Seq<char>>::empty());
    }
    while i < n
        invariant
            i <= n,
            n == texts@.len(),
            m as int == max_text_len(texts_view(*texts).take(i as int)),
        decreases n - i,
    {
        let len_i = texts[i].as_str().unicode_len();
        if len_i > m {
            m = len_i;
        }
        proof {
            assert(texts_view(*texts).take(i + 1).drop_last() =~= texts_view(*texts).take(
                i as int,
            ));
            assert(texts_view(*texts).take(i + 1).last() == texts@[i as int]@);
        }
        i = i + 1;
    }
    proof {
        assert(texts_view(*texts).take(n as int) =~= texts_view(*texts));
    }
    m
}

/// Every text cut to at most the truncation mark: four fifths of the
/// longest text's length.
fn truncate_texts(texts: &Vec<String>) -> (out: Vec<String>)
    ensures
        texts_view(out) == truncate_all(texts_view(*texts), truncation_cut(texts_view(*texts))),
{
    let ghost s: Seq<Seq<char>> = texts_view(*texts);
    let max_len = max_len_of(texts);
    let cut_wide: u128 = (max_len as u128) * 80 / 100;
    proof {
        assert((max_len as int) * 80 <= (max_len as int) * 100);
        vstd::arithmetic::div_mod::lemma_div_is_ordered(
            (max_len as int) * 80,
            (max_len as int) * 100,
            100,
        );
        vstd::arithmetic::div_mod::lemma_div_multiples_vanish(max_len as int, 100);
        assert((max_len as int) * 100 == 100 * (max_len as int));
        assert(cut_wide as int == truncation_cut(s));
        assert(cut_wide <= max_len as u128);
    }
    let cut = cut_wide as usize;
    let n = texts.len();
    let mut out: Vec<String> = Vec::new();
    let mut i: usize = 0;
    while i < n
        invariant
            i <= n,
            n == texts@.len(),
            s == texts_view(*texts),
            cut as int == truncation_cut(s),
            out@.len() == i,
            forall|j: int|
                0 <= j < i ==> (#[trigger] out@[j])@ == (if s[j].len() <= cut as int {
                    s[j]
                } else {
                    s[j].take(cut as int)
                }),
        decreases n - i,
    {
        let t = &texts[i];
        if t.as_str().unicode_len() > cut {
            out.push(t.as_str().substring_char(0, cut).to_owned());
        } else {
            out.push(t.clone());
        }
        i = i + 1;
    }
    proof {
        assert(texts_view(out) =~= truncate_all(s, truncation_cut(s)));
    }
    out
}

/// The running state of one remote `encode` call: the texts the next
/// request will carry, the attempt count, and the backoff schedule.
pub struct RetryState {
    texts: Vec<String>,
    attempts: u64,
    backoffs: u64,
    wait_secs: u128,
}

impl View for RetryState {
    type V = RetryModel;

    closed spec fn view(&self) -> RetryModel {
        RetryModel {
            texts: texts_view(self.texts),
            attempts: self.attempts as int,
            backoffs: self.backoffs as int,
            wait_secs: self.wait_secs as int,
        }
    }
}

impl RetryState {
    /// Starts a retry loop for one batch of texts.
    pub fn new(texts: Vec<String>) -> (s: Self)
        ensures
            s@ == initial_model(texts_view(texts)),
            s@.wf(),
    {
        let s = RetryState { texts, attempts: 0, backoffs: 0, wait_secs: INITIAL_WAIT_SECS };
        proof {
            lemma2_to64();
        }
        s
    }

    /// Whether another request may still be sent: the attempt ceiling is
    /// not yet reached. When this turns false without a success, the
    /// call fails with [`RemoteError::TooManyRetries`].
    pub fn may_send(&self) -> (b: bool)
        ensures
            b == (self@.attempts < MAX_ATTEMPTS),
    {
        self.attempts < MAX_ATTEMPTS
    }

    /// The texts the next request must carry.
    pub fn texts(&self) -> (r: &Vec<String>)
        ensures
            texts_view(*r) == self@.texts,
    {
        &self.texts
    }

    /// Feeds the outcome of one HTTP exchange into the retry policy and
    /// returns what to do next; the state advances exactly as
    /// [`step_state`] says and the decision is exactly [`step_action`].
    pub fn on_event(&mut self, ev: RemoteEvent) -> (step: RemoteStep)
        requires
            old(self)@.wf(),
            old(self)@.attempts < MAX_ATTEMPTS,
        ensures
            final(self)@.wf(),
            final(self)@ == step_state(old(self)@, ev@),
            step@ == step_action(old(self)@, ev@),
    {
        proof {
            lemma_step_preserves_wf(old(self)@, ev@);
        }
        self.attempts = self.attempts + 1;
        match ev {
            RemoteEvent::Status(code, body) => {
                if 200 <= code && code < 300 {
                    RemoteStep::Accept
                } else if code == 429 || code == 503 {
                    let w = self.wait_secs;
                    proof {
                        lemma_wait_fits(old(self)@.backoffs);
                    }
                    self.wait_secs = w * 2;
                    self.backoffs = self.backoffs + 1;
                    RemoteStep::Sleep(w)
                } else if code == 400 {
                    self.texts = truncate_texts(&self.texts);
                    RemoteStep::Resend
                } else {
                    RemoteStep::GiveUp(RemoteError::Status(code, body))
                }
            },
            RemoteEvent::Transport(msg) => {
                RemoteStep::GiveUp(RemoteError::Transport(msg))
            },
        }
    }
}

impl RetryState {
    /// The error the call ends with when the attempt ceiling is reached
    /// without a success: too many retries.
    pub fn exhausted_error(&self) -> (e: RemoteError)
        requires
            self@.attempts >= MAX_ATTEMPTS,
        ensures
            e@ == ErrorModel::TooManyRetries,
    {
        RemoteError::TooManyRetries
    }
}

/// No text is ever shorter than nothing: the longest length is at least 0.
proof fn lemma_max_len_nonneg(texts: Seq<Seq<char>>)
    ensures
        max_text_len(texts) >= 0,
    decreases texts.len(),
{
    if texts.len() > 0 {
        lemma_max_len_nonneg(texts.drop_last());
    }
}

/// From a fresh call, two rate-limit responses sleep 2 seconds and then
/// 4 seconds, and a success after them accepts with the original,
/// untruncated texts.
pub proof fn lemma_backoff_doubles(
    texts: Seq<Seq<char>>,
    body1: Seq<char>,
    body2: Seq<char>,
    ok_code: int,
    ok_body: Seq<char>,
)
    requires
        200 <= ok_code < 300,
    ensures
        ({
            let m0 = initial_model(texts);
            let m1 = step_state(m0, EventModel::Status(429, body1));
            let m2 = step_state(m1, EventModel::Status(429, body2));
            &&& step_action(m0, EventModel::Status(429, body1)) == StepModel::Sleep(2)
            &&& step_action(m1, EventModel::Status(429, body2)) == StepModel::Sleep(4)
            &&& m2.texts == texts
            &&& step_action(m2, EventModel::Status(ok_code, ok_body)) == StepModel::Accept
            &&& step_state(m2, EventModel::Status(ok_code, ok_body)).texts == texts
        }),
{
}

/// A payload rejection resends at once with every text cut to at most
/// four fifths of the longest text's length, rounded down; a success
/// after it resolves with exactly those truncated texts.
pub proof fn lemma_truncation_caps_lengths(
    m: RetryModel,
    body: Seq<char>,
    ok_code: int,
    ok_body: Seq<char>,
)
    requires
        200 <= ok_code < 300,
    ensures
        step_action(m, EventModel::Status(400, body)) == StepModel::Resend,
        ({
            let cut = max_text_len(m.texts) * 80 / 100;
            let m2 = step_state(m, EventModel::Status(400, body));
            &&& m2.texts.len() == m.texts.len()
            &&& forall|i: int| 0 <= i < m2.texts.len() ==> (#[trigger] m2.texts[i]).len() <= cut
            &&& step_action(m2, EventModel::Status(ok_code, ok_body)) == StepModel::Accept
            &&& step_state(m2, EventModel::Status(ok_code, ok_body)).texts == m2.texts
        }),
{
    lemma_max_len_nonneg(m.texts);
    vstd::arithmetic::div_mod::lemma_div_pos_is_pos(max_text_len(m.texts) * 80, 100);
    let cut = truncation_cut(m.texts);
    let m2 = step_state(m, EventModel::Status(400, body));
    assert forall|i: int| 0 <= i < m2.texts.len() implies (#[trigger] m2.texts[i]).len()
        <= cut by {
        assert(m2.texts[i] == (if m.texts[i].len() <= cut {
            m.texts[i]
        } else {
            m.texts[i].take(cut)
        }));
    };
}

/// The state after a run of consecutive rate-limit responses, one
/// transition per response body.
pub open spec fn run_rate_limited(m: RetryModel, bodies: Seq<Seq<char>>) -> RetryModel
    decreases bodies.len(),
{
    if bodies.len() == 0 {
        m
    } else {
        run_rate_limited(
            step_state(m, EventModel::Status(429, bodies[0])),
            bodies.drop_first(),
        )
    }
}

/// Rate-limit responses only count attempts, double the wait and keep
/// the texts: the induction behind `lemma_retries_exhausted`.
proof fn lemma_run_rate_limited(m: RetryModel, bodies: Seq<Seq<char>>)
    ensures
        run_rate_limited(m, bodies).attempts == m.attempts + bodies.len(),
        run_rate_limited(m, bodies).backoffs == m.backoffs + bodies.len(),
        run_rate_limited(m, bodies).texts == m.texts,
        run_rate_limited(m, bodies).wait_secs == m.wait_secs * pow2(bodies.len()),
    decreases bodies.len(),
{
    if bodies.len() == 0 {
        lemma2_to64();
        assert(pow2(0) == 1);
    } else {
        let m1 = step_state(m, EventModel::Status(429, bodies[0]));
        lemma_run_rate_limited(m1, bodies.drop_first());
        lemma_pow2_adds(1, (bodies.len() - 1) as nat);
        lemma2_to64();
        assert((m.wait_secs * 2) * pow2((bodies.len() - 1) as nat) == m.wait_secs * (2 * pow2(
            (bodies.len() - 1) as nat,
        ))) by (nonlinear_arith);
    }
}

/// A full run of `MAX_ATTEMPTS` consecutive rate-limit responses never
/// accepts — every decision on the way is a sleep, of 2 seconds doubling
/// each time — and ends with no request left to send, so the call fails
/// with "too many retries" and yields no vectors.
pub proof fn lemma_retries_exhausted(texts: Seq<Seq<char>>, bodies: Seq<Seq<char>>)
    requires
        bodies.len() == MAX_ATTEMPTS,
    ensures
        ({
            let end = run_rate_limited(initial_model(texts), bodies);
            &&& end.attempts == MAX_ATTEMPTS
            &&& end.texts == texts
        }),
        forall|i: int|
            0 <= i < bodies.len() ==> step_action(
                run_rate_limited(initial_model(texts), bodies.take(i)),
                EventModel::Status(429, bodies[i]),
            ) == StepModel::Sleep(pow2((i + 1) as nat) as int),
{
    lemma_run_rate_limited(initial_model(texts), bodies);
    assert forall|i: int| 0 <= i < bodies.len() implies step_action(
        run_rate_limited(initial_model(texts), bodies.take(i)),
        EventModel::Status(429, bodies[i]),
    ) == StepModel::Sleep(pow2((i + 1) as nat) as int) by {
        lemma_run_rate_limited(initial_model(texts), bodies.take(i));
        lemma_pow2_adds(1, i as nat);
        lemma2_to64();
    };
}

/// The wait never overflows its machine word: it is `pow2(backoffs + 1)`
/// with at most `MAX_ATTEMPTS` backoffs, far below `u128::MAX`.
proof fn lemma_wait_fits(backoffs: int)
    requires
        0 <= backoffs <= MAX_ATTEMPTS,
    ensures
        pow2((backoffs + 1) as nat) * 2 < u128::MAX,
{
    lemma_pow2_adds((backoffs + 1) as nat, 1);
    if backoffs + 2 < 128 {
        lemma_pow2_strictly_increases((backoffs + 2) as nat, 128);
    }
    lemma_pow2_adds(64, 64);
    lemma2_to64();
    assert(pow2(128) == 0x10000000000000000 * 0x10000000000000000);
}

} // verus!
