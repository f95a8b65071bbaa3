//! Failure isolation around unreliable operations: a circuit breaker, a
//! retry schedule with backoff, fallbacks and batches.
use vstd::prelude::*;
use vstd::string::StringExecFns;
use crate::error::{NetworkMonitorError, Result};
use crate::models::Connection;
use crate::decimal::{lemma_pow2_64, lemma_pow2_add, lemma_pow2_monotone, pow2, pow2_of};
use vstd::arithmetic::div_mod::lemma_fundamental_div_mod_converse;

verus! {

/// The three states of a circuit breaker.
#[derive(PartialEq, Eq, Structural, Clone, Copy, Debug)]
pub enum CircuitState {
    Closed,
    Open,
    HalfOpen,
}

/// What a circuit breaker holds, as values.
pub struct BreakerView {
    pub failure_count: u32,
    pub failure_threshold: u32,
    pub last_failure: Option<u64>,
    pub timeout: u64,
    pub state: CircuitState,
}

/// Whether the breaker lets a call through at time `now`: always, unless it
/// is open and its timeout has not yet passed since the last failure.
pub open spec fn admits(b: BreakerView, now: u64) -> bool {
    match b.state {
        CircuitState::Open => match b.last_failure {
            Some(t) => now > t && now - t > b.timeout,
            None => true,
        },
        _ => true,
    }
}

/// The breaker as it lets a call through: an open breaker whose timeout has
/// passed turns half-open.
pub open spec fn admitted(b: BreakerView, now: u64) -> BreakerView {
    if b.state == CircuitState::Open && b.last_failure is Some {
        BreakerView { state: CircuitState::HalfOpen, ..b }
    } else {
        b
    }
}

/// The breaker after a call that succeeded.
pub open spec fn after_success(b: BreakerView) -> BreakerView {
    BreakerView { failure_count: 0, state: CircuitState::Closed, last_failure: None, ..b }
}

/// The breaker after a call that failed at `now`: one more failure, and
/// open once the failures reach the threshold.
pub open spec fn after_failure(b: BreakerView, now: u64) -> BreakerView {
    let n = if b.failure_count < u32::MAX { (b.failure_count + 1) as u32 } else { b.failure_count };
    BreakerView {
        failure_count: n,
        last_failure: Some(now),
        state: if n >= b.failure_threshold { CircuitState::Open } else { b.state },
        ..b
    }
}

/// The breaker's invariant: whenever it is not closed, its failures have
/// reached the threshold and the time of the last one is known.
pub open spec fn breaker_wf(b: BreakerView) -> bool {
    b.state != CircuitState::Closed ==> b.failure_count >= b.failure_threshold && b.last_failure is Some
}

/// Failure isolation for an operation that fails repeatedly.
pub struct CircuitBreaker {
    failure_count: u32,
    failure_threshold: u32,
    last_failure: Option<u64>,
    timeout: u64,
    state: CircuitState,
}

impl View for CircuitBreaker {
    type V = BreakerView;

    closed spec fn view(&self) -> BreakerView {
        BreakerView {
            failure_count: self.failure_count,
            failure_threshold: self.failure_threshold,
            last_failure: self.last_failure,
            timeout: self.timeout,
            state: self.state,
        }
    }
}

/// The text of the error that a rejected call returns.
pub open spec fn breaker_open_message() -> Seq<char> {
    "Circuit breaker is open"@
}

impl CircuitBreaker {
    /// A closed breaker that opens after `failure_threshold` failures and
    /// tries again `timeout` milliseconds after the last one.
    pub fn new(failure_threshold: u32, timeout: u64) -> (r: CircuitBreaker)
        ensures
            breaker_wf(r@),
            r@ == (BreakerView {
                failure_count: 0,
                failure_threshold,
                last_failure: None,
                timeout,
                state: CircuitState::Closed,
            }),
    {
        CircuitBreaker { failure_count: 0, failure_threshold, last_failure: None, timeout, state: CircuitState::Closed }
    }

}

impl Default for CircuitBreaker {
    /// The default policy: five failures, thirty seconds.
    fn default() -> (r: CircuitBreaker)
        ensures
            breaker_wf(r@),
            r@ == (BreakerView {
                failure_count: 0,
                failure_threshold: 5,
                last_failure: None,
                timeout: 30000,
                state: CircuitState::Closed,
            }),
    {
        CircuitBreaker::new(5, 30000)
    }
}

impl CircuitBreaker {
    /// Runs `f` at time `now` if the breaker lets it through, and records
    /// how it went; otherwise `f` is not run and the call is rejected.
    pub fn call<T, F: FnOnce() -> Result<T>>(&mut self, now: u64, f: F) -> (r: Result<T>)
        requires
            breaker_wf(old(self)@),
            f.requires(()),
        ensures
            breaker_wf(final(self)@),
            !admits(old(self)@, now) ==> (final(self)@ == old(self)@ && (r matches Err(
                NetworkMonitorError::ParseError(m)) && m@ == breaker_open_message())),
            admits(old(self)@, now) ==> f.ensures((), r) && final(self)@ == if r is Ok {
                after_success(admitted(old(self)@, now))
            } else {
                after_failure(admitted(old(self)@, now), now)
            },
    {
        match self.state {
            CircuitState::Open => {
                if let Some(last_failure) = self.last_failure {
                    if now > last_failure && now - last_failure > self.timeout {
                        self.state = CircuitState::HalfOpen;
                    } else {
                        return Err(NetworkMonitorError::ParseError(String::from_str("Circuit breaker is open")));
                    }
                }
            },
            CircuitState::HalfOpen => {},
            CircuitState::Closed => {},
        }
        match f() {
            Ok(result) => {
                self.on_success();
                Ok(result)
            },
            Err(err) => {
                self.on_failure(now);
                Err(err)
            },
        }
    }

    fn on_success(&mut self)
        ensures
            final(self)@ == after_success(old(self)@),
    {
        self.failure_count = 0;
        self.state = CircuitState::Closed;
        self.last_failure = None;
    }

    fn on_failure(&mut self, now: u64)
        ensures
            final(self)@ == after_failure(old(self)@, now),
    {
        if self.failure_count < u32::MAX {
            self.failure_count = self.failure_count + 1;
        }
        self.last_failure = Some(now);
        if self.failure_count >= self.failure_threshold {
            self.state = CircuitState::Open;
        }
    }

    /// Whether the breaker is open.
    pub fn is_open(&self) -> (r: bool)
        ensures
            r == (self@.state == CircuitState::Open),
    {
        self.state == CircuitState::Open
    }
}

/// An open breaker whose timeout has passed lets one trial call through;
/// if that call fails, the breaker is open again, with one more failure
/// counted and the failure time moved to now.
pub proof fn failed_trial_reopens(b: BreakerView, now: u64)
    requires
        breaker_wf(b),
        b.state == CircuitState::Open,
        admits(b, now),
    ensures
        admitted(b, now).state == CircuitState::HalfOpen,
        after_failure(admitted(b, now), now).state == CircuitState::Open,
        after_failure(admitted(b, now), now).last_failure == Some(now),
        b.failure_count < u32::MAX ==> after_failure(admitted(b, now), now).failure_count == b.failure_count + 1,
        breaker_wf(after_failure(admitted(b, now), now)),
{
}

/// A breaker of threshold two opens after two failures, rejects calls until
/// its timeout has passed since the second failure, then lets one through
/// and closes again when it succeeds.
pub proof fn breaker_opens_and_recovers(b: BreakerView, t1: u64, t2: u64, t3: u64, t4: u64)
    requires
        b.state == CircuitState::Closed,
        b.failure_count == 0,
        b.failure_threshold == 2,
        t1 <= t2 <= t3 <= t4,
        t3 - t2 <= b.timeout,
        t4 - t2 > b.timeout,
    ensures
        ({
            let open = after_failure(after_failure(b, t1), t2);
            &&& open.state == CircuitState::Open
            &&& !admits(open, t3)
            &&& admits(open, t4)
            &&& admitted(open, t4).state == CircuitState::HalfOpen
            &&& after_success(admitted(open, t4)).state == CircuitState::Closed
            &&& after_success(admitted(open, t4)).failure_count == 0
        }),
{
}


/// What to do after an attempt of a retried operation.
#[derive(PartialEq, Eq, Structural, Clone, Copy, Debug)]
pub enum RetryStep {
    /// Stop and hand the attempt's outcome to the caller.
    Finish,
    /// Wait this many milliseconds, then attempt again.
    Wait(u64),
}

/// Three to the `e`.
pub open spec fn pow3(e: nat) -> nat
    decreases e,
{
    if e == 0 { 1 } else { 3 * pow3((e - 1) as nat) }
}

/// The wait after the failed attempt numbered `k` (from zero): the initial
/// delay multiplied by 1.5 `k` times, rounded down, at most the largest `u64`.
pub open spec fn backoff_delay(initial: u64, k: nat) -> u64 {
    let v = initial as nat * pow3(k) / pow2(k);
    if v > u64::MAX { u64::MAX } else { v as u64 }
}

/// The schedule of a retry with backoff: up to `max_retries + 1` attempts,
/// the waits growing by half after each, kept exact in the unit of the
/// initial delay (nanoseconds for the caller's sleeps).
pub struct RetryState {
    attempt: usize,
    max_retries: usize,
    initial_delay: u64,
    whole: u128,
    frac: u128,
    saturated: bool,
}

proof fn lemma_pow3_add(a: nat, b: nat)
    ensures
        pow3(a + b) == pow3(a) * pow3(b),
    decreases b,
{
    if b == 0 {
        assert(a + b == a);
        assert(pow3(a) * 1 == pow3(a));
    } else {
        lemma_pow3_add(a, (b - 1) as nat);
        assert(a + (b - 1) as nat == (a + b - 1) as nat);
        let x = pow3(a);
        let y = pow3((b - 1) as nat);
        assert(pow3(a + b) == 3 * pow3((a + b - 1) as nat));
        assert(pow3(b) == 3 * y);
        assert(x * (3 * y) == 3 * (x * y)) by (nonlinear_arith);
    }
}

proof fn lemma_twelve_steps(m: nat)
    ensures
        pow3(12 * m) >= pow2(19 * m),
    decreases m,
{
    if m > 0 {
        lemma_twelve_steps((m - 1) as nat);
        reveal_with_fuel(pow3, 13);
        reveal_with_fuel(pow2, 20);
        assert(pow3(12) == 531441);
        assert(pow2(19) == 524288);
        lemma_pow3_add(12 * (m - 1) as nat, 12);
        lemma_pow2_add(19 * (m - 1) as nat, 19);
        assert(12 * (m - 1) as nat + 12 == 12 * m);
        assert(19 * (m - 1) as nat + 19 == 19 * m);
        let x = pow3(12 * (m - 1) as nat);
        let y = pow2(19 * (m - 1) as nat);
        assert(x * 531441 >= y * 524288) by (nonlinear_arith)
            requires x >= y, y >= 0;
    }
}

proof fn lemma_pow3_outgrows(a: nat)
    requires
        a >= 120,
    ensures
        pow3(a) >= pow2(a + 64),
    decreases a,
{
    if a == 120 {
        lemma_twelve_steps(10);
        lemma_pow2_monotone(184, 190);
    } else {
        lemma_pow3_outgrows((a - 1) as nat);
        assert(pow2(a + 64) == 2 * pow2((a + 63) as nat));
    }
}

proof fn lemma_pow3_positive(e: nat)
    ensures
        pow3(e) >= 1,
    decreases e,
{
    if e > 0 {
        lemma_pow3_positive((e - 1) as nat);
    }
}

/// An unsaturated schedule has made fewer than 120 attempts.
proof fn lemma_attempt_bound(initial: nat, a: nat, whole: nat, frac: nat)
    requires
        initial >= 1,
        whole * pow2(a) + frac == initial * pow3(a),
        frac < pow2(a),
        whole <= u64::MAX,
    ensures
        a <= 119,
{
    if a >= 120 {
        lemma_pow3_outgrows(a);
        lemma_pow2_add(64, a);
        crate::decimal::lemma_pow2_positive(a);
        lemma_pow2_64();
        let p = pow2(a);
        assert(initial * pow3(a) >= pow3(a)) by (nonlinear_arith)
            requires initial >= 1;
        assert(whole * p + frac < 0x1_0000_0000_0000_0000 * p) by (nonlinear_arith)
            requires whole <= u64::MAX, frac < p, p >= 1;
        assert(pow2(64 + a) == 0x1_0000_0000_0000_0000 * p);
        assert(false);
    }
}

/// Growing by half never makes the rounded-down value smaller.
proof fn lemma_backoff_grows(x: nat, p: nat)
    requires
        p >= 1,
    ensures
        (3 * x) / (2 * p) >= x / p,
{
    let q = x / p;
    let big_q = (3 * x) / (2 * p);
    let big_r = (3 * x) % (2 * p);
    assert(x >= q * p) by (nonlinear_arith)
        requires q == x / p, p >= 1;
    assert(3 * x == big_q * (2 * p) + big_r && big_r < 2 * p) by (nonlinear_arith)
        requires big_q == (3 * x) / (2 * p), big_r == (3 * x) % (2 * p), p >= 1;
    if big_q < q {
        assert(false) by (nonlinear_arith)
            requires 3 * x == big_q * (2 * p) + big_r, big_r < 2 * p, x >= q * p, big_q < q, p >= 1, big_q >= 0;
    }
}

impl RetryState {
    /// The number of failed attempts that the schedule has let through.
    pub closed spec fn attempt(&self) -> nat {
        self.attempt as nat
    }

    /// How many attempts after the first it allows.
    pub closed spec fn max_retries(&self) -> nat {
        self.max_retries as nat
    }

    /// The wait after the first failed attempt.
    pub closed spec fn initial_delay(&self) -> u64 {
        self.initial_delay
    }

    /// The schedule's invariant: it never passes the last attempt, and the
    /// next wait is `whole` and `frac / 2^attempt` exactly, or beyond the
    /// largest `u64`.
    pub closed spec fn wf(&self) -> bool {
        &&& self.attempt <= self.max_retries
        &&& self.saturated ==> self.initial_delay > 0
            && self.initial_delay as nat * pow3(self.attempt as nat) / pow2(self.attempt as nat) > u64::MAX
        &&& !self.saturated && self.initial_delay > 0 ==> {
            &&& self.whole * pow2(self.attempt as nat) + self.frac == self.initial_delay as nat * pow3(self.attempt as nat)
            &&& self.frac < pow2(self.attempt as nat)
            &&& self.whole <= u64::MAX
        }
    }

    /// The schedule before the first attempt.
    pub fn new(max_retries: usize, initial_delay: u64) -> (r: RetryState)
        ensures
            r.wf(),
            r.attempt() == 0,
            r.max_retries() == max_retries,
            r.initial_delay() == initial_delay,
    {
        RetryState { attempt: 0, max_retries, initial_delay, whole: initial_delay as u128, frac: 0, saturated: false }
    }

    /// Decides what follows an attempt: a success, or a failure of the last
    /// allowed attempt, ends the retry; any other failure waits the current
    /// delay and counts one more attempt.
    pub fn after_attempt(&mut self, succeeded: bool) -> (r: RetryStep)
        requires
            old(self).wf(),
        ensures
            final(self).wf(),
            final(self).max_retries() == old(self).max_retries(),
            final(self).initial_delay() == old(self).initial_delay(),
            succeeded || old(self).attempt() == old(self).max_retries() ==> r == RetryStep::Finish
                && final(self).attempt() == old(self).attempt(),
            !succeeded && old(self).attempt() < old(self).max_retries() ==> r == RetryStep::Wait(
                backoff_delay(old(self).initial_delay(), old(self).attempt()))
                && final(self).attempt() == old(self).attempt() + 1,
    {
        if succeeded || self.attempt == self.max_retries {
            return RetryStep::Finish;
        }
        let ghost a = self.attempt as nat;
        let ghost init = self.initial_delay as nat;
        let ghost p_a = pow2(a);
        proof {
            crate::decimal::lemma_pow2_positive(a);
            lemma_pow3_positive(a);
        }
        if self.initial_delay == 0 {
            assert(init * pow3(a) / p_a == 0) by (nonlinear_arith)
                requires init == 0, p_a >= 1;
            self.attempt = self.attempt + 1;
            return RetryStep::Wait(0);
        }
        if self.saturated {
            proof {
                lemma_backoff_grows(init * pow3(a), p_a);
                assert(init * pow3(a + 1) == 3 * (init * pow3(a))) by (nonlinear_arith)
                    requires pow3(a + 1) == 3 * pow3(a);
                assert(pow2(a + 1) == 2 * p_a);
            }
            self.attempt = self.attempt + 1;
            return RetryStep::Wait(u64::MAX);
        }
        proof {
            lemma_attempt_bound(init, a, self.whole as nat, self.frac as nat);
            lemma_fundamental_div_mod_converse((init * pow3(a)) as int, p_a as int, self.whole as int, self.frac as int);
        }
        let d = self.whole as u64;
        let i = self.attempt as u32;
        let p = pow2_of(i);
        let p2 = p * 2;
        let t3 = self.whole * 3;
        let half = t3 / 2;
        let odd = t3 % 2;
        assert(odd <= 1);
        assert(self.frac < p);
        assert(p <= 0x100_0000_0000_0000_0000_0000_0000_0000);
        let carried: u128 = if odd == 1 { p } else { 0 };
        let t = carried + self.frac * 3;
        let next_whole = half + t / p2;
        let next_frac = t % p2;
        proof {
            let w = self.whole as nat;
            let f = self.frac as nat;
            assert(odd == 0 || odd == 1);
            assert(carried == odd * p) by (nonlinear_arith)
                requires (odd == 1 && carried == p) || (odd == 0 && carried == 0);
            assert(pow2(a + 1) == 2 * p_a);
            assert(pow3(a + 1) == 3 * pow3(a));
            assert(t == next_whole * p2 - half * p2 + next_frac) by (nonlinear_arith)
                requires next_whole == half + t / p2, next_frac == t % p2, p2 >= 1;
            assert(next_whole * p2 + next_frac == init * pow3(a + 1)) by (nonlinear_arith)
                requires t == next_whole * p2 - half * p2 + next_frac, t == carried + f * 3, carried == odd * p,
                    t3 == w * 3, t3 == half * 2 + odd, p2 == 2 * p,
                    w * p + f == init * pow3(a), pow3(a + 1) == 3 * pow3(a);
            assert(next_frac < p2) by (nonlinear_arith)
                requires next_frac == t % p2, p2 >= 1;
            lemma_fundamental_div_mod_converse((init * pow3(a + 1)) as int, p2 as int, next_whole as int, next_frac as int);
        }
        self.attempt = self.attempt + 1;
        if next_whole > u64::MAX as u128 {
            self.saturated = true;
        } else {
            self.whole = next_whole;
            self.frac = next_frac;
        }
        RetryStep::Wait(d)
    }
}

/// Attempts made, the waits taken, and whether the retry ended in success,
/// when a schedule at attempt `attempt` of `max` is told of `fails` failures
/// and then a success.
pub open spec fn retry_run(initial: u64, attempt: nat, max: nat, fails: nat) -> (nat, Seq<u64>, bool)
    decreases fails,
{
    if fails == 0 {
        (1, Seq::empty(), true)
    } else if attempt >= max {
        (1, Seq::empty(), false)
    } else {
        let (a, w, ok) = retry_run(initial, attempt + 1, max, (fails - 1) as nat);
        (a + 1, seq![backoff_delay(initial, attempt)] + w, ok)
    }
}

proof fn lemma_retry_run(initial: u64, attempt: nat, max: nat, fails: nat)
    requires
        attempt <= max,
    ensures
        attempt + fails <= max ==> retry_run(initial, attempt, max, fails)
            == (fails + 1, Seq::new(fails, |j: int| backoff_delay(initial, (attempt + j) as nat)), true),
        attempt + fails > max ==> retry_run(initial, attempt, max, fails) == (
            (max - attempt + 1) as nat,
            Seq::new((max - attempt) as nat, |j: int| backoff_delay(initial, (attempt + j) as nat)),
            false),
    decreases fails,
{
    if fails == 0 {
        assert(Seq::new(0, |j: int| backoff_delay(initial, (attempt + j) as nat)) =~= Seq::<u64>::empty());
    } else if attempt >= max {
        assert(Seq::new(0, |j: int| backoff_delay(initial, (attempt + j) as nat)) =~= Seq::<u64>::empty());
    } else {
        lemma_retry_run(initial, attempt + 1, max, (fails - 1) as nat);
        let n = if attempt + fails <= max { fails } else { (max - attempt) as nat };
        assert(seq![backoff_delay(initial, attempt)] + Seq::new((n - 1) as nat, |j: int| backoff_delay(initial, (attempt + 1 + j) as nat))
            =~= Seq::new(n, |j: int| backoff_delay(initial, (attempt + j) as nat)));
    }
}

/// An operation that fails `k` times and then succeeds, retried with
/// `max_retries >= k`, ends in success after exactly `k + 1` attempts,
/// having waited the initial delay times 1.5 to the powers 0 to `k - 1`;
/// one that fails more often ends in failure after `max_retries + 1`
/// attempts and `max_retries` waits.
pub proof fn retry_succeeds_after_failures(max_retries: usize, initial_delay: u64, k: nat)
    ensures
        k <= max_retries ==> retry_run(initial_delay, 0, max_retries as nat, k)
            == (k + 1, Seq::new(k, |j: int| backoff_delay(initial_delay, j as nat)), true),
        k > max_retries ==> retry_run(initial_delay, 0, max_retries as nat, k)
            == ((max_retries + 1) as nat, Seq::new(max_retries as nat, |j: int| backoff_delay(initial_delay, j as nat)), false),
{
    lemma_retry_run(initial_delay, 0, max_retries as nat, k);
    assert(Seq::new(k, |j: int| backoff_delay(initial_delay, (0 + j) as nat))
        =~= Seq::new(k, |j: int| backoff_delay(initial_delay, j as nat)));
    assert(Seq::new(max_retries as nat, |j: int| backoff_delay(initial_delay, (0 + j) as nat))
        =~= Seq::new(max_retries as nat, |j: int| backoff_delay(initial_delay, j as nat)));
}

/// The items whose outcome is a success, in order.
pub open spec fn successes<T, E>(items: Seq<T>, outcomes: Seq<core::result::Result<(), E>>) -> Seq<T>
    decreases items.len(),
{
    if items.len() == 0 || outcomes.len() == 0 {
        Seq::empty()
    } else {
        let rest = successes(items.drop_last(), outcomes.drop_last());
        if outcomes.last() is Ok { rest.push(items.last()) } else { rest }
    }
}

/// The errors among the outcomes, in order.
pub open spec fn failures<E>(outcomes: Seq<core::result::Result<(), E>>) -> Seq<E>
    decreases outcomes.len(),
{
    if outcomes.len() == 0 {
        Seq::empty()
    } else {
        let rest = failures(outcomes.drop_last());
        match outcomes.last() {
            Err(e) => rest.push(e),
            Ok(_) => rest,
        }
    }
}

/// Recovery helpers for parsing and reading.
pub struct ErrorRecovery;

/// Recovery strategies around whole operations.
pub struct EnhancedErrorRecovery;

impl EnhancedErrorRecovery {
    /// Runs the operations in order until one succeeds; its result is
    /// returned. Where all fail, the last failure is returned; where there
    /// are none, a parse error.
    pub fn try_operations<T, F: FnOnce() -> Result<T>>(operations: Vec<F>) -> (r: Result<T>)
        requires
            forall|i: int| 0 <= i < operations@.len() ==> (#[trigger] operations@[i]).requires(()),
        ensures
            operations@.len() == 0 ==> (r matches Err(NetworkMonitorError::ParseError(m))
                && m@ == "All operations failed"@),
            r is Ok ==> exists|k: int| 0 <= k < operations@.len() && (#[trigger] operations@[k]).ensures((), r)
                && forall|j: int| 0 <= j < k ==> exists|e: NetworkMonitorError| (#[trigger] operations@[j]).ensures((), Err(e)),
            operations@.len() > 0 && r is Err ==> operations@.last().ensures((), r)
                && forall|j: int| 0 <= j < operations@.len() ==> exists|e: NetworkMonitorError| (#[trigger] operations@[j]).ensures((), Err(e)),
    {
        let ghost all = operations@;
        let n = operations.len();
        let mut ops = operations;
        let mut last_error: Option<NetworkMonitorError> = None;
        let mut done: usize = 0;
        while ops.len() > 0
            invariant
                all == operations@,
                all.len() == n,
                done + ops@.len() == all.len(),
                done == 0 ==> last_error is None,
                ops@ == all.subrange(done as int, all.len() as int),
                forall|i: int| 0 <= i < all.len() ==> (#[trigger] all[i]).requires(()),
                forall|j: int| 0 <= j < done ==> exists|e: NetworkMonitorError| (#[trigger] all[j]).ensures((), Err(e)),
                done > 0 ==> (last_error matches Some(e) && all[done - 1].ensures((), Err(e))),
            decreases ops@.len(),
        {
            let op = ops.remove(0);
            assert(op == all[done as int]);
            match op() {
                Ok(result) => {
                    assert(operations@[done as int].ensures((), Ok::<T, NetworkMonitorError>(result)));
                    return Ok(result);
                },
                Err(e) => {
                    proof {
                        assert(all[done as int].ensures((), Err(e)));
                    }
                    last_error = Some(e);
                },
            }
            done = done + 1;
            assert(ops@ =~= all.subrange(done as int, all.len() as int));
        }
        match last_error {
            Some(e) => Err(e),
            None => Err(NetworkMonitorError::ParseError(String::from_str("All operations failed"))),
        }
    }

    /// Runs `primary`; where it fails, runs `fallback` and returns what it gives.
    pub fn graceful_degradation<T, P: FnOnce() -> Result<T>, F: FnOnce() -> T>(primary: P, fallback: F) -> (r: T)
        requires
            primary.requires(()),
            fallback.requires(()),
        ensures
            primary.ensures((), Ok::<T, NetworkMonitorError>(r))
                || (exists|e: NetworkMonitorError| primary.ensures((), Err::<T, NetworkMonitorError>(e))) && fallback.ensures((), r),
    {
        match primary() {
            Ok(result) => result,
            Err(_) => fallback(),
        }
    }

    /// Runs `operation` through the circuit breaker at time `now`.
    pub fn with_circuit_breaker<T, F: FnOnce() -> Result<T>>(
        circuit_breaker: &mut CircuitBreaker,
        now: u64,
        operation: F,
    ) -> (r: Result<T>)
        requires
            breaker_wf(old(circuit_breaker)@),
            operation.requires(()),
        ensures
            breaker_wf(final(circuit_breaker)@),
            !admits(old(circuit_breaker)@, now) ==> (final(circuit_breaker)@ == old(circuit_breaker)@ && (r matches Err(
                NetworkMonitorError::ParseError(m)) && m@ == breaker_open_message())),
            admits(old(circuit_breaker)@, now) ==> operation.ensures((), r) && final(circuit_breaker)@ == if r is Ok {
                after_success(admitted(old(circuit_breaker)@, now))
            } else {
                after_failure(admitted(old(circuit_breaker)@, now), now)
            },
    {
        circuit_breaker.call(now, operation)
    }

    /// Applies `operation` to every item, never stopping early; the items it
    /// succeeded on and the errors of the others, each in order.
    pub fn batch_with_partial_failure<T, F: Fn(&T) -> Result<()>>(items: Vec<T>, operation: F) -> (r: (Vec<T>, Vec<NetworkMonitorError>))
        requires
            forall|i: int| 0 <= i < items@.len() ==> operation.requires((&items@[i],)),
        ensures
            exists|outcomes: Seq<Result<()>>| {
                &&& outcomes.len() == items@.len()
                &&& forall|i: int| 0 <= i < items@.len() ==> operation.ensures((&items@[i],), #[trigger] outcomes[i])
                &&& r.0@ == successes(items@, outcomes)
                &&& r.1@ == failures(outcomes)
            },
    {
        let ghost all = items@;
        let n = items.len();
        let mut rest = items;
        let mut reversed: Vec<T> = Vec::new();
        while rest.len() > 0
            invariant
                reversed@.len() + rest@.len() == all.len(),
                rest@ == all.subrange(0, rest@.len() as int),
                forall|j: int| 0 <= j < reversed@.len() ==> reversed@[j] == all[all.len() - 1 - j],
            decreases rest@.len(),
        {
            let x = rest.pop().unwrap();
            reversed.push(x);
            assert(rest@ =~= all.subrange(0, rest@.len() as int));
        }
        let mut successful: Vec<T> = Vec::new();
        let mut failed: Vec<NetworkMonitorError> = Vec::new();
        let ghost mut outcomes: Seq<Result<()>> = Seq::empty();
        let mut done: usize = 0;
        while reversed.len() > 0
            invariant
                all.len() == n,
                done + reversed@.len() == all.len(),
                forall|j: int| 0 <= j < reversed@.len() ==> reversed@[j] == all[all.len() - 1 - j],
                forall|i: int| 0 <= i < all.len() ==> operation.requires((&all[i],)),
                outcomes.len() == done,
                forall|i: int| 0 <= i < done ==> operation.ensures((&all[i],), #[trigger] outcomes[i]),
                successful@ == successes(all.subrange(0, done as int), outcomes),
                failed@ == failures(outcomes),
            decreases reversed@.len(),
        {
            let item = reversed.pop().unwrap();
            assert(item == all[done as int]);
            let out = operation(&item);
            proof {
                let prev = outcomes;
                outcomes = outcomes.push(out);
                assert(all.subrange(0, done + 1).drop_last() =~= all.subrange(0, done as int));
                assert(outcomes.drop_last() =~= prev);
            }
            match out {
                Ok(_) => successful.push(item),
                Err(e) => failed.push(e),
            }
            done = done + 1;
        }
        assert(all.subrange(0, all.len() as int) =~= all);
        (successful, failed)
    }
}

impl ErrorRecovery {
    /// What `parser` gives for `line`, or `fallback` where it fails.
    pub fn parse_line_with_fallback<T, P: Fn(&str) -> Result<T>>(line: &str, parser: P, fallback: T) -> (r: T)
        requires
            parser.requires((line,)),
        ensures
            parser.ensures((line,), Ok::<T, NetworkMonitorError>(r))
                || (exists|e: NetworkMonitorError| parser.ensures((line,), Err::<T, NetworkMonitorError>(e))) && r == fallback,
    {
        match parser(line) {
            Ok(v) => v,
            Err(_) => fallback,
        }
    }

    /// The TCP connections then the UDP ones, leaving out a kind whose
    /// reading failed.
    pub fn get_connections_with_fallback<A: Fn() -> Result<Vec<Connection>>, B: Fn() -> Result<Vec<Connection>>>(
        get_tcp: A,
        get_udp: B,
    ) -> (r: Vec<Connection>)
        requires
            get_tcp.requires(()),
            get_udp.requires(()),
        ensures
            exists|t: Result<Vec<Connection>>, u: Result<Vec<Connection>>| {
                &&& get_tcp.ensures((), t)
                &&& get_udp.ensures((), u)
                &&& r@ == (match t { Ok(v) => v@, Err(_) => Seq::empty() }) + (match u { Ok(v) => v@, Err(_) => Seq::empty() })
            },
    {
        let mut connections: Vec<Connection> = Vec::new();
        let t = get_tcp();
        let ghost t_seq = match &t { Ok(v) => v@, Err(_) => Seq::empty() };
        if let Ok(mut tcp) = t {
            connections.append(&mut tcp);
        }
        assert(connections@ =~= t_seq);
        let u = get_udp();
        let ghost u_seq = match &u { Ok(v) => v@, Err(_) => Seq::empty() };
        if let Ok(mut udp) = u {
            connections.append(&mut udp);
        }
        assert(connections@ =~= t_seq + u_seq);
        connections
    }
}

} // verus!
