//! Small token-bucket rate limiter for device data paths.
use vstd::prelude::*;

pub mod laws;
pub mod ticker;

pub use ticker::Ticker;

verus! {

pub const NANOS_PER_SEC: u64 = 1_000_000_000;

/// `std::time::Instant`, a reading of the system's monotonic clock.
#[verifier::external_type_specification]
#[verifier::external_body]
pub struct ExInstant(std::time::Instant);

/// `Instant::now` reads the monotonic clock; nothing is claimed of the reading.
pub assume_specification[ std::time::Instant::now ]() -> std::time::Instant;

/// `Instant::elapsed` gives the time since a reading; nothing is claimed of how long it is.
pub assume_specification[ std::time::Instant::elapsed ](
    start: &std::time::Instant,
) -> std::time::Duration;

/// `Duration::as_nanos` gives a span in nanoseconds; nothing is claimed of how many.
pub assume_specification[ std::time::Duration::as_nanos ](span: &std::time::Duration) -> u128;

/// A source of the current time in nanoseconds.
pub trait RateLimitClock: Send + Sync {
    /// The clock may show `ns`.
    open spec fn may_show(&self, ns: u64) -> bool {
        true
    }

    fn now_ns(&self) -> (ns: u64)
        ensures
            self.may_show(ns),
    ;
}

/// The system's monotonic clock, counted from the clock's creation.
pub struct MonotonicClock {
    pub start: std::time::Instant,
}

impl MonotonicClock {
    /// A clock that counts from the moment at which it is made.
    pub fn new() -> (c: Self)
        ensures
            call_ensures(std::time::Instant::now, (), c.start),
    {
        MonotonicClock { start: std::time::Instant::now() }
    }

    /// `ns` is what the clock may show: the time that has elapsed since its start, in nanoseconds.
    pub open spec fn shows(&self, ns: u64) -> bool {
        exists|span: std::time::Duration, nanos: u128|
            call_ensures(std::time::Instant::elapsed, (&self.start,), span)
                && #[trigger] call_ensures(std::time::Duration::as_nanos, (&span,), nanos) && ns
                == saturated(nanos)
    }
}

/// A count of nanoseconds in 64 bits, at most the largest such value.
pub open spec fn saturated(nanos: u128) -> u64 {
    if nanos <= u64::MAX {
        nanos as u64
    } else {
        u64::MAX
    }
}

/// A count of nanoseconds in 64 bits, at most the largest such value.
pub fn saturate_nanos(nanos: u128) -> (ns: u64)
    ensures
        ns == saturated(nanos),
{
    if nanos <= u64::MAX as u128 {
        nanos as u64
    } else {
        u64::MAX
    }
}

impl RateLimitClock for MonotonicClock {
    /// The time that has elapsed since the clock's start, in nanoseconds.
    open spec fn may_show(&self, ns: u64) -> bool {
        self.shows(ns)
    }

    fn now_ns(&self) -> (ns: u64) {
        let span = self.start.elapsed();
        let nanos: u128 = span.as_nanos();
        saturate_nanos(nanos)
    }
}

impl RateLimitClock for Box<dyn RateLimitClock> {
    /// What the clock in the box may show.
    open spec fn may_show(&self, ns: u64) -> bool {
        (**self).may_show(ns)
    }

    fn now_ns(&self) -> (ns: u64) {
        (**self).now_ns()
    }
}

/// The clock of a limiter: the system's, or one that it was given.
pub enum LimiterClock<C> {
    System(MonotonicClock),
    Given(C),
}

impl<C: RateLimitClock> RateLimitClock for LimiterClock<C> {
    /// What the clock that it is may show.
    open spec fn may_show(&self, ns: u64) -> bool {
        match self {
            LimiterClock::System(c) => c.may_show(ns),
            LimiterClock::Given(c) => c.may_show(ns),
        }
    }

    fn now_ns(&self) -> (ns: u64) {
        match self {
            LimiterClock::System(c) => c.now_ns(),
            LimiterClock::Given(c) => c.now_ns(),
        }
    }
}

/// What a clock may show.
pub open spec fn shown_by<C: RateLimitClock>(clock: C) -> spec_fn(u64) -> bool {
    |ns: u64| clock.may_show(ns)
}

/// A bucket of `capacity` tokens that fills at `refill_per_sec` tokens per second.
#[derive(Debug, Copy, Clone, PartialEq, Eq, Structural)]
pub struct TokenBucket {
    pub capacity: u64,
    pub refill_per_sec: u64,
    pub tokens: i128,
    pub last_refill_ns: u64,
}

impl TokenBucket {
    /// No bucket holds more than its capacity, or owes more than one largest charge.
    pub open spec fn wf(self) -> bool {
        -0x1_0000_0000_0000_0000 < self.tokens <= self.capacity
    }

    /// The tokens that the time up to `now_ns` adds.
    pub open spec fn earned(self, now_ns: u64) -> int {
        if self.refill_per_sec == 0 || now_ns <= self.last_refill_ns {
            0
        } else {
            (now_ns - self.last_refill_ns) * self.refill_per_sec / (NANOS_PER_SEC as int)
        }
    }

    /// The nanoseconds that `added` tokens take, at least one.
    pub open spec fn time_for(self, added: int) -> int {
        let t = added * NANOS_PER_SEC / (self.refill_per_sec as int);
        if t < 1 {
            1
        } else {
            t
        }
    }

    /// The bucket as it stands at `now_ns`. The time that its new tokens took is used up; a
    /// full bucket earns nothing.
    pub open spec fn refilled(self, now_ns: u64) -> TokenBucket {
        let added = self.earned(now_ns);
        if added == 0 {
            self
        } else if self.tokens + added >= self.capacity {
            TokenBucket { tokens: self.capacity as i128, last_refill_ns: now_ns, ..self }
        } else {
            TokenBucket {
                tokens: (self.tokens + added) as i128,
                last_refill_ns: if self.time_for(added) < now_ns - self.last_refill_ns {
                    (self.last_refill_ns + self.time_for(added)) as u64
                } else {
                    now_ns
                },
                ..self
            }
        }
    }

    /// Whether a charge of `amount` goes through: with enough tokens, or with a full bucket
    /// where the charge exceeds the capacity.
    pub open spec fn affords(self, amount: u64) -> bool {
        ||| amount == 0
        ||| self.capacity != 0 && self.tokens >= (if amount <= self.capacity {
            amount
        } else {
            self.capacity
        })
    }

    /// The bucket after a charge of `amount`.
    pub open spec fn charged(self, amount: u64) -> TokenBucket {
        TokenBucket {
            tokens: if self.tokens - amount < i128::MIN {
                i128::MIN
            } else {
                (self.tokens - amount) as i128
            },
            ..self
        }
    }

    pub fn new(capacity: u64, refill_per_sec: u64) -> (b: Self)
        ensures
            b == (TokenBucket {
                capacity,
                refill_per_sec,
                tokens: capacity as i128,
                last_refill_ns: 0,
            }),
            b.wf(),
    {
        Self::new_at(capacity, refill_per_sec, 0)
    }

    pub fn new_at(capacity: u64, refill_per_sec: u64, now_ns: u64) -> (b: Self)
        ensures
            b == (TokenBucket {
                capacity,
                refill_per_sec,
                tokens: capacity as i128,
                last_refill_ns: now_ns,
            }),
            b.wf(),
    {
        TokenBucket {
            capacity,
            refill_per_sec,
            tokens: capacity as i128,
            last_refill_ns: now_ns,
        }
    }

    pub fn refill(&mut self, now_ns: u64)
        ensures
            *final(self) == old(self).refilled(now_ns),
    {
        if self.refill_per_sec == 0 || now_ns <= self.last_refill_ns {
            return ;
        }
        let elapsed_ns: u64 = now_ns - self.last_refill_ns;
        let rate: u64 = self.refill_per_sec;
        proof {
            assert(elapsed_ns * rate <= 0xffff_ffff_ffff_ffff * 0xffff_ffff_ffff_ffff)
                by (nonlinear_arith)
                requires
                    elapsed_ns <= 0xffff_ffff_ffff_ffff,
                    rate <= 0xffff_ffff_ffff_ffff,
            ;
            assert(elapsed_ns * rate >= 0) by (nonlinear_arith);
        }
        let product: u128 = (elapsed_ns as u128) * (rate as u128);
        let added: u128 = product / (NANOS_PER_SEC as u128);
        if added == 0 {
            return ;
        }
        assert(added * 1_000_000_000 <= product) by (nonlinear_arith)
            requires
                added == product / 1_000_000_000,
                product >= 0,
        ;
        let spent: u128 = added * (NANOS_PER_SEC as u128) / (rate as u128);
        let elapsed_for_added: u128 = if spent < 1 {
            1
        } else {
            spent
        };
        assert(added <= 0x7fff_ffff_ffff_ffff_ffff_ffff_ffff_ffff);
        let added: i128 = added as i128;
        let capacity: i128 = self.capacity as i128;
        if self.tokens >= capacity - added {
            self.tokens = capacity;
            self.last_refill_ns = now_ns;
        } else {
            self.tokens = self.tokens + added;
            if elapsed_for_added < elapsed_ns as u128 {
                self.last_refill_ns = self.last_refill_ns + elapsed_for_added as u64;
            } else {
                self.last_refill_ns = now_ns;
            }
        }
    }

    #[must_use]
    pub fn consume(&mut self, amount: u64, now_ns: u64) -> (ok: bool)
        ensures
            ok == old(self).refilled(now_ns).affords(amount),
            *final(self) == (if ok {
                old(self).refilled(now_ns).charged(amount)
            } else {
                old(self).refilled(now_ns)
            }),
    {
        self.refill(now_ns);
        if !self.can_consume(amount) {
            return false;
        }
        self.consume_without_refill(amount);
        true
    }

    pub fn tokens(&self) -> (t: i128)
        ensures
            t == self.tokens,
    {
        self.tokens
    }

    pub fn can_consume(&self, amount: u64) -> (ok: bool)
        ensures
            ok == self.affords(amount),
    {
        if amount == 0 {
            return true;
        }
        if self.capacity == 0 {
            return false;
        }
        if amount <= self.capacity {
            self.tokens >= amount as i128
        } else {
            self.tokens >= self.capacity as i128
        }
    }

    pub fn consume_without_refill(&mut self, amount: u64)
        ensures
            *final(self) == old(self).charged(amount),
    {
        if self.tokens < i128::MIN + amount as i128 {
            self.tokens = i128::MIN;
        } else {
            self.tokens = self.tokens - amount as i128;
        }
    }
}

/// Refilling and charging keep a bucket between its capacity and one largest charge of debt.
pub proof fn law_bucket_stays_bounded(b: TokenBucket, amount: u64, now_ns: u64)
    requires
        b.wf(),
    ensures
        b.refilled(now_ns).wf(),
        b.refilled(now_ns).affords(amount) ==> b.refilled(now_ns).charged(amount).wf(),
{
    lemma_earned_nonnegative(b, now_ns);
}

/// A refill takes no token away and never moves the bucket's clock past the present.
pub proof fn law_refill_monotone(b: TokenBucket, now_ns: u64)
    requires
        b.wf(),
    ensures
        b.refilled(now_ns).tokens >= b.tokens,
        b.refilled(now_ns).last_refill_ns >= b.last_refill_ns,
        b.last_refill_ns <= now_ns ==> b.refilled(now_ns).last_refill_ns <= now_ns,
{
    lemma_earned_nonnegative(b, now_ns);
}

/// Time that is accounted for in two steps earns no fewer tokens than in one: the remainder of a
/// refill is kept for the next. A refill whose tokens take less than a nanosecond uses up a whole
/// one, and may so cost the next refill a token, but no more than that.
pub proof fn law_refill_keeps_the_remainder(b: TokenBucket, t1: u64, t2: u64)
    requires
        b.wf(),
        t1 <= t2,
    ensures
        b.earned(t1) == 0 || b.earned(t1) * NANOS_PER_SEC >= b.refill_per_sec
            ==> b.refilled(t1).refilled(t2).tokens >= b.refilled(t2).tokens,
        b.refilled(t1).refilled(t2).tokens + 1 >= b.refilled(t2).tokens,
{
    let mid = b.refilled(t1);
    let a1 = b.earned(t1);
    let a2 = b.earned(t2);
    law_bucket_stays_bounded(b, 0, t1);
    law_bucket_stays_bounded(b, 0, t2);
    law_refill_monotone(mid, t2);
    lemma_earned_nonnegative(b, t1);
    lemma_earned_nonnegative(b, t2);
    lemma_earned_nonnegative(mid, t2);
    if a1 != 0 && b.tokens + a1 < b.capacity {
        let rate = b.refill_per_sec as int;
        let d1 = t1 - b.last_refill_ns;
        let d2 = t2 - b.last_refill_ns;
        let u = mid.last_refill_ns - b.last_refill_ns;
        let n = NANOS_PER_SEC as int;
        let q = a1 * n / rate;
        assert(q * rate <= a1 * n && q <= d1 && (a1 * n >= rate ==> q >= 1)) by (nonlinear_arith)
            requires
                rate > 0,
                n == 1_000_000_000,
                d1 > 0,
                a1 > 0,
                a1 == d1 * rate / n,
                q == a1 * n / rate,
        ;
        assert(u == if q < 1 {
            1
        } else {
            q
        });
        let slack = if q < 1 {
            1int
        } else {
            0int
        };
        assert(u * rate <= (a1 + slack) * n) by (nonlinear_arith)
            requires
                rate > 0,
                n == 1_000_000_000,
                d1 > 0,
                a1 == d1 * rate / n,
                q * rate <= a1 * n,
                q >= 1 && u == q && slack == 0 || q < 1 && u == 1 && slack == 1,
        ;
        let left = (d2 - u) * rate / n;
        assert(left + a1 + slack >= a2) by (nonlinear_arith)
            requires
                n == 1_000_000_000,
                u * rate <= (a1 + slack) * n,
                left == (d2 - u) * rate / n,
                a2 == d2 * rate / n,
        ;
        assert(mid.earned(t2) == left) by {
            if d2 == u {
                assert((d2 - u) * rate == 0) by (nonlinear_arith)
                    requires
                        d2 == u,
                ;
            }
        }
    }
}

/// A charge that is refused goes through once the missing tokens are earned: a bucket that fills
/// does not refuse for ever.
pub proof fn law_charge_goes_through_in_time(b: TokenBucket, amount: u64, now_ns: u64)
    requires
        b.capacity != 0,
        b.refill_per_sec != 0,
        now_ns > b.last_refill_ns,
        (now_ns - b.last_refill_ns) * b.refill_per_sec >= ((if amount <= b.capacity {
            amount as int
        } else {
            b.capacity as int
        }) - b.tokens) * NANOS_PER_SEC,
    ensures
        b.refilled(now_ns).affords(amount),
{
    let need = if amount <= b.capacity {
        amount as int
    } else {
        b.capacity as int
    };
    let product = (now_ns - b.last_refill_ns) * b.refill_per_sec;
    assert(b.earned(now_ns) >= need - b.tokens) by (nonlinear_arith)
        requires
            b.earned(now_ns) == product / 1_000_000_000,
            product >= (need - b.tokens) * 1_000_000_000,
    ;
    lemma_earned_nonnegative(b, now_ns);
}

proof fn lemma_earned_nonnegative(b: TokenBucket, now_ns: u64)
    ensures
        b.earned(now_ns) >= 0,
{
    if b.refill_per_sec != 0 && now_ns > b.last_refill_ns {
        let e = now_ns - b.last_refill_ns;
        assert(e * b.refill_per_sec >= 0) by (nonlinear_arith)
            requires
                e >= 0,
        ;
    }
}

/// An operation bucket and a byte bucket that are charged together.
pub struct RateLimiter<C = Box<dyn RateLimitClock>> {
    pub ops: TokenBucket,
    pub bytes: TokenBucket,
    pub clock: Ticker<LimiterClock<C>>,
}

/// The two buckets of a [`RateLimiter`], what its clock may show, and what it has shown, oldest
/// first.
#[verifier::ext_equal]
pub struct Buckets {
    pub ops: TokenBucket,
    pub bytes: TokenBucket,
    pub shows: spec_fn(u64) -> bool,
    pub readings: Seq<u64>,
}

impl Buckets {
    /// Both buckets as they stand at `now_ns`.
    pub open spec fn refilled(self, now_ns: u64) -> Buckets {
        Buckets { ops: self.ops.refilled(now_ns), bytes: self.bytes.refilled(now_ns), ..self }
    }

    /// Whether both charges go through at `now_ns`.
    pub open spec fn afford_at(self, ops: u64, bytes: u64, now_ns: u64) -> bool {
        self.refilled(now_ns).ops.affords(ops) && self.refilled(now_ns).bytes.affords(bytes)
    }

    /// The buckets after an attempt to charge both at `now_ns`: both are charged, or neither.
    pub open spec fn after_charge(self, ops: u64, bytes: u64, now_ns: u64) -> Buckets {
        if self.afford_at(ops, bytes, now_ns) {
            Buckets {
                ops: self.refilled(now_ns).ops.charged(ops),
                bytes: self.refilled(now_ns).bytes.charged(bytes),
                ..self
            }
        } else {
            self.refilled(now_ns)
        }
    }

    /// The buckets, when the clock has shown `now_ns`.
    pub open spec fn shown(self, now_ns: u64) -> Buckets {
        Buckets { readings: self.readings.push(now_ns), ..self }
    }
}

impl<C: RateLimitClock> View for RateLimiter<C> {
    type V = Buckets;

    open spec fn view(&self) -> Buckets {
        Buckets {
            ops: self.ops,
            bytes: self.bytes,
            shows: shown_by(self.clock.source()),
            readings: self.clock@,
        }
    }
}

impl RateLimiter {
    /// Two full buckets that the system's monotonic clock drives.
    pub fn new(ops_per_sec: u64, bytes_per_sec: u64) -> (r: Self)
        ensures
            r.clock.source() matches LimiterClock::System(c) && call_ensures(
                std::time::Instant::now,
                (),
                c.start,
            ),
            r.is_full(ops_per_sec, bytes_per_sec),
    {
        Self::full(ops_per_sec, bytes_per_sec, LimiterClock::System(MonotonicClock::new()))
    }
}

impl<C: RateLimitClock> RateLimiter<C> {
    /// The clock was read once, and both buckets are full from that moment on.
    pub open spec fn is_full(&self, ops_per_sec: u64, bytes_per_sec: u64) -> bool {
        &&& self@.readings.len() == 1
        &&& self.clock.source().may_show(self@.readings[0])
        &&& self@.ops == full_bucket(ops_per_sec, self@.readings[0])
        &&& self@.bytes == full_bucket(bytes_per_sec, self@.readings[0])
    }

    /// Two full buckets that `clock` drives.
    pub fn new_with_clock(ops_per_sec: u64, bytes_per_sec: u64, clock: C) -> (r: Self)
        ensures
            r.clock.source() == LimiterClock::Given(clock),
            r.is_full(ops_per_sec, bytes_per_sec),
    {
        Self::full(ops_per_sec, bytes_per_sec, LimiterClock::Given(clock))
    }

    fn full(ops_per_sec: u64, bytes_per_sec: u64, clock: LimiterClock<C>) -> (r: Self)
        ensures
            r.clock.source() == clock,
            r.is_full(ops_per_sec, bytes_per_sec),
    {
        let mut clock = Ticker::new(clock);
        let now_ns: u64 = clock.now_ns();
        RateLimiter {
            ops: TokenBucket::new_at(ops_per_sec, ops_per_sec, now_ns),
            bytes: TokenBucket::new_at(bytes_per_sec, bytes_per_sec, now_ns),
            clock,
        }
    }

    #[must_use]
    pub fn try_charge(&mut self, ops: u64, bytes: u64) -> (ok: bool)
        ensures
            charge_outcome(old(self)@, ops, bytes, final(self)@, ok),
            final(self).clock.source() == old(self).clock.source(),
    {
        let now_ns: u64 = self.clock.now_ns();
        let ok = self.try_charge_at(ops, bytes, now_ns);
        assert((old(self)@.shows)(now_ns));
        assert(ok == old(self)@.afford_at(ops, bytes, now_ns));
        assert(self@ =~= old(self)@.after_charge(ops, bytes, now_ns).shown(now_ns));
        ok
    }

    #[must_use]
    pub fn try_charge_at(&mut self, ops: u64, bytes: u64, now_ns: u64) -> (ok: bool)
        ensures
            ok == old(self)@.afford_at(ops, bytes, now_ns),
            final(self)@ == old(self)@.after_charge(ops, bytes, now_ns),
            final(self).clock == old(self).clock,
    {
        self.ops.refill(now_ns);
        self.bytes.refill(now_ns);

        if !self.ops.can_consume(ops) || !self.bytes.can_consume(bytes) {
            return false;
        }
        self.ops.consume_without_refill(ops);
        self.bytes.consume_without_refill(bytes);
        true
    }
}

/// A full bucket that earns its capacity each second from `now_ns` on.
pub open spec fn full_bucket(per_sec: u64, now_ns: u64) -> TokenBucket {
    TokenBucket {
        capacity: per_sec,
        refill_per_sec: per_sec,
        tokens: per_sec as i128,
        last_refill_ns: now_ns,
    }
}

/// An attempt to charge both buckets may turn `before` into `after` with answer `ok`: the clock is
/// read once, and the charge is made at the time that it shows.
pub open spec fn charge_outcome(
    before: Buckets,
    ops: u64,
    bytes: u64,
    after: Buckets,
    ok: bool,
) -> bool {
    exists|now_ns: u64|
        (before.shows)(now_ns) && #[trigger] before.afford_at(ops, bytes, now_ns) == ok && after
            == before.after_charge(
            ops,
            bytes,
            now_ns,
        ).shown(now_ns)
}

/// The buckets of a limiter, if there is one.
pub open spec fn limiter_view(l: Option<RateLimiter>) -> Option<Buckets> {
    match l {
        Some(rl) => Some(rl@),
        None => None,
    }
}

/// Charging one operation of `bytes` bytes may turn limiter `before` into `after` with answer
/// `ok`. Without a limiter everything is allowed.
pub open spec fn limiter_charges(
    before: Option<Buckets>,
    bytes: u64,
    after: Option<Buckets>,
    ok: bool,
) -> bool {
    match before {
        None => after is None && ok,
        Some(b) => after matches Some(a) && charge_outcome(b, 1, bytes, a, ok),
    }
}

/// Charges one operation of `bytes` bytes, if there is a limiter.
pub fn charge(limiter: &mut Option<RateLimiter>, bytes: u64) -> (ok: bool)
    ensures
        limiter_charges(limiter_view(*old(limiter)), bytes, limiter_view(*final(limiter)), ok),
{
    match limiter {
        Some(rl) => rl.try_charge(1, bytes),
        None => true,
    }
}

/// A refused charge takes no token from either bucket.
pub proof fn law_refused_charge_takes_nothing(b: Buckets, ops: u64, bytes: u64, now_ns: u64)
    requires
        b.ops.wf(),
        b.bytes.wf(),
        !b.afford_at(ops, bytes, now_ns),
    ensures
        b.after_charge(ops, bytes, now_ns) == b.refilled(now_ns),
        b.after_charge(ops, bytes, now_ns).ops.tokens >= b.ops.tokens,
        b.after_charge(ops, bytes, now_ns).bytes.tokens >= b.bytes.tokens,
{
    law_refill_monotone(b.ops, now_ns);
    law_refill_monotone(b.bytes, now_ns);
}

} // verus!
