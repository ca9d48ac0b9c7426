//! What a charge takes from the buckets, and what a span of time allows.
use crate::rate_limit::{self, Buckets, RateLimitClock, RateLimiter, TokenBucket};
use vstd::prelude::*;

verus! {

/// `b` has become `r` by the passing of time up to `now_ns`, in which each second earns
/// `refill_per_sec` tokens: `r` holds all whole tokens that were earned and fit, and no more.
pub open spec fn has_earned(b: TokenBucket, now_ns: u64, r: TokenBucket) -> bool {
    let gained = r.tokens - b.tokens;
    let due = if now_ns > b.last_refill_ns {
        (now_ns - b.last_refill_ns) * b.refill_per_sec
    } else {
        0
    };
    &&& r.capacity == b.capacity
    &&& r.refill_per_sec == b.refill_per_sec
    &&& b.tokens <= r.tokens <= b.capacity
    &&& gained * 1_000_000_000 <= due
    &&& r.tokens < b.capacity ==> due < (gained + 1) * 1_000_000_000
    &&& b.last_refill_ns <= r.last_refill_ns
    &&& r.last_refill_ns <= now_ns || r.last_refill_ns == b.last_refill_ns
    &&& gained * 1_000_000_000 <= (r.last_refill_ns - b.last_refill_ns + 1) * b.refill_per_sec
}

/// A refill adds the whole tokens that the elapsed time has earned at the bucket's rate, up to its
/// capacity. The time that it uses up has earned what it added, to within a nanosecond.
pub proof fn law_refill_adds_what_was_earned(b: TokenBucket, now_ns: u64)
    requires
        b.wf(),
    ensures
        has_earned(b, now_ns, b.refilled(now_ns)),
{
    let r = b.refilled(now_ns);
    let added = b.earned(now_ns);
    let rate = b.refill_per_sec as int;
    rate_limit::law_refill_monotone(b, now_ns);
    if rate == 0 {
        assert((now_ns - b.last_refill_ns) * rate == 0) by (nonlinear_arith)
            requires
                rate == 0,
        ;
        assert((r.last_refill_ns - b.last_refill_ns + 1) * rate == 0) by (nonlinear_arith)
            requires
                rate == 0,
        ;
    } else if now_ns > b.last_refill_ns {
        let d = now_ns - b.last_refill_ns;
        let due = d * rate;
        assert(due >= 0 && added * 1_000_000_000 <= due < (added + 1) * 1_000_000_000)
            by (nonlinear_arith)
            requires
                d > 0,
                rate > 0,
                due == d * rate,
                added == due / 1_000_000_000,
        ;
        let q = added * 1_000_000_000 / rate;
        assert(added * 1_000_000_000 < (q + 1) * rate && q >= 0) by (nonlinear_arith)
            requires
                rate > 0,
                added >= 0,
                q == added * 1_000_000_000 / rate,
        ;
        let u = r.last_refill_ns - b.last_refill_ns;
        let gained = r.tokens - b.tokens;
        assert(gained <= added);
        assert(gained * 1_000_000_000 <= (u + 1) * rate) by (nonlinear_arith)
            requires
                rate > 0,
                gained <= added,
                u >= 0,
                added == 0 || u >= q || u == d,
                added * 1_000_000_000 < (q + 1) * rate,
                added * 1_000_000_000 <= d * rate,
        ;
    } else {
        assert((r.last_refill_ns - b.last_refill_ns + 1) * rate >= 0) by (nonlinear_arith)
            requires
                r.last_refill_ns >= b.last_refill_ns,
                rate >= 0,
        ;
    }
}

/// A bucket of `tokens` tokens lets a charge through: it asks for nothing, or for no more than
/// there is, or for more than the bucket can hold while the bucket is full.
pub open spec fn lets_through(b: TokenBucket, amount: int) -> bool {
    ||| amount == 0
    ||| 0 < b.capacity && amount <= b.capacity && amount <= b.tokens
    ||| 0 < b.capacity < amount && b.capacity <= b.tokens
}

/// A charge takes exactly its amount. At the time that the clock showed, each bucket held what it
/// had earned by then. Where both let the charge through, the operation bucket holds `ops` tokens
/// fewer afterwards, and the byte bucket `bytes` fewer; where one does not, both keep all theirs.
pub proof fn law_charge_takes_its_amount(
    b: Buckets,
    ops: u64,
    bytes: u64,
    now_ns: u64,
) -> (r: (TokenBucket, TokenBucket))
    requires
        b.ops.wf(),
        b.bytes.wf(),
    ensures
        has_earned(b.ops, now_ns, r.0),
        has_earned(b.bytes, now_ns, r.1),
        r.0 == b.ops.refilled(now_ns),
        r.1 == b.bytes.refilled(now_ns),
        b.afford_at(ops, bytes, now_ns) <==> lets_through(r.0, ops as int) && lets_through(
            r.1,
            bytes as int,
        ),
        ({
            let after = b.after_charge(ops, bytes, now_ns);
            let ok = b.afford_at(ops, bytes, now_ns);
            &&& after.ops == TokenBucket { tokens: after.ops.tokens, ..r.0 }
            &&& after.bytes == TokenBucket { tokens: after.bytes.tokens, ..r.1 }
            &&& after.ops.tokens == r.0.tokens - (if ok {
                ops as int
            } else {
                0
            })
            &&& after.bytes.tokens == r.1.tokens - (if ok {
                bytes as int
            } else {
                0
            })
            &&& after.shows == b.shows
            &&& after.readings == b.readings
        }),
{
    law_refill_adds_what_was_earned(b.ops, now_ns);
    law_refill_adds_what_was_earned(b.bytes, now_ns);
    rate_limit::law_bucket_stays_bounded(b.ops, ops, now_ns);
    rate_limit::law_bucket_stays_bounded(b.bytes, bytes, now_ns);
    (b.ops.refilled(now_ns), b.bytes.refilled(now_ns))
}

/// A bucket that is asked for `amount` at `now_ns` takes exactly `amount` where it grants it, and
/// nothing where it does not.
pub proof fn law_consume_takes_its_amount(b: TokenBucket, amount: u64, now_ns: u64)
    requires
        b.wf(),
    ensures
        ({
            let r = b.refilled(now_ns);
            &&& r.affords(amount) <==> lets_through(r, amount as int)
            &&& r.affords(amount) ==> r.charged(amount) == TokenBucket {
                tokens: (r.tokens - amount) as i128,
                ..r
            }
            &&& r.affords(amount) ==> r.charged(amount).tokens == r.tokens - amount
        }),
{
    rate_limit::law_bucket_stays_bounded(b, amount, now_ns);
}

/// The `k`-th attempt of a sequence of attempts was made by a limiter: it asked for `asked[k].0`
/// operations and `asked[k].1` bytes, and was granted where `granted[k]`.
pub open spec fn attempts(
    states: Seq<Buckets>,
    asked: Seq<(u64, u64)>,
    granted: Seq<bool>,
) -> bool {
    &&& states.len() == asked.len() + 1
    &&& granted.len() == asked.len()
    &&& forall|k: int|
        0 <= k < asked.len() ==> rate_limit::charge_outcome(
            states[k],
            (#[trigger] asked[k]).0,
            asked[k].1,
            states[k + 1],
            granted[k],
        )
}

/// The bytes that the first `n` attempts were granted.
pub open spec fn bytes_granted(asked: Seq<(u64, u64)>, granted: Seq<bool>, n: int) -> int
    decreases n,
{
    if n <= 0 {
        0
    } else {
        bytes_granted(asked, granted, n - 1) + (if granted[n - 1] {
            asked[n - 1].1 as int
        } else {
            0
        })
    }
}

/// The operations that the first `n` attempts were granted.
pub open spec fn ops_granted(asked: Seq<(u64, u64)>, granted: Seq<bool>, n: int) -> int
    decreases n,
{
    if n <= 0 {
        0
    } else {
        ops_granted(asked, granted, n - 1) + (if granted[n - 1] {
            asked[n - 1].0 as int
        } else {
            0
        })
    }
}

/// What a bucket has granted is paid for by what it held and what it earned, where it was asked
/// `n` times in a row, the last time at `end` or before.
pub open spec fn is_paid_for(
    first: TokenBucket,
    last: TokenBucket,
    spent: int,
    n: int,
    end: int,
    largest: int,
) -> bool {
    &&& last.wf()
    &&& last.capacity == first.capacity
    &&& last.refill_per_sec == first.refill_per_sec
    &&& first.last_refill_ns <= last.last_refill_ns <= end
    &&& -largest <= last.tokens
    &&& (spent + last.tokens - first.tokens) * 1_000_000_000 <= (last.last_refill_ns
        - first.last_refill_ns + n) * first.refill_per_sec
}

proof fn lemma_paid_on(
    first: TokenBucket,
    b: TokenBucket,
    r: TokenBucket,
    after: TokenBucket,
    spent: int,
    n: int,
    now_ns: u64,
    end: int,
    largest: int,
    taken: int,
)
    requires
        is_paid_for(first, b, spent, n, end, largest),
        has_earned(b, now_ns, r),
        after.wf(),
        after == (TokenBucket { tokens: after.tokens, ..r }),
        after.tokens == r.tokens - taken,
        taken == 0 || lets_through(r, taken),
        0 <= taken <= largest,
        now_ns <= end,
    ensures
        is_paid_for(first, after, spent + taken, n + 1, end, largest),
{
    let rate = first.refill_per_sec as int;
    let u = r.last_refill_ns - b.last_refill_ns;
    let v = b.last_refill_ns - first.last_refill_ns;
    assert((v + n) * rate + (u + 1) * rate == (v + u + n + 1) * rate) by (nonlinear_arith);
}

/// Over any run of attempts a limiter grants no more than its buckets held at the start and earned
/// since, and one charge: with `n` attempts up to the time `end`, the bytes granted are at most
/// the capacity, plus `largest`, plus what the bucket's rate earns from its last refill to `end`
/// and in `n` nanoseconds more, for each refill rounds by less than one. So for operations.
pub proof fn law_span_allows_no_more_than_earned(
    states: Seq<Buckets>,
    asked: Seq<(u64, u64)>,
    granted: Seq<bool>,
    end: u64,
    largest: u64,
)
    requires
        attempts(states, asked, granted),
        states[0].ops.wf() && states[0].ops.tokens >= 0 && states[0].ops.last_refill_ns <= end,
        states[0].bytes.wf() && states[0].bytes.tokens >= 0 && states[0].bytes.last_refill_ns
            <= end,
        forall|k: int| 0 <= k < asked.len() ==> (#[trigger] asked[k]).0 <= largest && asked[k].1 <= largest,
        forall|t: u64| #[trigger] states.last().readings.contains(t) ==> t <= end,
    ensures
        ({
            let n = asked.len() as int;
            let first = states[0];
            &&& bytes_granted(asked, granted, n) * 1_000_000_000 <= (first.bytes.capacity + largest)
                * 1_000_000_000 + (end - first.bytes.last_refill_ns + n)
                * first.bytes.refill_per_sec
            &&& ops_granted(asked, granted, n) * 1_000_000_000 <= (first.ops.capacity + largest)
                * 1_000_000_000 + (end - first.ops.last_refill_ns + n) * first.ops.refill_per_sec
        }),
{
    let n = asked.len() as int;
    let first = states[0];
    assert forall|k: int, t: u64|
        0 <= k <= n && #[trigger] states[k].readings.contains(t) implies t <= end by {
        lemma_readings_stay(states, asked, granted, k);
    }
    lemma_run_is_paid(states, asked, granted, end, largest, n);
    lemma_paid_bound(
        first.bytes,
        states[n].bytes,
        bytes_granted(asked, granted, n),
        n,
        end as int,
        largest as int,
    );
    lemma_paid_bound(
        first.ops,
        states[n].ops,
        ops_granted(asked, granted, n),
        n,
        end as int,
        largest as int,
    );
}

proof fn lemma_paid_bound(
    first: TokenBucket,
    last: TokenBucket,
    spent: int,
    n: int,
    end: int,
    largest: int,
)
    requires
        is_paid_for(first, last, spent, n, end, largest),
        first.wf(),
    ensures
        spent * 1_000_000_000 <= (first.capacity + largest) * 1_000_000_000 + (end
            - first.last_refill_ns + n) * first.refill_per_sec,
{
    let rate = first.refill_per_sec as int;
    let a = last.last_refill_ns - first.last_refill_ns + n;
    let b = end - first.last_refill_ns + n;
    assert(a * rate <= b * rate) by (nonlinear_arith)
        requires
            a <= b,
            rate >= 0,
    ;
}

proof fn lemma_readings_stay(
    states: Seq<Buckets>,
    asked: Seq<(u64, u64)>,
    granted: Seq<bool>,
    k: int,
)
    requires
        attempts(states, asked, granted),
        0 <= k <= asked.len(),
    ensures
        forall|t: u64| #[trigger]
            states[k].readings.contains(t) ==> states.last().readings.contains(t),
    decreases asked.len() - k,
{
    if k < asked.len() {
        lemma_readings_stay(states, asked, granted, k + 1);
        let now_ns = lemma_attempt(states[k], asked[k].0, asked[k].1, states[k + 1], granted[k]);
        assert forall|t: u64| #[trigger] states[k].readings.contains(t) implies states.last().readings.contains(
            t,
        ) by {
            let i = choose|i: int|
                0 <= i < states[k].readings.len() && states[k].readings[i] == t;
            assert(states[k + 1].readings[i] == t);
            assert(states[k + 1].readings.contains(t));
        }
    }
}

proof fn lemma_attempt(b: Buckets, ops: u64, bytes: u64, after: Buckets, ok: bool) -> (now_ns: u64)
    requires
        rate_limit::charge_outcome(b, ops, bytes, after, ok),
    ensures
        (b.shows)(now_ns),
        ok == b.afford_at(ops, bytes, now_ns),
        after == b.after_charge(ops, bytes, now_ns).shown(now_ns),
        after.readings == b.readings.push(now_ns),
        after.shows == b.shows,
{
    choose|now_ns: u64|
        (b.shows)(now_ns) && #[trigger] b.afford_at(ops, bytes, now_ns) == ok && after
            == b.after_charge(ops, bytes, now_ns).shown(now_ns)
}

proof fn lemma_run_is_paid(
    states: Seq<Buckets>,
    asked: Seq<(u64, u64)>,
    granted: Seq<bool>,
    end: u64,
    largest: u64,
    n: int,
)
    requires
        attempts(states, asked, granted),
        0 <= n <= asked.len(),
        states[0].ops.wf() && states[0].ops.tokens >= 0 && states[0].ops.last_refill_ns <= end,
        states[0].bytes.wf() && states[0].bytes.tokens >= 0 && states[0].bytes.last_refill_ns
            <= end,
        forall|k: int| 0 <= k < asked.len() ==> (#[trigger] asked[k]).0 <= largest && asked[k].1 <= largest,
        forall|k: int, t: u64|
            0 <= k <= asked.len() && #[trigger] states[k].readings.contains(t) ==> t <= end,
    ensures
        is_paid_for(
            states[0].bytes,
            states[n].bytes,
            bytes_granted(asked, granted, n),
            n,
            end as int,
            largest as int,
        ),
        is_paid_for(
            states[0].ops,
            states[n].ops,
            ops_granted(asked, granted, n),
            n,
            end as int,
            largest as int,
        ),
    decreases n,
{
    if n > 0 {
        lemma_run_is_paid(states, asked, granted, end, largest, n - 1);
        let b = states[n - 1];
        let (ops, bytes) = asked[n - 1];
        let ok = granted[n - 1];
        let now_ns = lemma_attempt(b, ops, bytes, states[n], ok);
        assert(states[n].readings.last() == now_ns);
        assert(states[n].readings.contains(now_ns));
        let r = law_charge_takes_its_amount(b, ops, bytes, now_ns);
        rate_limit::law_bucket_stays_bounded(b.ops, ops, now_ns);
        rate_limit::law_bucket_stays_bounded(b.bytes, bytes, now_ns);
        lemma_paid_on(
            states[0].bytes,
            b.bytes,
            r.1,
            states[n].bytes,
            bytes_granted(asked, granted, n - 1),
            n - 1,
            now_ns,
            end as int,
            largest as int,
            if ok {
                bytes as int
            } else {
                0
            },
        );
        lemma_paid_on(
            states[0].ops,
            b.ops,
            r.0,
            states[n].ops,
            ops_granted(asked, granted, n - 1),
            n - 1,
            now_ns,
            end as int,
            largest as int,
            if ok {
                ops as int
            } else {
                0
            },
        );
    } else {
        assert(0 * states[0].bytes.refill_per_sec == 0) by (nonlinear_arith);
        assert(0 * states[0].ops.refill_per_sec == 0) by (nonlinear_arith);
    }
}

/// A device is charged for one operation and all bytes of a request, at a time that the clock
/// shows: the limiter reads the clock once, and the request goes through exactly where both
/// buckets let it. Without a limiter every request goes through.
pub proof fn law_request_is_charged_whole(
    before: Option<Buckets>,
    bytes: u64,
    after: Option<Buckets>,
    ok: bool,
) -> (now_ns: u64)
    requires
        rate_limit::limiter_charges(before, bytes, after, ok),
        before matches Some(b) ==> b.ops.wf() && b.bytes.wf(),
    ensures
        before is None ==> ok && after is None,
        before matches Some(b) ==> after matches Some(a) && {
            let ops_full = b.ops.refilled(now_ns);
            let bytes_full = b.bytes.refilled(now_ns);
            &&& (b.shows)(now_ns)
            &&& a.shows == b.shows
            &&& a.readings == b.readings.push(now_ns)
            &&& has_earned(b.ops, now_ns, ops_full)
            &&& has_earned(b.bytes, now_ns, bytes_full)
            &&& ok <==> lets_through(ops_full, 1) && lets_through(bytes_full, bytes as int)
            &&& a.ops.tokens == ops_full.tokens - (if ok {
                1int
            } else {
                0
            })
            &&& a.bytes.tokens == bytes_full.tokens - (if ok {
                bytes as int
            } else {
                0
            })
            &&& a.ops == TokenBucket { tokens: a.ops.tokens, ..ops_full }
            &&& a.bytes == TokenBucket { tokens: a.bytes.tokens, ..bytes_full }
            &&& a.ops.wf()
            &&& a.bytes.wf()
        },
{
    match before {
        None => 0,
        Some(b) => {
            let now_ns = lemma_attempt(b, 1, bytes, after->0, ok);
            let r = law_charge_takes_its_amount(b, 1, bytes, now_ns);
            rate_limit::law_bucket_stays_bounded(b.ops, 1, now_ns);
            rate_limit::law_bucket_stays_bounded(b.bytes, bytes, now_ns);
            now_ns
        },
    }
}

/// From `b` to `a` the charge was made at `now_ns`: each bucket first held what it had earned by
/// then; where both let the charge through, each is less by exactly its amount, else by nothing.
pub open spec fn charged_exactly(
    b: Buckets,
    ops: u64,
    bytes: u64,
    now_ns: u64,
    a: Buckets,
    ok: bool,
) -> bool {
    exists|x: TokenBucket, y: TokenBucket|
        {
            &&& #[trigger] has_earned(b.ops, now_ns, x)
            &&& #[trigger] has_earned(b.bytes, now_ns, y)
            &&& ok <==> lets_through(x, ops as int) && lets_through(y, bytes as int)
            &&& a.ops.tokens == x.tokens - (if ok {
                ops as int
            } else {
                0
            })
            &&& a.bytes.tokens == y.tokens - (if ok {
                bytes as int
            } else {
                0
            })
            &&& a.ops == TokenBucket { tokens: a.ops.tokens, ..x }
            &&& a.bytes == TokenBucket { tokens: a.bytes.tokens, ..y }
        }
}

/// A call of [`RateLimiter::try_charge_at`] charges both buckets exactly, or neither.
pub proof fn law_try_charge_at_takes_its_amount<C: RateLimitClock>(
    ops: u64,
    bytes: u64,
    now_ns: u64,
    ok: bool,
)
    ensures
        forall|l: &mut RateLimiter<C>|
            #[trigger] call_ensures(
                RateLimiter::<C>::try_charge_at,
                (l, ops, bytes, now_ns),
                ok,
            ) && (*l).ops.wf() && (*l).bytes.wf() ==> charged_exactly(
                (*l)@,
                ops,
                bytes,
                now_ns,
                (*final(l))@,
                ok,
            ) && (*final(l)).clock == (*l).clock,
{
    assert forall|l: &mut RateLimiter<C>|
        #[trigger] call_ensures(
            RateLimiter::<C>::try_charge_at,
            (l, ops, bytes, now_ns),
            ok,
        ) && (*l).ops.wf() && (*l).bytes.wf() implies charged_exactly(
        (*l)@,
        ops,
        bytes,
        now_ns,
        (*final(l))@,
        ok,
    ) && (*final(l)).clock == (*l).clock by {
        let r = law_charge_takes_its_amount((*l)@, ops, bytes, now_ns);
    }
}

/// A call of [`RateLimiter::try_charge`] reads the clock once and charges both buckets exactly, or
/// neither, at the time that it shows.
pub proof fn law_try_charge_takes_its_amount<C: RateLimitClock>(ops: u64, bytes: u64, ok: bool)
    ensures
        forall|l: &mut RateLimiter<C>|
            #[trigger] call_ensures(RateLimiter::<C>::try_charge, (l, ops, bytes), ok)
                && (*l).ops.wf() && (*l).bytes.wf() ==> {
                let now_ns = (*final(l))@.readings.last();
                &&& (*final(l))@.readings == (*l)@.readings.push(now_ns)
                &&& (*l).clock.source().may_show(now_ns)
                &&& charged_exactly((*l)@, ops, bytes, now_ns, (*final(l))@, ok)
            },
{
    assert forall|l: &mut RateLimiter<C>|
        #[trigger] call_ensures(RateLimiter::<C>::try_charge, (l, ops, bytes), ok) && (*l).ops.wf()
            && (*l).bytes.wf() implies {
        let now_ns = (*final(l))@.readings.last();
        &&& (*final(l))@.readings == (*l)@.readings.push(now_ns)
        &&& (*l).clock.source().may_show(now_ns)
        &&& charged_exactly((*l)@, ops, bytes, now_ns, (*final(l))@, ok)
    } by {
        let now_ns = lemma_attempt((*l)@, ops, bytes, (*final(l))@, ok);
        let r = law_charge_takes_its_amount((*l)@, ops, bytes, now_ns);
        assert((*final(l))@.readings.last() == now_ns);
        assert((*l)@.shows == rate_limit::shown_by((*l).clock.source()));
    }
}

/// A call of [`TokenBucket::consume`] takes exactly its amount from what the bucket has earned by
/// then, or nothing; one of [`TokenBucket::refill`] adds exactly what was earned.
pub proof fn law_bucket_calls_take_and_add_exactly(amount: u64, now_ns: u64, ok: bool)
    ensures
        forall|b: &mut TokenBucket|
            #[trigger] call_ensures(TokenBucket::consume, (b, amount, now_ns), ok) && (*b).wf()
                ==> exists|x: TokenBucket|
                {
                    &&& #[trigger] has_earned(*b, now_ns, x)
                    &&& ok <==> lets_through(x, amount as int)
                    &&& (*final(b)).tokens == x.tokens - (if ok {
                        amount as int
                    } else {
                        0
                    })
                    &&& *final(b) == TokenBucket { tokens: (*final(b)).tokens, ..x }
                },
        forall|b: &mut TokenBucket|
            #[trigger] call_ensures(TokenBucket::refill, (b, now_ns), ()) && (*b).wf()
                ==> has_earned(*b, now_ns, *final(b)),
{
    assert forall|b: &mut TokenBucket|
        #[trigger] call_ensures(TokenBucket::consume, (b, amount, now_ns), ok)
            && (*b).wf() implies exists|x: TokenBucket|
        {
            &&& #[trigger] has_earned(*b, now_ns, x)
            &&& ok <==> lets_through(x, amount as int)
            &&& (*final(b)).tokens == x.tokens - (if ok {
                amount as int
            } else {
                0
            })
            &&& *final(b) == TokenBucket { tokens: (*final(b)).tokens, ..x }
        } by {
        law_refill_adds_what_was_earned(*b, now_ns);
        law_consume_takes_its_amount(*b, amount, now_ns);
        assert(has_earned(*b, now_ns, (*b).refilled(now_ns)));
    }
    assert forall|b: &mut TokenBucket|
        #[trigger] call_ensures(TokenBucket::refill, (b, now_ns), ()) && (*b).wf() implies has_earned(
        *b,
        now_ns,
        *final(b),
    ) by {
        law_refill_adds_what_was_earned(*b, now_ns);
    }
}

/// A new limiter has two full buckets that earn their capacity each second from the moment on at
/// which it was made.
pub proof fn law_new_limiter_is_full<C: RateLimitClock>(
    ops_per_sec: u64,
    bytes_per_sec: u64,
    clock: C,
    r: RateLimiter<C>,
)
    requires
        call_ensures(
            RateLimiter::<C>::new_with_clock,
            (ops_per_sec, bytes_per_sec, clock),
            r,
        ),
    ensures
        ({
            let now_ns = r@.readings[0];
            &&& r@.readings.len() == 1
            &&& clock.may_show(now_ns)
            &&& r.ops == TokenBucket {
                capacity: ops_per_sec,
                refill_per_sec: ops_per_sec,
                tokens: ops_per_sec as i128,
                last_refill_ns: now_ns,
            }
            &&& r.bytes == TokenBucket {
                capacity: bytes_per_sec,
                refill_per_sec: bytes_per_sec,
                tokens: bytes_per_sec as i128,
                last_refill_ns: now_ns,
            }
            &&& r.ops.wf() && r.bytes.wf()
        }),
{
}

} // verus!
