//! A limit on connection tests, for each user.
//!
//! Each user has a bucket with the times of the calls that were let through
//! lately. A call is let through while fewer than the cap of them lie within the
//! last minute. The number of buckets is bounded too: when there are too many,
//! the one that was not touched for longest goes.

use crate::ids::UserId;
use crate::mcp::limits::{MCP_TEST_CONNECT_BUCKETS_MAX, MCP_TEST_CONNECT_PER_MIN};
use crate::seqs::{lemma_filter_all, lemma_filter_none};
use vstd::prelude::*;

verus! {

/// The length of the rolling window, in nanoseconds.
pub const TEST_CONNECT_WINDOW: u64 = 60_000_000_000;

/// The calls of one user.
#[derive(Debug)]
pub struct Bucket {
    pub user: UserId,
    /// When calls were let through, oldest first, in nanoseconds of a clock
    /// that does not go back.
    pub samples: Vec<u64>,
    /// When the user last called.
    pub last_touched: u64,
}

/// `samples` without the leading ones that lie before the window that ends at
/// `now`.
pub open spec fn within_window(samples: Seq<u64>, now: u64) -> Seq<u64>
    decreases samples.len(),
{
    if samples.len() > 0 && now >= TEST_CONNECT_WINDOW && samples[0] < now - TEST_CONNECT_WINDOW {
        within_window(samples.drop_first(), now)
    } else {
        samples
    }
}

/// The position of the bucket of `user`, or the number of buckets.
pub open spec fn bucket_at(buckets: Seq<Bucket>, user: UserId) -> int
    decreases buckets.len(),
{
    if buckets.len() == 0 {
        0
    } else if buckets[0].user == user {
        0
    } else {
        1 + bucket_at(buckets.drop_first(), user)
    }
}

/// The times at which calls of `user` were let through, as far as they are
/// remembered.
pub open spec fn samples_of(buckets: Seq<Bucket>, user: UserId) -> Seq<u64> {
    let i = bucket_at(buckets, user);
    if i < buckets.len() {
        buckets[i].samples@
    } else {
        Seq::empty()
    }
}

/// No user has two buckets, no bucket holds more times than the cap, and there
/// are no more buckets than there may be.
pub open spec fn well_kept(buckets: Seq<Bucket>) -> bool {
    &&& buckets.len() <= MCP_TEST_CONNECT_BUCKETS_MAX
    &&& forall|i: int, j: int|
        0 <= i < j < buckets.len() ==> (#[trigger] buckets[i]).user != (#[trigger] buckets[j]).user
    &&& forall|i: int|
        0 <= i < buckets.len() ==> (#[trigger] buckets[i]).samples@.len()
            <= MCP_TEST_CONNECT_PER_MIN
}

/// Whether a call of `user` at `now` is let through.
pub open spec fn admits(buckets: Seq<Bucket>, user: UserId, now: u64) -> bool {
    within_window(samples_of(buckets, user), now).len() < MCP_TEST_CONNECT_PER_MIN
}

/// The times that are remembered of `user` after a call at `now`.
pub open spec fn samples_after(buckets: Seq<Bucket>, user: UserId, now: u64) -> Seq<u64> {
    let live = within_window(samples_of(buckets, user), now);
    if admits(buckets, user, now) {
        live.push(now)
    } else {
        live
    }
}

/// The buckets after a call of `user` at `now`, before any is dropped.
pub open spec fn recorded(
    buckets: Seq<Bucket>,
    user: UserId,
    now: u64,
    after: Seq<Bucket>,
) -> bool {
    let i = bucket_at(buckets, user);
    &&& after.len() == if i < buckets.len() {
        buckets.len()
    } else {
        buckets.len() + 1
    }
    &&& forall|j: int| 0 <= j < buckets.len() && j != i ==> #[trigger] after[j] == buckets[j]
    &&& after[i].user == user
    &&& after[i].samples@ == samples_after(buckets, user, now)
    &&& after[i].last_touched == now
}

/// The bucket to drop so that one user fewer is remembered: of those of other
/// users than `user` one that was not touched for longest, the first of them.
pub open spec fn victim(buckets: Seq<Bucket>, user: UserId, v: int) -> bool {
    &&& 0 <= v < buckets.len()
    &&& buckets[v].user != user
    &&& forall|j: int|
        #![trigger buckets[j]]
        0 <= j < buckets.len() && buckets[j].user != user ==> {
            ||| buckets[v].last_touched < buckets[j].last_touched
            ||| buckets[v].last_touched == buckets[j].last_touched && v <= j
        }
}

/// What a call of `user` at `now` does to the buckets.
pub open spec fn called(before: Seq<Bucket>, user: UserId, now: u64, after: Seq<Bucket>) -> bool {
    if bucket_at(before, user) == before.len() && before.len() == MCP_TEST_CONNECT_BUCKETS_MAX {
        exists|all: Seq<Bucket>, v: int|
            {
                &&& #[trigger] recorded(before, user, now, all)
                &&& #[trigger] victim(all, user, v)
                &&& after == all.remove(v)
            }
    } else {
        recorded(before, user, now, after)
    }
}

proof fn lemma_bucket_at(buckets: Seq<Bucket>, user: UserId)
    ensures
        0 <= bucket_at(buckets, user) <= buckets.len(),
        forall|j: int| 0 <= j < bucket_at(buckets, user) ==> (#[trigger] buckets[j]).user != user,
        bucket_at(buckets, user) < buckets.len() ==> buckets[bucket_at(buckets, user)].user == user,
    decreases buckets.len(),
{
    if buckets.len() > 0 && buckets[0].user != user {
        let rest = buckets.drop_first();
        lemma_bucket_at(rest, user);
        assert forall|j: int| 0 <= j < bucket_at(buckets, user) implies (
        #[trigger] buckets[j]).user != user by {
            if j > 0 {
                assert(buckets[j] == rest[j - 1]);
            }
        }
    }
}

/// The bucket of a user is where one was found, in buckets without repeats.
proof fn lemma_bucket_is(buckets: Seq<Bucket>, user: UserId, i: int)
    requires
        0 <= i < buckets.len(),
        buckets[i].user == user,
        forall|j: int| 0 <= j < i ==> (#[trigger] buckets[j]).user != user,
    ensures
        bucket_at(buckets, user) == i,
{
    lemma_bucket_at(buckets, user);
}

proof fn lemma_no_bucket(buckets: Seq<Bucket>, user: UserId)
    requires
        forall|j: int| 0 <= j < buckets.len() ==> (#[trigger] buckets[j]).user != user,
    ensures
        bucket_at(buckets, user) == buckets.len(),
{
    lemma_bucket_at(buckets, user);
}

proof fn lemma_within_window(samples: Seq<u64>, now: u64)
    ensures
        within_window(samples, now).len() <= samples.len(),
        within_window(samples, now) == samples.subrange(
            samples.len() - within_window(samples, now).len(),
            samples.len() as int,
        ),
        forall|j: int|
            0 <= j < samples.len() - within_window(samples, now).len() ==> (#[trigger] samples[j])
                + TEST_CONNECT_WINDOW < now,
    decreases samples.len(),
{
    if samples.len() > 0 && now >= TEST_CONNECT_WINDOW && samples[0] < now - TEST_CONNECT_WINDOW {
        lemma_within_window(samples.drop_first(), now);
        let w = within_window(samples, now);
        let d = samples.drop_first();
        assert(w =~= samples.subrange(samples.len() - w.len(), samples.len() as int)) by {
            assert(w =~= d.subrange(d.len() - w.len(), d.len() as int));
        }
        assert forall|j: int| 0 <= j < samples.len() - w.len() implies (#[trigger] samples[j])
            + TEST_CONNECT_WINDOW < now by {
            if j > 0 {
                assert(samples[j] == d[j - 1]);
            }
        }
    } else {
        assert(samples =~= samples.subrange(0, samples.len() as int));
    }
}

/// Drops the times before the window that ends at `now`.
fn expire(samples: &mut Vec<u64>, now: u64)
    ensures
        final(samples)@ == within_window(old(samples)@, now),
{
    if now < TEST_CONNECT_WINDOW {
        return ;
    }
    let cutoff: u64 = now - TEST_CONNECT_WINDOW;
    while samples.len() > 0 && samples[0] < cutoff
        invariant
            now >= TEST_CONNECT_WINDOW,
            cutoff == now - TEST_CONNECT_WINDOW,
            within_window(samples@, now) == within_window(old(samples)@, now),
        decreases samples@.len(),
    {
        let ghost before = samples@;
        samples.remove(0);
        proof {
            assert(samples@ =~= before.drop_first());
        }
    }
}

/// The limiter of connection tests.
#[derive(Debug)]
pub struct TestConnectRateLimiter {
    buckets: Vec<Bucket>,
}

impl TestConnectRateLimiter {
    /// The buckets, in the order in which their users first called.
    pub closed spec fn buckets(self) -> Seq<Bucket> {
        self.buckets@
    }

    #[verifier::type_invariant]
    spec fn kept(self) -> bool {
        well_kept(self.buckets@)
    }

    /// A limiter that remembers nobody.
    pub fn new() -> (l: TestConnectRateLimiter)
        ensures
            l.buckets() == Seq::<Bucket>::empty(),
    {
        TestConnectRateLimiter { buckets: Vec::new() }
    }

    fn find(buckets: &Vec<Bucket>, user: UserId) -> (i: usize)
        ensures
            i == bucket_at(buckets@, user),
            i <= buckets@.len(),
    {
        let mut i: usize = 0;
        while i < buckets.len()
            invariant
                i <= buckets@.len(),
                forall|j: int| 0 <= j < i ==> (#[trigger] buckets@[j]).user != user,
            decreases buckets.len() - i,
        {
            if buckets[i].user.0 == user.0 {
                proof {
                    lemma_bucket_is(buckets@, user, i as int);
                }
                return i;
            }
            i += 1;
        }
        proof {
            lemma_no_bucket(buckets@, user);
        }
        i
    }

    fn find_victim(buckets: &Vec<Bucket>, user: UserId) -> (r: Option<usize>)
        ensures
            match r {
                Some(v) => victim(buckets@, user, v as int),
                None => forall|j: int|
                    0 <= j < buckets@.len() ==> (#[trigger] buckets@[j]).user == user,
            },
    {
        let mut best: Option<usize> = None;
        let mut i: usize = 0;
        while i < buckets.len()
            invariant
                i <= buckets@.len(),
                match best {
                    Some(v) => {
                        &&& v < i
                        &&& buckets@[v as int].user != user
                        &&& forall|j: int|
                            #![trigger buckets@[j]]
                            0 <= j < i && buckets@[j].user != user ==> {
                                ||| buckets@[v as int].last_touched < buckets@[j].last_touched
                                ||| buckets@[v as int].last_touched == buckets@[j].last_touched && v
                                    <= j
                            }
                    },
                    None => forall|j: int|
                        0 <= j < i ==> (#[trigger] buckets@[j]).user == user,
                },
            decreases buckets.len() - i,
        {
            if buckets[i].user.0 != user.0 {
                match best {
                    None => {
                        best = Some(i);
                    },
                    Some(v) => {
                        if buckets[i].last_touched < buckets[v].last_touched {
                            best = Some(i);
                        }
                    },
                }
            }
            i += 1;
        }
        best
    }

    /// Lets a call of `user` at `now` through, or not. At most
    /// [`MCP_TEST_CONNECT_PER_MIN`] calls of a user pass within a minute.
    pub fn try_admit(&mut self, user: UserId, now: u64) -> (r: bool)
        ensures
            r == admits(old(self).buckets(), user, now),
            called(old(self).buckets(), user, now, final(self).buckets()),
            well_kept(old(self).buckets()),
            well_kept(final(self).buckets()),
    {
        proof {
            use_type_invariant(&*self);
        }
        let ghost before = self.buckets@;
        let mut buckets: Vec<Bucket> = Vec::new();
        std::mem::swap(&mut buckets, &mut self.buckets);
        let i = TestConnectRateLimiter::find(&buckets, user);
        proof {
            lemma_bucket_at(before, user);
            lemma_within_window(samples_of(before, user), now);
        }
        let fresh = i == buckets.len();
        let mut samples: Vec<u64> = Vec::new();
        if !fresh {
            let b = buckets.remove(i);
            samples = b.samples;
        }
        expire(&mut samples, now);
        let admitted = samples.len() < MCP_TEST_CONNECT_PER_MIN;
        if admitted {
            samples.push(now);
        }
        let ghost after_samples = samples@;
        proof {
            assert(samples@ == samples_after(before, user, now));
        }
        buckets.insert(i, Bucket { user, samples, last_touched: now });
        let ghost all = buckets@;
        proof {
            assert forall|j: int| 0 <= j < before.len() && j != i implies #[trigger] all[j]
                == before[j] by {}
            assert(recorded(before, user, now, all));
            assert forall|a: int, b: int| 0 <= a < b < all.len() implies (#[trigger] all[a]).user != (
            #[trigger] all[b]).user by {
                if a != i && b != i {
                    assert(before[a].user != before[b].user);
                } else if a == i {
                    assert(before[b].user != user) by {
                        assert(before[i as int].user != before[b].user);
                    }
                } else {
                    assert(before[a].user != user);
                }
            }
            assert forall|a: int| 0 <= a < all.len() implies (#[trigger] all[a]).samples@.len()
                <= MCP_TEST_CONNECT_PER_MIN by {
                if a != i {
                    assert(all[a] == before[a]);
                }
            }
        }
        if buckets.len() > MCP_TEST_CONNECT_BUCKETS_MAX {
            match TestConnectRateLimiter::find_victim(&buckets, user) {
                Some(v) => {
                    buckets.remove(v);
                    proof {
                        assert(recorded(before, user, now, all) && victim(all, user, v as int)
                            && buckets@ == all.remove(v as int));
                        assert forall|a: int, b: int| 0 <= a < b < buckets@.len() implies (
                        #[trigger] buckets@[a]).user != (#[trigger] buckets@[b]).user by {
                            let a2 = if a < v { a } else { a + 1 };
                            let b2 = if b < v { b } else { b + 1 };
                            assert(all[a2].user != all[b2].user);
                        }
                        assert forall|a: int| 0 <= a < buckets@.len() implies (
                        #[trigger] buckets@[a]).samples@.len() <= MCP_TEST_CONNECT_PER_MIN by {
                            let a2 = if a < v { a } else { a + 1 };
                            assert(all[a2].samples@.len() <= MCP_TEST_CONNECT_PER_MIN);
                        }
                    }
                },
                None => {
                    proof {
                        assert(all[0].user == user && all[1].user == user);
                    }
                },
            }
        }
        self.buckets = buckets;
        admitted
    }
}

/// What is remembered of the caller after a call: the times within the window,
/// and the call itself if it was let through. Nothing is dropped of a caller to
/// make room.
pub proof fn law_call_is_remembered(
    before: Seq<Bucket>,
    user: UserId,
    now: u64,
    after: Seq<Bucket>,
)
    requires
        well_kept(before),
        called(before, user, now, after),
    ensures
        samples_of(after, user) == samples_after(before, user, now),
{
    lemma_bucket_at(before, user);
    let i = bucket_at(before, user);
    if i == before.len() && before.len() == MCP_TEST_CONNECT_BUCKETS_MAX {
        let (all, v) = choose|all: Seq<Bucket>, v: int|
            {
                &&& #[trigger] recorded(before, user, now, all)
                &&& #[trigger] victim(all, user, v)
                &&& after == all.remove(v)
            };
        assert(v < i);
        assert(after[i - 1] == all[i]);
        assert forall|j: int| 0 <= j < i - 1 implies (#[trigger] after[j]).user != user by {
            let j2 = if j < v { j } else { j + 1 };
            assert(after[j] == all[j2]);
            assert(all[j2] == before[j2]);
        }
        lemma_bucket_is(after, user, i - 1);
    } else {
        assert forall|j: int| 0 <= j < i implies (#[trigger] after[j]).user != user by {
            assert(after[j] == before[j]);
        }
        lemma_bucket_is(after, user, i);
    }
}

/// Users do not share a limit: a call of one leaves what is remembered of
/// another as it was, for as long as there is room for every user.
pub proof fn law_users_are_independent(
    before: Seq<Bucket>,
    user: UserId,
    now: u64,
    after: Seq<Bucket>,
    other: UserId,
)
    requires
        well_kept(before),
        called(before, user, now, after),
        other != user,
        bucket_at(before, user) < before.len() || before.len() < MCP_TEST_CONNECT_BUCKETS_MAX,
    ensures
        samples_of(after, other) == samples_of(before, other),
{
    lemma_bucket_at(before, user);
    lemma_bucket_at(before, other);
    let i = bucket_at(before, user);
    let k = bucket_at(before, other);
    if k < before.len() {
        assert(after[k] == before[k]);
        assert forall|j: int| 0 <= j < k implies (#[trigger] after[j]).user != other by {
            if j != i {
                assert(after[j] == before[j]);
            }
        }
        lemma_bucket_is(after, other, k);
    } else {
        assert forall|j: int| 0 <= j < after.len() implies (#[trigger] after[j]).user != other by {
            if j != i {
                assert(after[j] == before[j]);
            }
        }
        lemma_no_bucket(after, other);
    }
}

/// A user of whom fewer calls than the cap are remembered is let through, one of
/// whom the cap lies within the last minute is not, and once all of them are
/// older than that the user is let through again.
pub proof fn law_window_slides(buckets: Seq<Bucket>, user: UserId, now: u64)
    requires
        well_kept(buckets),
    ensures
        samples_of(buckets, user).len() < MCP_TEST_CONNECT_PER_MIN ==> admits(buckets, user, now),
        ({
            &&& samples_of(buckets, user).len() == MCP_TEST_CONNECT_PER_MIN
            &&& samples_of(buckets, user)[0] + TEST_CONNECT_WINDOW >= now
        }) ==> !admits(buckets, user, now),
        (forall|i: int|
            0 <= i < samples_of(buckets, user).len() ==> (#[trigger] samples_of(buckets, user)[i])
                + TEST_CONNECT_WINDOW < now) ==> admits(buckets, user, now),
{
    let s = samples_of(buckets, user);
    lemma_within_window(s, now);
    if forall|i: int| 0 <= i < s.len() ==> (#[trigger] s[i]) + TEST_CONNECT_WINDOW < now {
        lemma_all_expire(s, now);
    }
}

proof fn lemma_all_expire(s: Seq<u64>, now: u64)
    requires
        forall|i: int| 0 <= i < s.len() ==> (#[trigger] s[i]) + TEST_CONNECT_WINDOW < now,
    ensures
        within_window(s, now).len() == 0,
    decreases s.len(),
{
    if s.len() > 0 {
        let rest = s.drop_first();
        assert forall|i: int| 0 <= i < rest.len() implies (#[trigger] rest[i]) + TEST_CONNECT_WINDOW
            < now by {
            assert(rest[i] == s[i + 1]);
        }
        lemma_all_expire(rest, now);
        assert(s[0] + TEST_CONNECT_WINDOW < now);
    }
}

/// A call that was made of the limiter: by whom, and when.
#[derive(Clone, Copy, Debug)]
pub struct Call {
    pub user: UserId,
    pub at: u64,
}

/// The limiter went through `states` while `calls` were made of it, one after the
/// other, from the time it was new. The clock does not go back.
pub open spec fn history(calls: Seq<Call>, states: Seq<Seq<Bucket>>) -> bool {
    &&& states.len() == calls.len() + 1
    &&& states[0] == Seq::<Bucket>::empty()
    &&& forall|i: int| 0 <= i < states.len() ==> well_kept(#[trigger] states[i])
    &&& forall|i: int|
        0 <= i < calls.len() ==> called(
            states[i],
            (#[trigger] calls[i]).user,
            calls[i].at,
            states[i + 1],
        )
    &&& forall|i: int, j: int|
        0 <= i <= j < calls.len() ==> (#[trigger] calls[i]).at <= (#[trigger] calls[j]).at
}

/// The bucket of `user` was never dropped to make room.
pub open spec fn never_dropped(states: Seq<Seq<Bucket>>, user: UserId) -> bool {
    forall|i: int|
        0 <= i < states.len() - 1 && bucket_at(#[trigger] states[i], user) < states[i].len()
            ==> bucket_at(states[i + 1], user) < states[i + 1].len()
}

/// The times of all calls of `user` that were let through.
pub open spec fn let_through(calls: Seq<Call>, states: Seq<Seq<Bucket>>, user: UserId) -> Seq<u64>
    decreases calls.len(),
{
    if calls.len() == 0 {
        Seq::empty()
    } else {
        let before = let_through(calls.drop_last(), states, user);
        let c = calls.last();
        if c.user == user && admits(states[calls.len() - 1], user, c.at) {
            before.push(c.at)
        } else {
            before
        }
    }
}

/// How many of `times` lie within the minute that ends at `now`.
pub open spec fn within_minute(times: Seq<u64>, now: u64) -> nat {
    times.filter(|t: u64| t + TEST_CONNECT_WINDOW >= now).len()
}

/// Whoever calls, the others keep what is remembered of them, unless their bucket
/// is dropped.
proof fn lemma_others_stay(
    before: Seq<Bucket>,
    user: UserId,
    now: u64,
    after: Seq<Bucket>,
    other: UserId,
)
    requires
        well_kept(before),
        called(before, user, now, after),
        other != user,
        bucket_at(before, other) < before.len() ==> bucket_at(after, other) < after.len(),
    ensures
        samples_of(after, other) == samples_of(before, other),
{
    lemma_bucket_at(before, user);
    lemma_bucket_at(before, other);
    lemma_bucket_at(after, other);
    let i = bucket_at(before, user);
    let k = bucket_at(before, other);
    if i == before.len() && before.len() == MCP_TEST_CONNECT_BUCKETS_MAX {
        let (all, v) = choose|all: Seq<Bucket>, v: int|
            {
                &&& #[trigger] recorded(before, user, now, all)
                &&& #[trigger] victim(all, user, v)
                &&& after == all.remove(v)
            };
        let m = bucket_at(after, other);
        if m < after.len() {
            let m2 = if m < v { m } else { m + 1 };
            assert(after[m] == all[m2]);
            assert(all[m2] == before[m2]);
            if k < m2 {
                assert(before[k].user != before[m2].user);
            } else if m2 < k {
                assert(before[m2].user != before[k].user);
            }
        }
    } else {
        law_users_are_independent(before, user, now, after, other);
    }
}

/// What is remembered of a user is the end of what was let through, and what is not
/// lies before the window of the last call.
proof fn lemma_remembered(calls: Seq<Call>, states: Seq<Seq<Bucket>>, user: UserId)
    requires
        history(calls, states),
        never_dropped(states, user),
    ensures
        ({
            let all = let_through(calls, states, user);
            let kept = samples_of(states[calls.len() as int], user);
            &&& kept.len() <= all.len()
            &&& kept == all.subrange(all.len() - kept.len(), all.len() as int)
            &&& forall|i: int|
                0 <= i < all.len() - kept.len() ==> (#[trigger] all[i]) + TEST_CONNECT_WINDOW
                    < calls.last().at
            &&& forall|i: int| 0 <= i < all.len() ==> (#[trigger] all[i]) <= calls.last().at
            &&& forall|i: int, j: int|
                0 <= i <= j < all.len() ==> (#[trigger] all[i]) <= (#[trigger] all[j])
            &&& calls.len() == 0 ==> all.len() == 0
        }),
    decreases calls.len(),
{
    if calls.len() > 0 {
        let n = calls.len() as int;
        let head = calls.drop_last();
        let c = calls[n - 1];
        let past = states.drop_last();
        lemma_history_prefix(calls, states, user);
        lemma_remembered(head, past, user);
        lemma_let_through_prefix(head, states, past, user);
        let old_all = let_through(head, past, user);
        let old_kept = samples_of(states[n - 1], user);
        let all = let_through(calls, states, user);
        let kept = samples_of(states[n], user);
        if n > 1 {
            assert(head.last() == calls[n - 2]);
            assert(calls[n - 2].at <= calls[n - 1].at);
        }
        assert(called(states[n - 1], calls[n - 1].user, calls[n - 1].at, states[n - 1 + 1]));
        if c.user == user {
            law_call_is_remembered(states[n - 1], user, c.at, states[n]);
            lemma_within_window(old_kept, c.at);
            let live = within_window(old_kept, c.at);
            assert(live =~= old_all.subrange(old_all.len() - live.len(), old_all.len() as int));
            assert(kept =~= all.subrange(all.len() - kept.len(), all.len() as int));
            let forgotten = old_all.len() - old_kept.len();
            assert forall|i: int| 0 <= i < all.len() - kept.len() implies (#[trigger] all[i])
                + TEST_CONNECT_WINDOW < c.at by {
                assert(all[i] == old_all[i]);
                if i >= forgotten {
                    assert(old_all[i] == old_kept[i - forgotten]);
                }
            }
        } else {
            assert(bucket_at(states[n - 1], user) < states[n - 1].len() ==> bucket_at(
                states[n - 1 + 1],
                user,
            ) < states[n - 1 + 1].len());
            lemma_others_stay(states[n - 1], c.user, c.at, states[n], user);
        }
    }
}

proof fn lemma_history_prefix(calls: Seq<Call>, states: Seq<Seq<Bucket>>, user: UserId)
    requires
        history(calls, states),
        never_dropped(states, user),
        calls.len() > 0,
    ensures
        history(calls.drop_last(), states.drop_last()),
        never_dropped(states.drop_last(), user),
{
    let head = calls.drop_last();
    let past = states.drop_last();
    assert forall|i: int| 0 <= i < past.len() implies well_kept(#[trigger] past[i]) by {
        assert(past[i] == states[i]);
    }
    assert forall|i: int| 0 <= i < head.len() implies called(
        past[i],
        (#[trigger] head[i]).user,
        head[i].at,
        past[i + 1],
    ) by {
        assert(head[i] == calls[i]);
    }
    assert forall|i: int, j: int| 0 <= i <= j < head.len() implies (#[trigger] head[i]).at <= (
    #[trigger] head[j]).at by {
        assert(calls[i].at <= calls[j].at);
    }
    assert forall|i: int|
        0 <= i < past.len() - 1 && bucket_at(#[trigger] past[i], user)
            < past[i].len() implies bucket_at(past[i + 1], user) < past[i + 1].len() by {
        assert(past[i] == states[i]);
    }
}

proof fn lemma_let_through_prefix(
    calls: Seq<Call>,
    states: Seq<Seq<Bucket>>,
    past: Seq<Seq<Bucket>>,
    user: UserId,
)
    requires
        past.len() >= calls.len(),
        states.len() >= calls.len(),
        forall|i: int| 0 <= i < calls.len() ==> #[trigger] past[i] == states[i],
    ensures
        let_through(calls, states, user) == let_through(calls, past, user),
    decreases calls.len(),
{
    if calls.len() > 0 {
        lemma_let_through_prefix(calls.drop_last(), states, past, user);
        assert(past[calls.len() - 1] == states[calls.len() - 1]);
    }
}

/// In times that do not go back, those within the minute are the ones that are
/// not dropped.
proof fn lemma_window_is_minute(times: Seq<u64>, now: u64)
    requires
        forall|i: int, j: int|
            0 <= i <= j < times.len() ==> (#[trigger] times[i]) <= (#[trigger] times[j]),
    ensures
        within_minute(times, now) == within_window(times, now).len(),
{
    let p = |t: u64| t + TEST_CONNECT_WINDOW >= now;
    let live = within_window(times, now);
    let n = times.len() - live.len();
    lemma_within_window(times, now);
    lemma_within_window_head(times, now);
    let gone = times.take(n);
    assert(times =~= gone + live);
    Seq::filter_distributes_over_add(gone, live, p);
    lemma_filter_none(gone, p);
    assert forall|i: int| 0 <= i < live.len() implies p(#[trigger] live[i]) by {
        assert(live[i] == times[n + i]);
        assert(live[0] == times[n]);
    }
    lemma_filter_all(live, p);
    assert(gone.filter(p) + live.filter(p) =~= live);
}

proof fn lemma_within_window_head(times: Seq<u64>, now: u64)
    ensures
        within_window(times, now).len() > 0 ==> within_window(times, now)[0] + TEST_CONNECT_WINDOW
            >= now,
    decreases times.len(),
{
    if times.len() > 0 && now >= TEST_CONNECT_WINDOW && times[0] < now - TEST_CONNECT_WINDOW {
        lemma_within_window_head(times.drop_first(), now);
    }
}

/// A call is let through exactly where fewer than the cap of all earlier calls of
/// the user that were let through lie within the minute before it. Calls of others
/// do not matter, nor do calls that were turned away.
pub proof fn law_admitted_below_the_cap(
    calls: Seq<Call>,
    states: Seq<Seq<Bucket>>,
    user: UserId,
    now: u64,
)
    requires
        history(calls, states),
        never_dropped(states, user),
        calls.len() > 0 ==> calls.last().at <= now,
    ensures
        admits(states.last(), user, now) == (within_minute(let_through(calls, states, user), now)
            < MCP_TEST_CONNECT_PER_MIN),
{
    let all = let_through(calls, states, user);
    let kept = samples_of(states.last(), user);
    let p = |t: u64| t + TEST_CONNECT_WINDOW >= now;
    lemma_remembered(calls, states, user);
    assert(states.last() == states[calls.len() as int]);
    let forgotten = all.take(all.len() - kept.len());
    assert(all =~= forgotten + kept);
    assert forall|i: int| 0 <= i < forgotten.len() implies !p(#[trigger] forgotten[i]) by {
        assert(forgotten[i] == all[i]);
    }
    Seq::filter_distributes_over_add(forgotten, kept, p);
    lemma_filter_none(forgotten, p);
    assert(forgotten.filter(p) + kept.filter(p) =~= kept.filter(p));
    assert forall|i: int, j: int| 0 <= i <= j < kept.len() implies (#[trigger] kept[i]) <= (
    #[trigger] kept[j]) by {
        let d = all.len() - kept.len();
        assert(all[d + i] <= all[d + j]);
    }
    lemma_window_is_minute(kept, now);
}

/// Of the calls of one user, no more than the cap are let through within a
/// minute: any call that passes comes more than a minute after the one that
/// passed as many calls before it as the cap counts.
pub proof fn law_no_more_than_the_cap_pass(
    calls: Seq<Call>,
    states: Seq<Seq<Bucket>>,
    user: UserId,
    k: int,
)
    requires
        history(calls, states),
        never_dropped(states, user),
        MCP_TEST_CONNECT_PER_MIN <= k < let_through(calls, states, user).len(),
    ensures
        ({
            let all = let_through(calls, states, user);
            all[k - MCP_TEST_CONNECT_PER_MIN] + TEST_CONNECT_WINDOW < all[k]
        }),
    decreases calls.len(),
{
    let n = calls.len() as int;
    let head = calls.drop_last();
    let past = states.drop_last();
    let c = calls[n - 1];
    lemma_history_prefix(calls, states, user);
    lemma_let_through_prefix(head, states, past, user);
    let before = let_through(head, past, user);
    if k < before.len() {
        law_no_more_than_the_cap_pass(head, past, user, k);
    } else {
        lemma_remembered(head, past, user);
        let kept = samples_of(states[n - 1], user);
        lemma_within_window(kept, c.at);
        let i = k - MCP_TEST_CONNECT_PER_MIN;
        let forgotten = before.len() - kept.len();
        if n > 1 {
            assert(head.last() == calls[n - 2]);
            assert(calls[n - 2].at <= calls[n - 1].at);
        }
        if i >= forgotten {
            assert(before[i] == kept[i - forgotten]);
        }
    }
}

proof fn lemma_window_again(times: Seq<u64>, now: u64, later: u64)
    requires
        now <= later,
    ensures
        within_window(within_window(times, now), later) == within_window(times, later),
    decreases times.len(),
{
    if times.len() > 0 && now >= TEST_CONNECT_WINDOW && times[0] < now - TEST_CONNECT_WINDOW {
        lemma_window_again(times.drop_first(), now, later);
    }
}

/// A call that is turned away leaves no trace: later calls of the user fare as if
/// it had not been made.
pub proof fn law_rejected_call_leaves_no_trace(
    before: Seq<Bucket>,
    user: UserId,
    now: u64,
    after: Seq<Bucket>,
    later: u64,
)
    requires
        well_kept(before),
        called(before, user, now, after),
        !admits(before, user, now),
        now <= later,
    ensures
        admits(after, user, later) == admits(before, user, later),
{
    law_call_is_remembered(before, user, now, after);
    lemma_window_again(samples_of(before, user), now, later);
}

/// Where no more users can be remembered, the call of a new one drops one that was not touched
/// for longest, and everyone else stays as they were.
pub proof fn law_longest_untouched_is_dropped(
    before: Seq<Bucket>,
    user: UserId,
    now: u64,
    after: Seq<Bucket>,
)
    requires
        called(before, user, now, after),
        before.len() == 4_096,
        forall|i: int| 0 <= i < before.len() ==> (#[trigger] before[i]).user != user,
    ensures
        after.len() == 4_096,
        after.last().user == user,
        after.last().last_touched == now,
        exists|v: int|
            {
                &&& 0 <= v < before.len()
                &&& after.drop_last() == #[trigger] before.remove(v)
                &&& forall|j: int|
                    0 <= j < before.len() ==> before[v].last_touched <= (
                    #[trigger] before[j]).last_touched
            },
{
    lemma_bucket_at(before, user);
    let (all, v) = choose|all: Seq<Bucket>, v: int|
        {
            &&& #[trigger] recorded(before, user, now, all)
            &&& #[trigger] victim(all, user, v)
            &&& after == all.remove(v)
        };
    assert(v < before.len());
    assert forall|j: int| 0 <= j < before.len() implies before[v].last_touched <= (
    #[trigger] before[j]).last_touched by {
        assert(all[j] == before[j]);
    }
    assert(after.drop_last() =~= before.remove(v));
}

/// Ten calls a minute pass: below that number a call is let through, and the eleventh within a
/// minute is not.
pub proof fn law_ten_calls_a_minute_pass(buckets: Seq<Bucket>, user: UserId, now: u64)
    requires
        well_kept(buckets),
    ensures
        samples_of(buckets, user).len() < 10 ==> admits(buckets, user, now),
        samples_of(buckets, user).len() == 10 && samples_of(buckets, user)[0] + 60_000_000_000
            >= now ==> !admits(buckets, user, now),
{
    law_window_slides(buckets, user, now);
}

} // verus!
