//! Rate limiting: a named bucket with a configured minimum delay tracks,
//! per scope key (the invoking user or channel), the time of the last
//! allowed use and whether the current streak of denials has already been
//! reported. A check either admits the call and moves the baseline
//! forward, or denies it with the remaining wait and a flag telling the
//! caller whether this denial is the first of its streak.

use vstd::prelude::*;

verus! {

/// Live rate-limit state for one scope key.
#[derive(Clone, Copy, PartialEq, Eq, Structural)]
pub struct ScopeState {
    pub last_allowed: u64,
    pub denied_since_allow: bool,
}

/// What a rate-limit check decided.
#[derive(Clone, Copy, PartialEq, Eq, Structural, Debug)]
pub enum CheckOutcome {
    Allowed,
    Limited { retry_after: u64, is_first_denial: bool },
}

/// First index in `s` whose key equals `k`, looking at the first `n`
/// entries only.
pub open spec fn find_scope_upto(s: Seq<(u64, ScopeState)>, k: u64, n: int) -> Option<int>
    decreases n,
{
    if n <= 0 {
        None
    } else {
        match find_scope_upto(s, k, n - 1) {
            Some(i) => Some(i),
            None => if s[n - 1].0 == k {
                Some(n - 1)
            } else {
                None
            },
        }
    }
}

/// A bucket: the configured delay and the per-scope state.
pub struct Bucket {
    pub delay: u64,
    pub entries: Vec<(u64, ScopeState)>,
}

/// The state a bucket holds for scope key `k`, if any.
pub open spec fn scope_state_of(b: Bucket, k: u64) -> Option<ScopeState> {
    match find_scope_upto(b.entries@, k, b.entries@.len() as int) {
        Some(i) => Some(b.entries@[i].1),
        None => None,
    }
}

/// The outcome of a check against a bucket with delay `delay`, given the
/// scope's prior state: a fresh scope is allowed; otherwise the call is
/// allowed exactly when at least `delay` has elapsed since the last
/// allowed use, and denied with the remaining wait otherwise. The first
/// denial after an allow carries `is_first_denial`.
pub open spec fn check_outcome_spec(delay: u64, prior: Option<ScopeState>, now: u64) -> CheckOutcome {
    match prior {
        None => CheckOutcome::Allowed,
        Some(st) => {
            let elapsed: int = if now >= st.last_allowed {
                now - st.last_allowed
            } else {
                0
            };
            if elapsed >= delay {
                CheckOutcome::Allowed
            } else {
                CheckOutcome::Limited {
                    retry_after: (delay - elapsed) as u64,
                    is_first_denial: !st.denied_since_allow,
                }
            }
        },
    }
}

/// The scope state recorded after a check: an allow moves the baseline to
/// `now` and clears the denial streak; a denial keeps the baseline and
/// marks the streak as reported.
pub open spec fn next_scope_state(delay: u64, prior: Option<ScopeState>, now: u64) -> ScopeState {
    match prior {
        None => ScopeState { last_allowed: now, denied_since_allow: false },
        Some(st) => {
            let elapsed: int = if now >= st.last_allowed {
                now - st.last_allowed
            } else {
                0
            };
            if elapsed >= delay {
                ScopeState { last_allowed: now, denied_since_allow: false }
            } else {
                ScopeState { last_allowed: st.last_allowed, denied_since_allow: true }
            }
        },
    }
}

proof fn lemma_find_persist(s: Seq<(u64, ScopeState)>, k: u64, m: int, n: int)
    requires
        0 <= m <= n <= s.len(),
        find_scope_upto(s, k, m) matches Some(_),
    ensures
        find_scope_upto(s, k, n) == find_scope_upto(s, k, m),
    decreases n,
{
    if n > m {
        lemma_find_persist(s, k, m, n - 1);
    }
}

proof fn lemma_find_prefix_eq(s1: Seq<(u64, ScopeState)>, s2: Seq<(u64, ScopeState)>, k: u64, n: int)
    requires
        n <= s1.len(),
        n <= s2.len(),
        forall|j: int| 0 <= j < n ==> s1[j].0 == s2[j].0,
    ensures
        find_scope_upto(s1, k, n) == find_scope_upto(s2, k, n),
    decreases n,
{
    if n > 0 {
        lemma_find_prefix_eq(s1, s2, k, n - 1);
    }
}

proof fn lemma_find_props(s: Seq<(u64, ScopeState)>, k: u64, n: int, i: int)
    requires
        0 <= n <= s.len(),
        find_scope_upto(s, k, n) == Some(i),
    ensures
        0 <= i < n,
        s[i].0 == k,
    decreases n,
{
    if n > 0 {
        if find_scope_upto(s, k, n - 1) is Some {
            lemma_find_props(s, k, n - 1, i);
        }
    }
}

fn find_scope(entries: &Vec<(u64, ScopeState)>, scope: u64) -> (r: Option<usize>)
    ensures
        match r {
            Some(i) => i < entries@.len() && find_scope_upto(
                entries@,
                scope,
                entries@.len() as int,
            ) == Some(i as int),
            None => find_scope_upto(entries@, scope, entries@.len() as int) is None,
        },
{
    let n = entries.len();
    let mut i: usize = 0;
    while i < n
        invariant
            n == entries@.len(),
            i <= n,
            find_scope_upto(entries@, scope, i as int) is None,
        decreases n - i,
    {
        if entries[i].0 == scope {
            assert(find_scope_upto(entries@, scope, i + 1) == Some(i as int));
            proof {
                lemma_find_persist(entries@, scope, i + 1, n as int);
            }
            return Some(i);
        }
        i += 1;
    }
    None
}

impl Bucket {
    /// A fresh bucket with the given minimum delay and no recorded scopes.
    pub fn new(delay: u64) -> (r: Bucket)
        ensures
            r.delay == delay,
            forall|k: u64| scope_state_of(r, k) is None,
    {
        Bucket { delay, entries: Vec::new() }
    }

    /// One rate-limit check for `scope` at time `now`: returns the
    /// outcome dictated by the scope's prior state and records the
    /// successor state, leaving every other scope untouched.
    pub fn check(&mut self, scope: u64, now: u64) -> (r: CheckOutcome)
        ensures
            final(self).delay == old(self).delay,
            r == check_outcome_spec(old(self).delay, scope_state_of(*old(self), scope), now),
            scope_state_of(*final(self), scope) == Some(
                next_scope_state(old(self).delay, scope_state_of(*old(self), scope), now),
            ),
            forall|k2: u64|
                k2 != scope ==> scope_state_of(*final(self), k2) == scope_state_of(
                    *old(self),
                    k2,
                ),
    {
        let n = self.entries.len();
        let found = find_scope(&self.entries, scope);
        let ghost s0 = self.entries@;
        if let Some(i) = found {
            proof {
                lemma_find_props(s0, scope, n as int, i as int);
            }
            let st = self.entries[i].1;
            let prior_last = st.last_allowed;
            let denied = st.denied_since_allow;
            let elapsed: u64 = if now >= prior_last {
                now - prior_last
            } else {
                0
            };
            if elapsed >= self.delay {
                self.entries[i] = (scope, ScopeState { last_allowed: now, denied_since_allow: false });
                proof {
                    assert forall|k2: u64| k2 != scope implies scope_state_of(*self, k2)
                        == scope_state_of(*old(self), k2) by {
                        lemma_find_prefix_eq(s0, self.entries@, k2, n as int);
                        if let Some(j) = find_scope_upto(s0, k2, n as int) {
                            lemma_find_props(s0, k2, n as int, j);
                        }
                    }
                    lemma_find_prefix_eq(s0, self.entries@, scope, n as int);
                }
                CheckOutcome::Allowed
            } else {
                let retry = self.delay - elapsed;
                self.entries[i] = (
                    scope,
                    ScopeState { last_allowed: prior_last, denied_since_allow: true },
                );
                proof {
                    assert forall|k2: u64| k2 != scope implies scope_state_of(*self, k2)
                        == scope_state_of(*old(self), k2) by {
                        lemma_find_prefix_eq(s0, self.entries@, k2, n as int);
                        if let Some(j) = find_scope_upto(s0, k2, n as int) {
                            lemma_find_props(s0, k2, n as int, j);
                        }
                    }
                    lemma_find_prefix_eq(s0, self.entries@, scope, n as int);
                }
                CheckOutcome::Limited { retry_after: retry, is_first_denial: !denied }
            }
        } else {
            // no entry for this scope yet: a fresh scope is allowed
            self.entries.push((scope, ScopeState { last_allowed: now, denied_since_allow: false }));
            proof {
                assert forall|k2: u64| k2 != scope implies scope_state_of(*self, k2)
                    == scope_state_of(*old(self), k2) by {
                    lemma_find_prefix_eq(s0, self.entries@, k2, n as int);
                    assert(find_scope_upto(self.entries@, k2, n + 1) == find_scope_upto(
                        self.entries@,
                        k2,
                        n as int,
                    ));
                    if let Some(j) = find_scope_upto(s0, k2, n as int) {
                        lemma_find_props(s0, k2, n as int, j);
                    }
                }
                lemma_find_prefix_eq(s0, self.entries@, scope, n as int);
                assert(find_scope_upto(self.entries@, scope, n as int) is None);
                assert(self.entries@[n as int].0 == scope);
                assert(find_scope_upto(self.entries@, scope, n + 1) == Some(n as int));
            }
            CheckOutcome::Allowed
        }
    }
}

/// Minimum spacing between allowed uses: with the baseline at `t0`, a
/// check at time `t >= t0` is allowed exactly when `t0 + delay` has been
/// reached, and a check inside the window is denied with
/// `retry_after == delay - (t - t0)`. Denials never move the baseline,
/// so two allowed checks of one scope are always at least `delay` apart.
pub proof fn lemma_min_spacing(delay: u64, st: ScopeState, t: u64)
    requires
        st.last_allowed <= t,
    ensures
        check_outcome_spec(delay, Some(st), t) == CheckOutcome::Allowed <==> t >= st.last_allowed
            + delay,
        t < st.last_allowed + delay ==> check_outcome_spec(delay, Some(st), t) == (
        CheckOutcome::Limited {
            retry_after: (st.last_allowed + delay - t) as u64,
            is_first_denial: !st.denied_since_allow,
        }),
        next_scope_state(delay, Some(st), t).last_allowed == if t >= st.last_allowed + delay {
            t
        } else {
            st.last_allowed
        },
{
}

/// `is_first_denial` is reported exactly once per streak: the denial that
/// follows an allow (or a fresh entry) carries it, and every further
/// denial of the same streak does not, until the next allow clears the
/// streak again.
pub proof fn lemma_first_denial_streak(delay: u64, st: ScopeState, t: u64)
    ensures
        (check_outcome_spec(delay, Some(st), t) matches CheckOutcome::Limited {
            is_first_denial,
            ..
        } ==> is_first_denial == !st.denied_since_allow),
        (check_outcome_spec(delay, Some(st), t) matches CheckOutcome::Limited { .. } ==>
        next_scope_state(delay, Some(st), t).denied_since_allow),
        (check_outcome_spec(delay, Some(st), t) == CheckOutcome::Allowed ==> !next_scope_state(
            delay,
            Some(st),
            t,
        ).denied_since_allow),
{
}

/// No double admit: checks of one scope are serialized by exclusive
/// access to the bucket, and once a check is allowed at time `t`, a
/// second check at the same instant is denied (for any positive delay) —
/// two checks meant to admit one call can never both be allowed.
pub proof fn lemma_no_double_admit(delay: u64, prior: Option<ScopeState>, t: u64)
    requires
        delay > 0,
    ensures
        check_outcome_spec(delay, prior, t) == CheckOutcome::Allowed ==> (check_outcome_spec(
            delay,
            Some(next_scope_state(delay, prior, t)),
            t,
        ) matches CheckOutcome::Limited { retry_after, is_first_denial } && retry_after == delay
            && is_first_denial),
{
}


/// The named buckets configured for a dispatcher.
pub struct BucketSet {
    pub entries: Vec<(Vec<u8>, Bucket)>,
}

/// First index in `s` whose bucket name equals `k`, looking at the
/// first `n` entries only.
pub open spec fn find_bucket_upto(s: Seq<(Vec<u8>, Bucket)>, k: Seq<u8>, n: int) -> Option<int>
    decreases n,
{
    if n <= 0 {
        None
    } else {
        match find_bucket_upto(s, k, n - 1) {
            Some(i) => Some(i),
            None => if s[n - 1].0@ == k {
                Some(n - 1)
            } else {
                None
            },
        }
    }
}

/// The configured delay of bucket `name`, if such a bucket exists.
pub open spec fn bucket_delay(bs: BucketSet, name: Seq<u8>) -> Option<u64> {
    match find_bucket_upto(bs.entries@, name, bs.entries@.len() as int) {
        Some(i) => Some(bs.entries@[i].1.delay),
        None => None,
    }
}

/// The state bucket `name` holds for scope key `k`, if any.
pub open spec fn bucket_scope(bs: BucketSet, name: Seq<u8>, k: u64) -> Option<ScopeState> {
    match find_bucket_upto(bs.entries@, name, bs.entries@.len() as int) {
        Some(i) => scope_state_of(bs.entries@[i].1, k),
        None => None,
    }
}

proof fn lemma_bfind_persist(s: Seq<(Vec<u8>, Bucket)>, k: Seq<u8>, m: int, n: int)
    requires
        0 <= m <= n <= s.len(),
        find_bucket_upto(s, k, m) matches Some(_),
    ensures
        find_bucket_upto(s, k, n) == find_bucket_upto(s, k, m),
    decreases n,
{
    if n > m {
        lemma_bfind_persist(s, k, m, n - 1);
    }
}

proof fn lemma_bfind_prefix_eq(s1: Seq<(Vec<u8>, Bucket)>, s2: Seq<(Vec<u8>, Bucket)>, k: Seq<u8>, n: int)
    requires
        n <= s1.len(),
        n <= s2.len(),
        forall|j: int| 0 <= j < n ==> s1[j].0@ == s2[j].0@,
    ensures
        find_bucket_upto(s1, k, n) == find_bucket_upto(s2, k, n),
    decreases n,
{
    if n > 0 {
        lemma_bfind_prefix_eq(s1, s2, k, n - 1);
    }
}

proof fn lemma_bfind_props(s: Seq<(Vec<u8>, Bucket)>, k: Seq<u8>, n: int, i: int)
    requires
        0 <= n <= s.len(),
        find_bucket_upto(s, k, n) == Some(i),
    ensures
        0 <= i < n,
        s[i].0@ == k,
    decreases n,
{
    if n > 0 {
        if find_bucket_upto(s, k, n - 1) is Some {
            lemma_bfind_props(s, k, n - 1, i);
        }
    }
}

fn find_bucket(entries: &Vec<(Vec<u8>, Bucket)>, name: &Vec<u8>) -> (r: Option<usize>)
    ensures
        match r {
            Some(i) => i < entries@.len() && find_bucket_upto(
                entries@,
                name@,
                entries@.len() as int,
            ) == Some(i as int),
            None => find_bucket_upto(entries@, name@, entries@.len() as int) is None,
        },
{
    let n = entries.len();
    let mut i: usize = 0;
    while i < n
        invariant
            n == entries@.len(),
            i <= n,
            find_bucket_upto(entries@, name@, i as int) is None,
        decreases n - i,
    {
        if crate::text::bytes_equal(&entries[i].0, name, false) {
            assert(find_bucket_upto(entries@, name@, i + 1) == Some(i as int));
            proof {
                lemma_bfind_persist(entries@, name@, i + 1, n as int);
            }
            return Some(i);
        }
        i += 1;
    }
    None
}

impl BucketSet {
    /// A set with no buckets configured.
    pub fn new() -> (r: BucketSet)
        ensures
            forall|n: Seq<u8>| bucket_delay(r, n) is None,
            forall|n: Seq<u8>, k: u64| bucket_scope(r, n, k) is None,
    {
        BucketSet { entries: Vec::new() }
    }

    /// Configure a bucket named `name` with the given delay. Refused when
    /// a bucket of that name already exists.
    pub fn add(&mut self, name: Vec<u8>, delay: u64) -> (r: bool)
        ensures
            r <==> bucket_delay(*old(self), name@) is None,
            !r ==> *final(self) == *old(self),
            r ==> bucket_delay(*final(self), name@) == Some(delay),
            r ==> forall|k: u64| bucket_scope(*final(self), name@, k) is None,
            forall|n2: Seq<u8>|
                n2 != name@ ==> bucket_delay(*final(self), n2) == bucket_delay(*old(self), n2),
            forall|n2: Seq<u8>, k: u64|
                n2 != name@ ==> bucket_scope(*final(self), n2, k) == bucket_scope(*old(self), n2, k),
    {
        let n = self.entries.len();
        let found = find_bucket(&self.entries, &name);
        let ghost s0 = self.entries@;
        if found.is_some() {
            return false;
        }
        self.entries.push((name, Bucket::new(delay)));
        proof {
            let nv = self.entries@[n as int].0@;
            assert(find_bucket_upto(self.entries@, nv, n as int) is None) by {
                lemma_bfind_prefix_eq(s0, self.entries@, nv, n as int);
            }
            assert(find_bucket_upto(self.entries@, nv, n + 1) == Some(n as int));
            assert forall|n2: Seq<u8>| n2 != nv implies find_bucket_upto(
                self.entries@,
                n2,
                n + 1,
            ) == find_bucket_upto(s0, n2, n as int) by {
                lemma_bfind_prefix_eq(s0, self.entries@, n2, n as int);
            }
            assert forall|n2: Seq<u8>, k: u64| n2 != nv implies bucket_scope(*self, n2, k)
                == bucket_scope(*old(self), n2, k) by {
                if let Some(j) = find_bucket_upto(s0, n2, n as int) {
                    lemma_bfind_props(s0, n2, n as int, j);
                }
            }
            assert forall|n2: Seq<u8>| n2 != nv implies bucket_delay(*self, n2) == bucket_delay(
                *old(self),
                n2,
            ) by {
                if let Some(j) = find_bucket_upto(s0, n2, n as int) {
                    lemma_bfind_props(s0, n2, n as int, j);
                }
            }
        }
        true
    }

    /// One rate-limit check against bucket `name` for `scope` at `now`.
    /// Yields nothing when no bucket of that name is configured (the
    /// command then passes unlimited); otherwise the bucket decides and
    /// records per `check_outcome_spec` and `next_scope_state`, and no
    /// other bucket or scope changes.
    pub fn check(&mut self, name: &Vec<u8>, scope: u64, now: u64) -> (r: Option<CheckOutcome>)
        ensures
            bucket_delay(*old(self), name@) is None ==> r is None && *final(self) == *old(self),
            match bucket_delay(*old(self), name@) {
                Some(d) => r == Some(
                    check_outcome_spec(d, bucket_scope(*old(self), name@, scope), now),
                ) && bucket_scope(*final(self), name@, scope) == Some(
                    next_scope_state(d, bucket_scope(*old(self), name@, scope), now),
                ),
                None => true,
            },
            forall|n2: Seq<u8>|
                bucket_delay(*final(self), n2) == bucket_delay(*old(self), n2),
            forall|k2: u64|
                k2 != scope ==> bucket_scope(*final(self), name@, k2) == bucket_scope(
                    *old(self),
                    name@,
                    k2,
                ),
            forall|n2: Seq<u8>, k2: u64|
                n2 != name@ ==> bucket_scope(*final(self), n2, k2) == bucket_scope(
                    *old(self),
                    n2,
                    k2,
                ),
    {
        let n = self.entries.len();
        let found = find_bucket(&self.entries, name);
        let ghost s0 = self.entries@;
        if let Some(i) = found {
            proof {
                lemma_bfind_props(s0, name@, n as int, i as int);
            }
            let entry = self.entries.remove(i);
            let (bname, mut b) = entry;
            let ghost b0 = b;
            let r = b.check(scope, now);
            self.entries.insert(i, (bname, b));
            proof {
                assert(self.entries@.len() == n);
                assert(forall|j: int| 0 <= j < n && j != i ==> self.entries@[j] == s0[j]);
                assert(self.entries@[i as int].0@ == name@);
                assert(forall|j: int| 0 <= j < n ==> self.entries@[j].0@ == s0[j].0@);
                lemma_bfind_prefix_eq(s0, self.entries@, name@, n as int);
                assert forall|n2: Seq<u8>, k2: u64| n2 != name@ implies bucket_scope(*self, n2, k2)
                    == bucket_scope(*old(self), n2, k2) by {
                    lemma_bfind_prefix_eq(s0, self.entries@, n2, n as int);
                    if let Some(j) = find_bucket_upto(s0, n2, n as int) {
                        lemma_bfind_props(s0, n2, n as int, j);
                    }
                }
                assert forall|n2: Seq<u8>| bucket_delay(*self, n2) == bucket_delay(
                    *old(self),
                    n2,
                ) by {
                    lemma_bfind_prefix_eq(s0, self.entries@, n2, n as int);
                    if let Some(j) = find_bucket_upto(s0, n2, n as int) {
                        lemma_bfind_props(s0, n2, n as int, j);
                    }
                }
            }
            Some(r)
        } else {
            None
        }
    }
}

} // verus!
