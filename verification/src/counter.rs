//! Invocation counters: a mapping from command name to the number of
//! dispatches that reached the execution stage. Counts only ever grow
//! (saturating at the integer bound), and incrementing one command's
//! count never disturbs another's.

use vstd::prelude::*;

verus! {

/// First index in `s` whose name equals `k`, looking at the first `n`
/// entries only.
pub open spec fn find_name_upto(s: Seq<(Vec<u8>, u64)>, k: Seq<u8>, n: int) -> Option<int>
    decreases n,
{
    if n <= 0 {
        None
    } else {
        match find_name_upto(s, k, n - 1) {
            Some(i) => Some(i),
            None => if s[n - 1].0@ == k {
                Some(n - 1)
            } else {
                None
            },
        }
    }
}

/// Mapping from command name to invocation count.
pub struct CounterMap {
    pub entries: Vec<(Vec<u8>, u64)>,
}

/// The count recorded for `name`; zero when the command was never counted.
pub open spec fn count_of(m: CounterMap, name: Seq<u8>) -> u64 {
    match find_name_upto(m.entries@, name, m.entries@.len() as int) {
        Some(i) => m.entries@[i].1,
        None => 0,
    }
}

/// The count after one more invocation: one higher, saturating at the
/// integer bound.
pub open spec fn bumped(c: u64) -> u64 {
    if c < u64::MAX {
        (c + 1) as u64
    } else {
        c
    }
}

proof fn lemma_find_persist(s: Seq<(Vec<u8>, u64)>, k: Seq<u8>, m: int, n: int)
    requires
        0 <= m <= n <= s.len(),
        find_name_upto(s, k, m) matches Some(_),
    ensures
        find_name_upto(s, k, n) == find_name_upto(s, k, m),
    decreases n,
{
    if n > m {
        lemma_find_persist(s, k, m, n - 1);
    }
}

proof fn lemma_find_prefix_eq(s1: Seq<(Vec<u8>, u64)>, s2: Seq<(Vec<u8>, u64)>, k: Seq<u8>, n: int)
    requires
        n <= s1.len(),
        n <= s2.len(),
        forall|j: int| 0 <= j < n ==> s1[j].0@ == s2[j].0@,
    ensures
        find_name_upto(s1, k, n) == find_name_upto(s2, k, n),
    decreases n,
{
    if n > 0 {
        lemma_find_prefix_eq(s1, s2, k, n - 1);
    }
}

proof fn lemma_find_props(s: Seq<(Vec<u8>, u64)>, k: Seq<u8>, n: int, i: int)
    requires
        0 <= n <= s.len(),
        find_name_upto(s, k, n) == Some(i),
    ensures
        0 <= i < n,
        s[i].0@ == k,
    decreases n,
{
    if n > 0 {
        if find_name_upto(s, k, n - 1) is Some {
            lemma_find_props(s, k, n - 1, i);
        }
    }
}

fn find_name(entries: &Vec<(Vec<u8>, u64)>, name: &Vec<u8>) -> (r: Option<usize>)
    ensures
        match r {
            Some(i) => i < entries@.len() && find_name_upto(
                entries@,
                name@,
                entries@.len() as int,
            ) == Some(i as int),
            None => find_name_upto(entries@, name@, entries@.len() as int) is None,
        },
{
    let n = entries.len();
    let mut i: usize = 0;
    while i < n
        invariant
            n == entries@.len(),
            i <= n,
            find_name_upto(entries@, name@, i as int) is None,
        decreases n - i,
    {
        if crate::text::bytes_equal(&entries[i].0, name, false) {
            assert(find_name_upto(entries@, name@, i + 1) == Some(i as int));
            proof {
                lemma_find_persist(entries@, name@, i + 1, n as int);
            }
            return Some(i);
        }
        i += 1;
    }
    None
}

impl CounterMap {
    /// A fresh map in which every command counts zero invocations.
    pub fn new() -> (r: CounterMap)
        ensures
            forall|k: Seq<u8>| count_of(r, k) == 0,
    {
        CounterMap { entries: Vec::new() }
    }

    /// The invocation count recorded for `name`.
    pub fn get(&self, name: &Vec<u8>) -> (r: u64)
        ensures
            r == count_of(*self, name@),
    {
        let found = find_name(&self.entries, name);
        if let Some(i) = found {
            self.entries[i].1
        } else {
            0
        }
    }

    /// Count one more invocation of `name`, leaving every other command's
    /// count unchanged.
    pub fn increment(&mut self, name: &Vec<u8>) -> (r: u64)
        ensures
            count_of(*final(self), name@) == bumped(count_of(*old(self), name@)),
            r == count_of(*final(self), name@),
            forall|k2: Seq<u8>|
                k2 != name@ ==> count_of(*final(self), k2) == count_of(*old(self), k2),
    {
        let n = self.entries.len();
        let found = find_name(&self.entries, name);
        let ghost s0 = self.entries@;
        if let Some(i) = found {
            proof {
                lemma_find_props(s0, name@, n as int, i as int);
            }
            let c = self.entries[i].1;
            let c2 = if c < u64::MAX {
                c + 1
            } else {
                c
            };
            let key = crate::text::copy_bytes(name);
            self.entries[i] = (key, c2);
            proof {
                assert forall|k2: Seq<u8>| k2 != name@ implies count_of(*self, k2) == count_of(
                    *old(self),
                    k2,
                ) by {
                    lemma_find_prefix_eq(s0, self.entries@, k2, n as int);
                    if let Some(j) = find_name_upto(s0, k2, n as int) {
                        lemma_find_props(s0, k2, n as int, j);
                    }
                }
                lemma_find_prefix_eq(s0, self.entries@, name@, n as int);
            }
            c2
        } else {
            let key = crate::text::copy_bytes(name);
            self.entries.push((key, 1));
            proof {
                assert forall|k2: Seq<u8>| k2 != name@ implies count_of(*self, k2) == count_of(
                    *old(self),
                    k2,
                ) by {
                    lemma_find_prefix_eq(s0, self.entries@, k2, n as int);
                    assert(self.entries@[n as int].0@ == name@);
                    assert(find_name_upto(self.entries@, k2, n + 1) == find_name_upto(
                        self.entries@,
                        k2,
                        n as int,
                    ));
                    if let Some(j) = find_name_upto(s0, k2, n as int) {
                        lemma_find_props(s0, k2, n as int, j);
                    }
                }
                lemma_find_prefix_eq(s0, self.entries@, name@, n as int);
                assert(find_name_upto(self.entries@, name@, n as int) is None);
                assert(self.entries@[n as int].0@ == name@);
                assert(find_name_upto(self.entries@, name@, n + 1) == Some(n as int));
            }
            1
        }
    }
}

} // verus!
