//! Per-identity sliding-window admission control.
//!
//! Each identity has a record of the timestamps (in seconds) at which its
//! commands were admitted. A command is admitted only when, after pruning
//! timestamps that fell out of the trailing window, fewer than
//! `max_commands` remain; the admission itself is then recorded. The check
//! and the recording happen in one call, so no two admissions for the same
//! identity can race past each other.

use vstd::prelude::*;

use crate::strutil::str_eq;

verus! {

/// True when a timestamp recorded at `ts` still counts against the trailing
/// window of `window` seconds ending at `now`.
pub open spec fn in_window(ts: u64, now: u64, window: u64) -> bool {
    ts + window > now
}

/// The timestamps of `times` that are still inside the trailing window, in
/// their original order.
pub open spec fn prune(times: Seq<u64>, now: u64, window: u64) -> Seq<u64>
    decreases times.len(),
{
    if times.len() == 0 {
        Seq::empty()
    } else {
        let rest = prune(times.drop_last(), now, window);
        if in_window(times.last(), now, window) {
            rest.push(times.last())
        } else {
            rest
        }
    }
}

pub struct RateLimiter {
    commands: Vec<(String, Vec<u64>)>,
    max_commands: u32,
    window_duration: u64,
}

impl RateLimiter {
    /// The admission timestamps currently recorded for `user`, oldest first;
    /// identities never seen have an empty record.
    pub closed spec fn times_of(&self, user: Seq<char>) -> Seq<u64> {
        lookup(self.commands@, user)
    }

    pub closed spec fn max_commands_spec(&self) -> u32 {
        self.max_commands
    }

    pub closed spec fn window_spec(&self) -> u64 {
        self.window_duration
    }

    /// Every identity's record holds at most `max_commands` timestamps.
    pub closed spec fn wf(&self) -> bool {
        forall|i: int|
            0 <= i < self.commands@.len() ==> (#[trigger] self.commands@[i]).1@.len()
                <= self.max_commands
    }

    pub fn new(max_commands: u32, window_duration: u64) -> (r: RateLimiter)
        ensures
            r.wf(),
            r.max_commands_spec() == max_commands,
            r.window_spec() == window_duration,
            forall|u: Seq<char>| #[trigger] r.times_of(u) == Seq::<u64>::empty(),
    {
        RateLimiter { commands: Vec::new(), max_commands, window_duration }
    }

    /// Admit-and-record: prunes `user_id`'s record down to the timestamps
    /// still inside the trailing window, admits the command when fewer than
    /// `max_commands` remain, and records `now` for it if admitted. Denied
    /// commands are not recorded, though the pruning itself is kept.
    pub fn can_execute(&mut self, user_id: &str, now: u64) -> (r: bool)
        requires
            old(self).wf(),
        ensures
            final(self).wf(),
            final(self).max_commands_spec() == old(self).max_commands_spec(),
            final(self).window_spec() == old(self).window_spec(),
            r == (prune(old(self).times_of(user_id@), now, old(self).window_spec()).len()
                < old(self).max_commands_spec()),
            final(self).times_of(user_id@) == (if r {
                prune(old(self).times_of(user_id@), now, old(self).window_spec()).push(now)
            } else {
                prune(old(self).times_of(user_id@), now, old(self).window_spec())
            }),
            forall|u: Seq<char>|
                u != user_id@ ==> #[trigger] final(self).times_of(u) == old(self).times_of(u),
    {
        let found = self.find_user(user_id);
        match found {
            None => {
                if self.max_commands > 0 {
                    let mut times: Vec<u64> = Vec::new();
                    times.push(now);
                    let ghost new_times = times@;
                    let key = user_id.to_owned();
                    let ghost old_table = self.commands@;
                    self.commands.push((key, times));
                    proof {
                        let entry = self.commands@.last();
                        lemma_lookup_absent(old_table, user_id@);
                        lemma_lookup_push(old_table, entry, user_id@);
                        assert(self.commands@.drop_last() =~= old_table);
                        assert forall|u: Seq<char>| u != user_id@ implies #[trigger] lookup(
                            self.commands@,
                            u,
                        ) == lookup(old_table, u) by {
                            lemma_lookup_push(old_table, entry, u);
                            if !lookup_hits(old_table, u) {
                                lemma_no_hit_lookup_empty(old_table, u);
                            }
                        }
                        assert(new_times =~= prune(
                            Seq::<u64>::empty(),
                            now,
                            self.window_duration,
                        ).push(now));
                    }
                    true
                } else {
                    false
                }
            },
            Some(i) => {
                let ghost old_times = self.commands@[i as int].1@;
                let ghost w = self.window_duration;
                let mut pruned: Vec<u64> = Vec::new();
                let times_len = self.commands[i].1.len();
                let mut j: usize = 0;
                while j < times_len
                    invariant
                        j <= times_len,
                        i < self.commands@.len(),
                        self.commands@ == old(self).commands@,
                        self.max_commands == old(self).max_commands,
                        self.window_duration == w,
                        times_len == old_times.len(),
                        old_times == self.commands@[i as int].1@,
                        pruned@ == prune(old_times.take(j as int), now, w),
                    decreases times_len - j,
                {
                    let ts = self.commands[i].1[j];
                    let keep = if ts >= now {
                        ts > now || self.window_duration > 0
                    } else {
                        self.window_duration > now - ts
                    };
                    proof {
                        assert(old_times.take(j + 1).drop_last() =~= old_times.take(j as int));
                        assert(old_times.take(j + 1).last() == ts);
                    }
                    if keep {
                        pruned.push(ts);
                    }
                    j += 1;
                }
                proof {
                    assert(old_times.take(times_len as int) =~= old_times);
                    lemma_prune_len(old_times, now, w);
                }
                let admitted = (pruned.len() as u64) < (self.max_commands as u64);
                if admitted {
                    pruned.push(now);
                }
                let key = self.commands[i].0.clone();
                let ghost old_table = self.commands@;
                self.commands.set(i, (key, pruned));
                proof {
                    let entry = self.commands@[i as int];
                    lemma_lookup_first(old_table, user_id@, i as int);
                    assert(self.commands@ =~= old_table.update(i as int, entry));
                    lemma_lookup_update(old_table, i as int, entry, user_id@);
                    assert forall|u: Seq<char>| u != user_id@ implies #[trigger] lookup(
                        self.commands@,
                        u,
                    ) == lookup(old_table, u) by {
                        lemma_lookup_update(old_table, i as int, entry, u);
                    }
                }
                admitted
            },
        }
    }

    /// Index of the first record whose identity is `user_id`, if any.
    fn find_user(&self, user_id: &str) -> (r: Option<usize>)
        ensures
            match r {
                Some(i) => {
                    &&& i < self.commands@.len()
                    &&& self.commands@[i as int].0@ == user_id@
                    &&& forall|k: int| 0 <= k < i ==> (#[trigger] self.commands@[k]).0@ != user_id@
                    &&& self.times_of(user_id@) == self.commands@[i as int].1@
                },
                None => {
                    &&& forall|k: int|
                        0 <= k < self.commands@.len() ==> (#[trigger] self.commands@[k]).0@
                            != user_id@
                    &&& self.times_of(user_id@) == Seq::<u64>::empty()
                },
            },
    {
        let n = self.commands.len();
        let mut i: usize = 0;
        while i < n
            invariant
                i <= n,
                n == self.commands@.len(),
                forall|k: int| 0 <= k < i ==> (#[trigger] self.commands@[k]).0@ != user_id@,
            decreases n - i,
        {
            if str_eq(self.commands[i].0.as_str(), user_id) {
                proof {
                    lemma_lookup_first(self.commands@, user_id@, i as int);
                }
                return Some(i);
            }
            i += 1;
        }
        proof {
            lemma_lookup_absent(self.commands@, user_id@);
        }
        None
    }
}

/// The record stored for `user` in `table`: the first entry with that
/// identity, or the empty record when none exists.
pub open spec fn lookup(table: Seq<(String, Vec<u64>)>, user: Seq<char>) -> Seq<u64>
    decreases table.len(),
{
    if table.len() == 0 {
        Seq::empty()
    } else if table[0].0@ == user {
        table[0].1@
    } else {
        lookup(table.drop_first(), user)
    }
}

/// Whether `table` already holds a record for `user`.
pub open spec fn lookup_hits(table: Seq<(String, Vec<u64>)>, user: Seq<char>) -> bool
    decreases table.len(),
{
    if table.len() == 0 {
        false
    } else if table[0].0@ == user {
        true
    } else {
        lookup_hits(table.drop_first(), user)
    }
}

/// Law: a well-formed limiter never holds more than `max_commands`
/// admissions for any identity, so no trailing window can exceed the
/// budget either.
pub proof fn lemma_rate_budget(limiter: &RateLimiter, user: Seq<char>, now: u64)
    requires
        limiter.wf(),
    ensures
        limiter.times_of(user).len() <= limiter.max_commands_spec(),
        prune(limiter.times_of(user), now, limiter.window_spec()).len()
            <= limiter.max_commands_spec(),
{
    lemma_lookup_len(limiter.commands@, user, limiter.max_commands);
    lemma_prune_len(limiter.times_of(user), now, limiter.window_spec());
}

proof fn lemma_lookup_len(table: Seq<(String, Vec<u64>)>, user: Seq<char>, bound: u32)
    requires
        forall|i: int| 0 <= i < table.len() ==> (#[trigger] table[i]).1@.len() <= bound,
    ensures
        lookup(table, user).len() <= bound,
    decreases table.len(),
{
    if table.len() > 0 && table[0].0@ != user {
        assert(forall|i: int|
            0 <= i < table.drop_first().len() ==> #[trigger] table.drop_first()[i] == table[i + 1]);
        lemma_lookup_len(table.drop_first(), user, bound);
    }
}

proof fn lemma_prune_len(times: Seq<u64>, now: u64, window: u64)
    ensures
        prune(times, now, window).len() <= times.len(),
    decreases times.len(),
{
    if times.len() > 0 {
        lemma_prune_len(times.drop_last(), now, window);
    }
}

proof fn lemma_lookup_first(table: Seq<(String, Vec<u64>)>, user: Seq<char>, i: int)
    requires
        0 <= i < table.len(),
        table[i].0@ == user,
        forall|k: int| 0 <= k < i ==> (#[trigger] table[k]).0@ != user,
    ensures
        lookup(table, user) == table[i].1@,
        lookup_hits(table, user),
    decreases i,
{
    if i > 0 {
        lemma_lookup_first(table.drop_first(), user, i - 1);
    }
}

proof fn lemma_lookup_absent(table: Seq<(String, Vec<u64>)>, user: Seq<char>)
    requires
        forall|k: int| 0 <= k < table.len() ==> (#[trigger] table[k]).0@ != user,
    ensures
        lookup(table, user) == Seq::<u64>::empty(),
        !lookup_hits(table, user),
    decreases table.len(),
{
    if table.len() > 0 {
        lemma_lookup_absent(table.drop_first(), user);
    }
}

proof fn lemma_no_hit_lookup_empty(table: Seq<(String, Vec<u64>)>, user: Seq<char>)
    requires
        !lookup_hits(table, user),
    ensures
        lookup(table, user) == Seq::<u64>::empty(),
    decreases table.len(),
{
    if table.len() > 0 {
        lemma_no_hit_lookup_empty(table.drop_first(), user);
    }
}

proof fn lemma_lookup_push(
    table: Seq<(String, Vec<u64>)>,
    entry: (String, Vec<u64>),
    user: Seq<char>,
)
    ensures
        lookup_hits(table, user) ==> lookup(table.push(entry), user) == lookup(table, user),
        !lookup_hits(table, user) ==> lookup(table.push(entry), user) == (if entry.0@ == user {
            entry.1@
        } else {
            Seq::<u64>::empty()
        }),
    decreases table.len(),
{
    let s = table.push(entry);
    if table.len() == 0 {
        assert(s.len() == 1);
        assert(s[0] == entry);
        if entry.0@ == user {
            assert(lookup(s, user) == entry.1@);
        } else {
            assert(s.drop_first() =~= Seq::<(String, Vec<u64>)>::empty());
            assert(lookup(s, user) == lookup(s.drop_first(), user));
            assert(lookup(s.drop_first(), user) == Seq::<u64>::empty());
        }
    } else {
        assert(s[0] == table[0]);
        assert(s.drop_first() =~= table.drop_first().push(entry));
        lemma_lookup_push(table.drop_first(), entry, user);
        if table[0].0@ == user {
            assert(lookup_hits(table, user));
            assert(lookup(s, user) == table[0].1@);
            assert(lookup(table, user) == table[0].1@);
        } else {
            assert(lookup(s, user) == lookup(table.drop_first().push(entry), user));
            assert(lookup_hits(table, user) == lookup_hits(table.drop_first(), user));
            assert(lookup(table, user) == lookup(table.drop_first(), user));
        }
    }
}

proof fn lemma_lookup_update(
    table: Seq<(String, Vec<u64>)>,
    i: int,
    entry: (String, Vec<u64>),
    user: Seq<char>,
)
    requires
        0 <= i < table.len(),
        entry.0@ == table[i].0@,
        forall|k: int| 0 <= k < i ==> (#[trigger] table[k]).0@ != table[i].0@,
    ensures
        lookup(table.update(i, entry), user) == (if user == table[i].0@ {
            entry.1@
        } else {
            lookup(table, user)
        }),
    decreases i,
{
    if i == 0 {
        if user != table[0].0@ {
            assert(table.update(0, entry).drop_first() =~= table.drop_first());
        }
    } else {
        assert(table.update(i, entry).drop_first() =~= table.drop_first().update(i - 1, entry));
        lemma_lookup_update(table.drop_first(), i - 1, entry, user);
    }
}

} // verus!
