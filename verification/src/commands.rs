//! The command execution state machine.
//!
//! Every submitted command runs `authorize → rate-check → dispatch → log →
//! respond` and yields exactly one response. Denials and rate limiting are
//! business outcomes, not errors; both are logged and recorded in the
//! bounded, id-keyed command history. Platform side effects happen outside
//! the library: a command whose kind needs one is handed back as a pending
//! action, and its outcome is recorded on completion.

use vstd::prelude::*;

use crate::config::Config;
use crate::crypto::SecurityManager;
use crate::protocol::{
    decision_spec, kind_name, kind_permitted_spec, AuthDecision, CommandAuthorizer, CommandResponse,
    CommandType, DenialReason, DiscordCommand,
};
use crate::ratelimit::{prune, RateLimiter};
use crate::storage::{
    bounded_append, severity_of, AuditEntryView, SecureStorage,
};
use crate::strutil::str_eq;
use crate::textfmt::{append_i64_dec, append_json_escaped, dec_int, json_escaped};

verus! {

/// One completed (or denied) command, keyed by its id.
#[derive(Debug)]
pub struct CommandHistoryEntry {
    pub command_id: String,
    pub command_type: CommandType,
    pub authorized_user: String,
    /// Unix seconds at which the outcome was recorded.
    pub timestamp: i64,
    pub success: bool,
    pub details: String,
}

/// The mathematical picture of one history entry.
pub struct HistoryEntryView {
    pub command_id: Seq<char>,
    pub command_type: CommandType,
    pub authorized_user: Seq<char>,
    pub timestamp: int,
    pub success: bool,
    pub details: Seq<char>,
}

impl View for CommandHistoryEntry {
    type V = HistoryEntryView;

    open spec fn view(&self) -> HistoryEntryView {
        HistoryEntryView {
            command_id: self.command_id@,
            command_type: self.command_type,
            authorized_user: self.authorized_user@,
            timestamp: self.timestamp as int,
            success: self.success,
            details: self.details@,
        }
    }
}

/// The views of a sequence of history entries.
pub open spec fn hviews_of(s: Seq<CommandHistoryEntry>) -> Seq<HistoryEntryView> {
    s.map_values(|e: CommandHistoryEntry| e@)
}

/// How many history entries are retained.
pub open spec fn history_capacity() -> nat {
    1000
}

/// Entries ordered oldest to newest.
pub open spec fn hist_sorted(s: Seq<HistoryEntryView>) -> bool {
    forall|i: int, j: int|
        0 <= i < j < s.len() ==> #[trigger] s[i].timestamp <= #[trigger] s[j].timestamp
}

/// No two entries share a command id.
pub open spec fn hist_unique(s: Seq<HistoryEntryView>) -> bool {
    forall|i: int, j: int|
        0 <= i < j < s.len() ==> (#[trigger] s[i]).command_id != (#[trigger] s[j]).command_id
}

/// Whether some entry carries this command id.
pub open spec fn id_in(s: Seq<HistoryEntryView>, id: Seq<char>) -> bool {
    exists|i: int| 0 <= i < s.len() && (#[trigger] s[i]).command_id == id
}

/// `s` without any entry keyed by `id`.
pub open spec fn strip_id(s: Seq<HistoryEntryView>, id: Seq<char>) -> Seq<HistoryEntryView>
    decreases s.len(),
{
    if s.len() == 0 {
        Seq::empty()
    } else if s[0].command_id == id {
        strip_id(s.drop_first(), id)
    } else {
        seq![s[0]] + strip_id(s.drop_first(), id)
    }
}

/// `e` inserted after every entry whose timestamp does not exceed its own,
/// keeping the sequence ordered.
pub open spec fn insert_sorted(s: Seq<HistoryEntryView>, e: HistoryEntryView) -> Seq<
    HistoryEntryView,
>
    decreases s.len(),
{
    if s.len() == 0 || s.last().timestamp <= e.timestamp {
        s.push(e)
    } else {
        insert_sorted(s.drop_last(), e).push(s.last())
    }
}

/// The newest `cap` elements of `s`.
pub open spec fn hist_newest(s: Seq<HistoryEntryView>, cap: nat) -> Seq<HistoryEntryView> {
    if s.len() <= cap {
        s
    } else {
        s.skip(s.len() - cap)
    }
}

/// What the history holds after recording `e`: any entry with the same id
/// replaced, the rest kept in timestamp order, the oldest evicted past the
/// capacity.
pub open spec fn record_spec(s: Seq<HistoryEntryView>, e: HistoryEntryView) -> Seq<
    HistoryEntryView,
> {
    hist_newest(insert_sorted(strip_id(s, e.command_id), e), history_capacity())
}

/// Entries of `s`, newest first.
pub open spec fn rev_hist(s: Seq<HistoryEntryView>) -> Seq<HistoryEntryView>
    decreases s.len(),
{
    if s.len() == 0 {
        Seq::empty()
    } else {
        rev_hist(s.drop_first()) + seq![s[0]]
    }
}

/// An optional cap on how many entries a query returns.
pub open spec fn hist_limit(s: Seq<HistoryEntryView>, limit: Option<usize>) -> Seq<
    HistoryEntryView,
> {
    match limit {
        None => s,
        Some(l) => if s.len() <= l {
            s
        } else {
            s.take(l as int)
        },
    }
}

/// How many entries of `s` succeeded.
pub open spec fn count_success(s: Seq<HistoryEntryView>) -> nat
    decreases s.len(),
{
    if s.len() == 0 {
        0
    } else {
        count_success(s.drop_last()) + (if s.last().success {
            1nat
        } else {
            0nat
        })
    }
}

/// How many entries of `s` have this kind.
pub open spec fn count_kind(s: Seq<HistoryEntryView>, kind: CommandType) -> nat
    decreases s.len(),
{
    if s.len() == 0 {
        0
    } else {
        count_kind(s.drop_last(), kind) + (if s.last().command_type == kind {
            1nat
        } else {
            0nat
        })
    }
}

/// How many entries of `s` this issuer submitted.
pub open spec fn count_user(s: Seq<HistoryEntryView>, user: Seq<char>) -> nat
    decreases s.len(),
{
    if s.len() == 0 {
        0
    } else {
        count_user(s.drop_last(), user) + (if s.last().authorized_user == user {
            1nat
        } else {
            0nat
        })
    }
}

proof fn lemma_count_success_le(s: Seq<HistoryEntryView>)
    ensures
        count_success(s) <= s.len(),
    decreases s.len(),
{
    if s.len() > 0 {
        lemma_count_success_le(s.drop_last());
    }
}

proof fn lemma_count_kind_le(s: Seq<HistoryEntryView>, kind: CommandType)
    ensures
        count_kind(s, kind) <= s.len(),
    decreases s.len(),
{
    if s.len() > 0 {
        lemma_count_kind_le(s.drop_last(), kind);
    }
}

proof fn lemma_count_user_le(s: Seq<HistoryEntryView>, user: Seq<char>)
    ensures
        count_user(s, user) <= s.len(),
    decreases s.len(),
{
    if s.len() > 0 {
        lemma_count_user_le(s.drop_last(), user);
    }
}

proof fn lemma_strip_id(s: Seq<HistoryEntryView>, id: Seq<char>)
    ensures
        strip_id(s, id).len() <= s.len(),
        forall|k: int|
            0 <= k < strip_id(s, id).len() ==> (#[trigger] strip_id(s, id)[k]).command_id != id,
        forall|k: int|
            0 <= k < strip_id(s, id).len() ==> exists|j: int|
                0 <= j < s.len() && #[trigger] strip_id(s, id)[k] == s[j],
        hist_sorted(s) ==> hist_sorted(strip_id(s, id)),
        hist_unique(s) ==> hist_unique(strip_id(s, id)),
        forall|c: Seq<char>| id_in(strip_id(s, id), c) ==> id_in(s, c),
    decreases s.len(),
{
    if s.len() == 0 {
    } else {
        let rest = s.drop_first();
        lemma_strip_id(rest, id);
        let r = strip_id(s, id);
        assert forall|k: int| 0 <= k < r.len() implies exists|j: int|
            0 <= j < s.len() && #[trigger] r[k] == s[j] by {
            if s[0].command_id == id {
                let j0 = choose|j0: int| 0 <= j0 < rest.len() && strip_id(rest, id)[k] == rest[j0];
                assert(r[k] == s[j0 + 1]);
            } else {
                if k == 0 {
                    assert(r[0] == s[0]);
                } else {
                    let j0 = choose|j0: int|
                        0 <= j0 < rest.len() && strip_id(rest, id)[k - 1] == rest[j0];
                    assert(r[k] == s[j0 + 1]);
                }
            }
        }
        if hist_sorted(s) {
            assert forall|i: int, j: int| 0 <= i < j < r.len() implies #[trigger] r[i].timestamp
                <= #[trigger] r[j].timestamp by {
                let ji = choose|x: int| 0 <= x < s.len() && r[i] == s[x];
                let jj = choose|x: int| 0 <= x < s.len() && r[j] == s[x];
                lemma_strip_order(s, id, i, j);
            }
        }
        if hist_unique(s) {
            assert forall|i: int, j: int| 0 <= i < j < r.len() implies (
            #[trigger] r[i]).command_id != (#[trigger] r[j]).command_id by {
                lemma_strip_order(s, id, i, j);
            }
        }
        assert forall|c: Seq<char>| id_in(r, c) implies id_in(s, c) by {
            let k = choose|k: int| 0 <= k < r.len() && (#[trigger] r[k]).command_id == c;
            let j = choose|j: int| 0 <= j < s.len() && r[k] == s[j];
            assert(s[j].command_id == c);
        }
    }
}

/// Elements of the stripped sequence come from strictly increasing
/// positions of the original.
proof fn lemma_strip_order(s: Seq<HistoryEntryView>, id: Seq<char>, i: int, j: int)
    requires
        0 <= i < j < strip_id(s, id).len(),
    ensures
        exists|x: int, y: int|
            0 <= x < y < s.len() && strip_id(s, id)[i] == s[x] && strip_id(s, id)[j] == s[y],
    decreases s.len(),
{
    let r = strip_id(s, id);
    let rest = s.drop_first();
    if s[0].command_id == id {
        lemma_strip_order(rest, id, i, j);
        let (x0, y0) = choose|x0: int, y0: int|
            0 <= x0 < y0 < rest.len() && strip_id(rest, id)[i] == rest[x0] && strip_id(rest, id)[j]
                == rest[y0];
        assert(r[i] == s[x0 + 1] && r[j] == s[y0 + 1]);
    } else {
        if i == 0 {
            lemma_strip_in(rest, id, j - 1);
            let y0 = choose|y0: int|
                0 <= y0 < rest.len() && strip_id(rest, id)[j - 1] == rest[y0];
            assert(r[0] == s[0] && r[j] == s[y0 + 1]);
        } else {
            lemma_strip_order(rest, id, i - 1, j - 1);
            let (x0, y0) = choose|x0: int, y0: int|
                0 <= x0 < y0 < rest.len() && strip_id(rest, id)[i - 1] == rest[x0] && strip_id(
                    rest,
                    id,
                )[j - 1] == rest[y0];
            assert(r[i] == s[x0 + 1] && r[j] == s[y0 + 1]);
        }
    }
}

proof fn lemma_strip_in(s: Seq<HistoryEntryView>, id: Seq<char>, k: int)
    requires
        0 <= k < strip_id(s, id).len(),
    ensures
        exists|j: int| 0 <= j < s.len() && strip_id(s, id)[k] == s[j],
    decreases s.len(),
{
    let rest = s.drop_first();
    if s[0].command_id == id {
        lemma_strip_in(rest, id, k);
        let j0 = choose|j0: int| 0 <= j0 < rest.len() && strip_id(rest, id)[k] == rest[j0];
        assert(strip_id(s, id)[k] == s[j0 + 1]);
    } else {
        if k == 0 {
            assert(strip_id(s, id)[0] == s[0]);
        } else {
            lemma_strip_in(rest, id, k - 1);
            let j0 = choose|j0: int| 0 <= j0 < rest.len() && strip_id(rest, id)[k - 1] == rest[j0];
            assert(strip_id(s, id)[k] == s[j0 + 1]);
        }
    }
}

proof fn lemma_insert_sorted(s: Seq<HistoryEntryView>, e: HistoryEntryView)
    requires
        hist_sorted(s),
    ensures
        insert_sorted(s, e).len() == s.len() + 1,
        hist_sorted(insert_sorted(s, e)),
        forall|k: int|
            0 <= k < insert_sorted(s, e).len() ==> (#[trigger] insert_sorted(s, e)[k] == e
                || exists|j: int| 0 <= j < s.len() && insert_sorted(s, e)[k] == s[j]),
        id_in(insert_sorted(s, e), e.command_id),
        forall|c: Seq<char>|
            #[trigger] id_in(insert_sorted(s, e), c) ==> id_in(s, c) || c == e.command_id,
        hist_unique(s) && !id_in(s, e.command_id) ==> hist_unique(insert_sorted(s, e)),
    decreases s.len(),
{
    let r = insert_sorted(s, e);
    if s.len() == 0 || s.last().timestamp <= e.timestamp {
        assert(r == s.push(e));
        assert(r[s.len() as int] == e);
        assert forall|k: int| 0 <= k < r.len() implies (#[trigger] r[k] == e || exists|j: int|
            0 <= j < s.len() && r[k] == s[j]) by {
            if k < s.len() {
                assert(r[k] == s[k]);
            }
        }
        assert forall|c: Seq<char>| #[trigger] id_in(r, c) implies id_in(s, c) || c
            == e.command_id by {
            let k = choose|k: int| 0 <= k < r.len() && (#[trigger] r[k]).command_id == c;
            if k < s.len() {
                assert(s[k].command_id == c);
            }
        }
        if hist_unique(s) && !id_in(s, e.command_id) {
            assert forall|i: int, j: int| 0 <= i < j < r.len() implies (
            #[trigger] r[i]).command_id != (#[trigger] r[j]).command_id by {
                if j == s.len() {
                    assert(r[i] == s[i]);
                    assert(!(s[i].command_id == e.command_id));
                } else {
                    assert(r[i] == s[i] && r[j] == s[j]);
                }
            }
        }
    } else {
        let s0 = s.drop_last();
        assert(hist_sorted(s0)) by {
            assert(forall|i: int, j: int|
                0 <= i < j < s0.len() ==> s0[i] == s[i] && s0[j] == s[j]);
        }
        lemma_insert_sorted(s0, e);
        let r0 = insert_sorted(s0, e);
        assert(r =~= r0.push(s.last()));
        assert forall|k: int| 0 <= k < r0.len() implies (#[trigger] r0[k]).timestamp
            <= s.last().timestamp by {
            if r0[k] == e {
            } else {
                let j = choose|j: int| 0 <= j < s0.len() && r0[k] == s0[j];
                assert(s0[j] == s[j]);
            }
        }
        assert forall|k: int| 0 <= k < r.len() implies (#[trigger] r[k] == e || exists|j: int|
            0 <= j < s.len() && r[k] == s[j]) by {
            if k < r0.len() {
                assert(r[k] == r0[k]);
                if r0[k] != e {
                    let j = choose|j: int| 0 <= j < s0.len() && r0[k] == s0[j];
                    assert(r[k] == s[j]);
                }
            } else {
                assert(r[k] == s[s.len() - 1]);
            }
        }
        assert(id_in(r, e.command_id)) by {
            let k = choose|k: int| 0 <= k < r0.len() && (#[trigger] r0[k]).command_id
                == e.command_id;
            assert(r[k].command_id == e.command_id);
        }
        assert forall|c: Seq<char>| #[trigger] id_in(r, c) implies id_in(s, c) || c
            == e.command_id by {
            let k = choose|k: int| 0 <= k < r.len() && (#[trigger] r[k]).command_id == c;
            if k < r0.len() {
                assert(id_in(r0, c));
                if id_in(s0, c) {
                    let j = choose|j: int| 0 <= j < s0.len() && (#[trigger] s0[j]).command_id == c;
                    assert(s[j].command_id == c);
                }
            } else {
                assert(r[k] == s[s.len() - 1]);
                assert(s[s.len() - 1].command_id == c);
            }
        }
        if hist_unique(s) && !id_in(s, e.command_id) {
            assert(hist_unique(s0)) by {
                assert(forall|i: int, j: int|
                    0 <= i < j < s0.len() ==> s0[i] == s[i] && s0[j] == s[j]);
            }
            assert(!id_in(s0, e.command_id)) by {
                if id_in(s0, e.command_id) {
                    let j = choose|j: int|
                        0 <= j < s0.len() && (#[trigger] s0[j]).command_id == e.command_id;
                    assert(s[j].command_id == e.command_id);
                }
            }
            assert(hist_unique(r0));
            assert forall|i: int, j: int| 0 <= i < j < r.len() implies (
            #[trigger] r[i]).command_id != (#[trigger] r[j]).command_id by {
                if j < r0.len() {
                    assert(r[i] == r0[i] && r[j] == r0[j]);
                } else {
                    assert(r[j] == s[s.len() - 1]);
                    assert(r[i] == r0[i]);
                    assert(id_in(r0, r0[i].command_id));
                    if r0[i] == e {
                        assert(!(s[s.len() - 1].command_id == e.command_id));
                    } else {
                        let x = choose|x: int| 0 <= x < s0.len() && r0[i] == s0[x];
                        assert(s0[x] == s[x]);
                        assert(s[x].command_id != s[s.len() - 1].command_id);
                    }
                }
            }
        }
    }
}

proof fn lemma_strip_absent(s: Seq<HistoryEntryView>, id: Seq<char>)
    requires
        forall|k: int| 0 <= k < s.len() ==> (#[trigger] s[k]).command_id != id,
    ensures
        strip_id(s, id) == s,
    decreases s.len(),
{
    if s.len() > 0 {
        lemma_strip_absent(s.drop_first(), id);
        assert(strip_id(s, id) =~= s);
    }
}

proof fn lemma_strip_single(s: Seq<HistoryEntryView>, id: Seq<char>, i: int)
    requires
        0 <= i < s.len(),
        s[i].command_id == id,
        forall|k: int| 0 <= k < s.len() && k != i ==> (#[trigger] s[k]).command_id != id,
    ensures
        strip_id(s, id) == s.take(i) + s.skip(i + 1),
    decreases s.len(),
{
    let rest = s.drop_first();
    if i == 0 {
        lemma_strip_absent(rest, id);
        assert(strip_id(s, id) =~= s.take(0) + s.skip(1));
    } else {
        lemma_strip_single(rest, id, i - 1);
        assert(rest.take(i - 1) =~= s.take(i).drop_first());
        assert(rest.skip(i) =~= s.skip(i + 1));
        assert(strip_id(s, id) =~= s.take(i) + s.skip(i + 1));
    }
}

/// Aggregate statistics over the current history, computed by a full scan.
#[derive(Debug, Clone, PartialEq, Eq)]
pub struct CommandStats {
    pub total_commands: usize,
    pub successful_commands: usize,
    pub failed_commands: usize,
    pub lock_commands: usize,
    pub logout_commands: usize,
    pub ping_commands: usize,
    pub status_commands: usize,
    /// One pair per issuer seen, with how many commands it submitted.
    pub user_counts: Vec<(String, usize)>,
}

/// Orchestrates one command at a time: authorization, rate limiting,
/// dispatch, audit logging, history and the response.
pub struct CommandExecutor {
    security: SecurityManager,
    storage: SecureStorage,
    command_history: Vec<CommandHistoryEntry>,
    rate_limiter: RateLimiter,
    local_user: Option<String>,
}

impl CommandExecutor {
    /// The recorded history, oldest outcome first.
    pub closed spec fn history(&self) -> Seq<HistoryEntryView> {
        hviews_of(self.command_history@)
    }

    /// The audit store this executor writes to.
    pub closed spec fn storage_spec(&self) -> SecureStorage {
        self.storage
    }

    /// The crypto service used for signature checks.
    pub closed spec fn security_spec(&self) -> SecurityManager {
        self.security
    }

    /// The admission record of one identity.
    pub closed spec fn rate_times_of(&self, user: Seq<char>) -> Seq<u64> {
        self.rate_limiter.times_of(user)
    }

    pub closed spec fn rate_max(&self) -> u32 {
        self.rate_limiter.max_commands_spec()
    }

    pub closed spec fn rate_window(&self) -> u64 {
        self.rate_limiter.window_spec()
    }

    /// The machine user recorded on audit entries.
    pub closed spec fn local_user_spec(&self) -> Option<Seq<char>> {
        match self.local_user {
            Some(u) => Some(u@),
            None => None,
        }
    }

    pub closed spec fn wf(&self) -> bool {
        &&& self.storage.wf()
        &&& self.rate_limiter.wf()
        &&& self.security.wf()
        &&& hist_sorted(self.history())
        &&& hist_unique(self.history())
        &&& self.history().len() <= history_capacity()
    }

    /// A fresh executor around the given crypto service and audit store,
    /// with an empty history and a budget of ten commands a minute per
    /// identity. `local_user` is the machine user stamped on audit
    /// entries, handed in once by whoever knows the environment.
    pub fn new(
        security: SecurityManager,
        storage: SecureStorage,
        local_user: Option<String>,
    ) -> (r: CommandExecutor)
        requires
            security.wf(),
            storage.wf(),
        ensures
            r.wf(),
            r.history() == Seq::<HistoryEntryView>::empty(),
            r.storage_spec() == storage,
            r.security_spec() == security,
            r.local_user_spec() == (match local_user {
                Some(u) => Some(u@),
                None => None::<Seq<char>>,
            }),
            r.rate_max() == 10,
            r.rate_window() == 60,
            forall|u: Seq<char>| #[trigger] r.rate_times_of(u) == Seq::<u64>::empty(),
    {
        let r = CommandExecutor {
            security,
            storage,
            command_history: Vec::new(),
            rate_limiter: RateLimiter::new(10, 60),
            local_user,
        };
        proof {
            assert(r.history() =~= Seq::<HistoryEntryView>::empty());
        }
        r
    }

    /// Records one outcome, overwriting any entry with the same command id
    /// rather than duplicating it, and evicting the oldest entries in a
    /// batch once the capacity is crossed.
    #[verifier::spinoff_prover]
    #[verifier::rlimit(100)]
    fn record_history(&mut self, entry: CommandHistoryEntry)
        requires
            hist_sorted(old(self).history()),
            hist_unique(old(self).history()),
        ensures
            final(self).history() == record_spec(old(self).history(), entry@),
            hist_sorted(final(self).history()),
            hist_unique(final(self).history()),
            final(self).history().len() <= history_capacity(),
            final(self).storage == old(self).storage,
            final(self).security == old(self).security,
            final(self).rate_limiter == old(self).rate_limiter,
            final(self).local_user == old(self).local_user,
    {
        let ghost orig = self.history();
        let ghost ev = entry@;
        let found = find_by_id(&self.command_history, entry.command_id.as_str());
        match found {
            Some(idx) => {
                proof {
                    lemma_strip_single(orig, ev.command_id, idx as int);
                }
                self.command_history.remove(idx);
                proof {
                    assert(hviews_of(self.command_history@) =~= orig.take(idx as int) + orig.skip(
                        idx + 1,
                    ));
                }
            },
            None => {
                proof {
                    lemma_strip_absent(orig, ev.command_id);
                }
            },
        }
        proof {
            assert(self.history() == strip_id(orig, ev.command_id));
        }
        let ghost v = self.history();
        let pos = insert_pos(&self.command_history, entry.timestamp);
        proof {
            lemma_insert_at(v, ev, pos as int);
        }
        self.command_history.insert(pos, entry);
        proof {
            assert(hviews_of(self.command_history@) =~= v.take(pos as int) + seq![ev] + v.skip(
                pos as int,
            ));
            assert(self.history() == insert_sorted(v, ev));
            lemma_record_props(orig, ev);
        }
        self.trim_history();
        proof {
            assert(self.history() == record_spec(orig, ev));
        }
    }

    /// Evicts oldest history entries until the history fits its capacity.
    fn trim_history(&mut self)
        requires
            hist_sorted(old(self).history()),
            hist_unique(old(self).history()),
        ensures
            final(self).history() == hist_newest(old(self).history(), history_capacity()),
            hist_sorted(final(self).history()),
            hist_unique(final(self).history()),
            final(self).history().len() <= history_capacity(),
            final(self).storage == old(self).storage,
            final(self).security == old(self).security,
            final(self).rate_limiter == old(self).rate_limiter,
            final(self).local_user == old(self).local_user,
    {
        let ghost grown = self.history();
        let ghost popped: int = 0;
        while self.command_history.len() > 1000
            invariant
                self.storage == old(self).storage,
                self.security == old(self).security,
                self.rate_limiter == old(self).rate_limiter,
                self.local_user == old(self).local_user,
                0 <= popped <= grown.len(),
                self.history() =~= grown.skip(popped),
                self.command_history@.len() == grown.len() - popped,
                popped > 0 ==> grown.len() - popped >= 1000,
            decreases self.command_history@.len(),
        {
            let ghost pre = self.command_history@;
            self.command_history.remove(0);
            proof {
                popped = popped + 1;
                assert(hviews_of(self.command_history@) =~= hviews_of(pre).drop_first());
                assert(hviews_of(pre).drop_first() =~= grown.skip(popped));
            }
        }
        proof {
            if popped == 0 {
                assert(grown.skip(0) =~= grown);
            } else {
                assert(popped == grown.len() - 1000);
            }
            assert(self.history() =~= hist_newest(grown, history_capacity()));
            assert forall|a: int, b: int| 0 <= a < b < self.history().len() implies
                self.history()[a].timestamp <= self.history()[b].timestamp && self.history()[
                a].command_id != self.history()[b].command_id by {
                assert(self.history()[a] == grown[a + popped]);
                assert(self.history()[b] == grown[b + popped]);
            }
        }
    }
}

/// The position of the first entry keyed by `id`, if any.
fn find_by_id(history: &Vec<CommandHistoryEntry>, id: &str) -> (r: Option<usize>)
    ensures
        match r {
            Some(i) => {
                &&& i < history@.len()
                &&& hviews_of(history@)[i as int].command_id == id@
                &&& forall|k: int|
                    0 <= k < i ==> (#[trigger] hviews_of(history@)[k]).command_id != id@
            },
            None => forall|k: int|
                0 <= k < history@.len() ==> (#[trigger] hviews_of(history@)[k]).command_id != id@,
        },
{
    let n = history.len();
    let mut i: usize = 0;
    while i < n
        invariant
            i <= n,
            n == history@.len(),
            forall|k: int| 0 <= k < i ==> (#[trigger] hviews_of(history@)[k]).command_id != id@,
        decreases n - i,
    {
        if str_eq(history[i].command_id.as_str(), id) {
            return Some(i);
        }
        i += 1;
    }
    None
}

/// The position after every entry whose timestamp does not exceed `ts`.
fn insert_pos(history: &Vec<CommandHistoryEntry>, ts: i64) -> (r: usize)
    ensures
        r <= history@.len(),
        r > 0 ==> hviews_of(history@)[r - 1].timestamp <= ts as int,
        forall|k: int|
            r <= k < history@.len() ==> (#[trigger] hviews_of(history@)[k]).timestamp > ts as int,
{
    let mut pos = history.len();
    while pos > 0 && history[pos - 1].timestamp > ts
        invariant
            pos <= history@.len(),
            forall|k: int|
                pos <= k < history@.len() ==> (#[trigger] hviews_of(history@)[k]).timestamp
                    > ts as int,
        decreases pos,
    {
        pos -= 1;
    }
    pos
}

/// Law: resubmitting a command id that the history already holds
/// overwrites the entry rather than duplicating it — the history keeps
/// exactly one entry under that id and its length does not change.
pub proof fn lemma_record_overwrites(s: Seq<HistoryEntryView>, e: HistoryEntryView)
    requires
        hist_sorted(s),
        hist_unique(s),
        s.len() <= history_capacity(),
        id_in(s, e.command_id),
    ensures
        record_spec(s, e).len() == s.len(),
        id_in(record_spec(s, e), e.command_id),
        hist_unique(record_spec(s, e)),
{
    let i = choose|i: int| 0 <= i < s.len() && (#[trigger] s[i]).command_id == e.command_id;
    assert forall|k: int| 0 <= k < s.len() && k != i implies (#[trigger] s[k]).command_id
        != e.command_id by {
        if k < i {
            assert(s[k].command_id != s[i].command_id);
        } else {
            assert(s[i].command_id != s[k].command_id);
        }
    }
    lemma_strip_single(s, e.command_id, i);
    let st = strip_id(s, e.command_id);
    assert(st.len() == s.len() - 1);
    lemma_strip_id(s, e.command_id);
    assert(!id_in(st, e.command_id)) by {
        if id_in(st, e.command_id) {
            let k = choose|k: int| 0 <= k < st.len() && (#[trigger] st[k]).command_id
                == e.command_id;
        }
    }
    lemma_insert_sorted(st, e);
    assert(insert_sorted(st, e).len() == s.len());
    assert(record_spec(s, e) == insert_sorted(st, e));
}

/// Inserting into the stripped, still-sorted history keeps it sorted and
/// id-unique.
proof fn lemma_record_props(s: Seq<HistoryEntryView>, e: HistoryEntryView)
    requires
        hist_sorted(s),
        hist_unique(s),
    ensures
        hist_sorted(insert_sorted(strip_id(s, e.command_id), e)),
        hist_unique(insert_sorted(strip_id(s, e.command_id), e)),
{
    lemma_strip_id(s, e.command_id);
    let st = strip_id(s, e.command_id);
    assert(!id_in(st, e.command_id)) by {
        if id_in(st, e.command_id) {
            let k = choose|k: int|
                0 <= k < st.len() && (#[trigger] st[k]).command_id == e.command_id;
        }
    }
    lemma_insert_sorted(st, e);
}

proof fn lemma_insert_at(v: Seq<HistoryEntryView>, e: HistoryEntryView, pos: int)
    requires
        0 <= pos <= v.len(),
        pos > 0 ==> v[pos - 1].timestamp <= e.timestamp,
        forall|k: int| pos <= k < v.len() ==> (#[trigger] v[k]).timestamp > e.timestamp,
    ensures
        insert_sorted(v, e) == v.take(pos) + seq![e] + v.skip(pos),
    decreases v.len(),
{
    if pos == v.len() {
        assert(insert_sorted(v, e) =~= v.take(pos) + seq![e] + v.skip(pos));
    } else {
        assert(v.last().timestamp > e.timestamp);
        let v0 = v.drop_last();
        assert(pos <= v0.len());
        lemma_insert_at(v0, e, pos);
        assert(v0.take(pos) =~= v.take(pos));
        assert(insert_sorted(v, e) =~= insert_sorted(v0, e).push(v.last()));
        assert((v0.take(pos) + seq![e] + v0.skip(pos)).push(v.last()) =~= v.take(pos) + seq![e]
            + v.skip(pos));
    }
}

/// What a submission yields: either the finished response, or the platform
/// action that must run before the outcome can be recorded.
#[derive(Debug)]
pub enum CommandStep {
    Finished(CommandResponse),
    AwaitingAction(CommandType),
}

/// One response, compared field by field.
pub open spec fn response_is(
    r: CommandResponse,
    id: Seq<char>,
    success: bool,
    message: Seq<char>,
    now: int,
) -> bool {
    &&& r.command_id@ == id
    &&& r.success == success
    &&& r.message@ == message
    &&& r.timestamp as int == now
}

/// The JSON text recorded as audit details for one command outcome.
pub open spec fn command_log_details(
    id: Seq<char>,
    kind: CommandType,
    user: Seq<char>,
    now: int,
    success: bool,
    details: Seq<char>,
) -> Seq<char> {
    "{\"command_id\":\""@ + json_escaped(id) + "\",\"command_type\":\""@ + kind_name(kind)
        + "\",\"authorized_user\":\""@ + json_escaped(user) + "\",\"timestamp\":"@ + dec_int(now)
        + ",\"success\":"@ + bool_name(success) + ",\"details\":\""@ + json_escaped(details)
        + "\",\"ip_address\":\"remote\",\"user_agent\":\"discord-bot\"}"@
}

/// The JSON spelling of a boolean.
pub open spec fn bool_name(b: bool) -> Seq<char> {
    if b {
        "true"@
    } else {
        "false"@
    }
}

/// The history entry recorded for one outcome.
pub open spec fn history_entry_of(
    id: Seq<char>,
    kind: CommandType,
    user: Seq<char>,
    now: int,
    success: bool,
    details: Seq<char>,
) -> HistoryEntryView {
    HistoryEntryView {
        command_id: id,
        command_type: kind,
        authorized_user: user,
        timestamp: now,
        success,
        details,
    }
}

/// The audit entry recorded for one outcome.
pub open spec fn audit_entry_of(
    local_user: Option<Seq<char>>,
    now: int,
    details_text: Seq<char>,
) -> AuditEntryView {
    AuditEntryView {
        timestamp: now,
        event_type: "command_executed"@,
        user: local_user,
        details: details_text,
        severity: severity_of("command_executed"@),
        source: "agent"@,
    }
}

/// How the audit store moves when one entry is recorded (or skipped with
/// logging disabled); everything else about the store stays put.
pub open spec fn audit_after(
    old_st: SecureStorage,
    new_st: SecureStorage,
    ev: AuditEntryView,
) -> bool {
    &&& (if old_st.audit_enabled() {
        new_st.entries() == bounded_append(old_st.entries(), ev, old_st.capacity())
    } else {
        new_st.entries() == old_st.entries()
    })
    &&& new_st.capacity() == old_st.capacity()
    &&& new_st.audit_enabled() == old_st.audit_enabled()
    &&& new_st.security_spec() == old_st.security_spec()
}

fn bool_str(b: bool) -> (r: &'static str)
    ensures
        r@ == bool_name(b),
{
    if b {
        "true"
    } else {
        "false"
    }
}

fn clone_opt_string(u: &Option<String>) -> (r: Option<String>)
    ensures
        (match r {
            Some(s) => match u {
                Some(t) => s@ == t@,
                None => false,
            },
            None => u is None,
        }),
{
    match u {
        Some(s) => Some(s.clone()),
        None => None,
    }
}

fn build_log_details(command: &DiscordCommand, now: i64, success: bool, details: &str) -> (r:
    String)
    ensures
        r@ == command_log_details(
            command.command_id@,
            command.command,
            command.authorized_user@,
            now as int,
            success,
            details@,
        ),
{
    let mut out = "{\"command_id\":\"".to_owned();
    append_json_escaped(&mut out, command.command_id.as_str());
    out.append("\",\"command_type\":\"");
    out.append(command.command.label());
    out.append("\",\"authorized_user\":\"");
    append_json_escaped(&mut out, command.authorized_user.as_str());
    out.append("\",\"timestamp\":");
    append_i64_dec(&mut out, now);
    out.append(",\"success\":");
    out.append(bool_str(success));
    out.append(",\"details\":\"");
    append_json_escaped(&mut out, details);
    out.append("\",\"ip_address\":\"remote\",\"user_agent\":\"discord-bot\"}");
    proof {
        assert(out@ =~= command_log_details(
            command.command_id@,
            command.command,
            command.authorized_user@,
            now as int,
            success,
            details@,
        ));
    }
    out
}

impl CommandExecutor {
    /// What the executor's validity guarantees of its history: entries
    /// stay ordered by timestamp, no two share a command id, and the
    /// count never exceeds the retention capacity. Stated here so callers
    /// can use these facts without seeing inside the invariant.
    pub proof fn lemma_history_invariants(&self)
        requires
            self.wf(),
        ensures
            hist_sorted(self.history()),
            hist_unique(self.history()),
            self.history().len() <= history_capacity(),
    {
    }

    /// Records the outcome of a command: one `command_executed` audit
    /// entry (severity per the fixed mapping), one history entry keyed by
    /// the command id — overwriting, never duplicating — and exactly one
    /// response carrying the outcome.
    pub fn complete_command(
        &mut self,
        command: &DiscordCommand,
        now: i64,
        success: bool,
        details: String,
    ) -> (r: CommandResponse)
        requires
            old(self).wf(),
        ensures
            final(self).wf(),
            response_is(r, command.command_id@, success, details@, now as int),
            final(self).history() == record_spec(
                old(self).history(),
                history_entry_of(
                    command.command_id@,
                    command.command,
                    command.authorized_user@,
                    now as int,
                    success,
                    details@,
                ),
            ),
            audit_after(
                old(self).storage_spec(),
                final(self).storage_spec(),
                audit_entry_of(
                    old(self).local_user_spec(),
                    now as int,
                    command_log_details(
                        command.command_id@,
                        command.command,
                        command.authorized_user@,
                        now as int,
                        success,
                        details@,
                    ),
                ),
            ),
            final(self).security_spec() == old(self).security_spec(),
            final(self).local_user_spec() == old(self).local_user_spec(),
            forall|u: Seq<char>| #[trigger] final(self).rate_times_of(u) == old(self).rate_times_of(u),
            final(self).rate_max() == old(self).rate_max(),
            final(self).rate_window() == old(self).rate_window(),
    {
        let details_json = build_log_details(command, now, success, details.as_str());
        let user = clone_opt_string(&self.local_user);
        self.storage.log_audit_event("command_executed", details_json.as_str(), user, now);
        let entry = CommandHistoryEntry {
            command_id: command.command_id.clone(),
            command_type: command.command,
            authorized_user: command.authorized_user.clone(),
            timestamp: now,
            success,
            details: details.clone(),
        };
        self.record_history(entry);
        CommandResponse {
            command_id: command.command_id.clone(),
            success,
            message: details,
            timestamp: now,
        }
    }

    /// Runs one command through the state machine: authorization first —
    /// denied commands do not consume rate quota — then the per-identity
    /// rate check, then dispatch. A ping is answered on the spot; kinds
    /// that need a platform side effect are handed back as a pending
    /// action, to be recorded with `complete_command` once performed.
    pub fn execute_command(&mut self, command: &DiscordCommand, config: &Config, now: i64) -> (r:
        CommandStep)
        requires
            old(self).wf(),
            0 <= now,
        ensures
            final(self).wf(),
            final(self).security_spec() == old(self).security_spec(),
            final(self).local_user_spec() == old(self).local_user_spec(),
            final(self).rate_max() == old(self).rate_max(),
            final(self).rate_window() == old(self).rate_window(),
            ({
                let decision = decision_spec(
                    command.command_id@,
                    command.authorized_user@,
                    command.timestamp as int,
                    command.signature@,
                    *config,
                    now as int,
                );
                let pruned = prune(
                    old(self).rate_times_of(command.authorized_user@),
                    now as u64,
                    old(self).rate_window(),
                );
                let admitted = pruned.len() < old(self).rate_max();
                match decision {
                    AuthDecision::Denied(reason) => {
                        &&& (r matches CommandStep::Finished(resp) && response_is(
                            resp,
                            command.command_id@,
                            false,
                            reason.message_spec(),
                            now as int,
                        ))
                        &&& self_records(
                            *old(self),
                            *final(self),
                            *command,
                            now as int,
                            false,
                            reason.message_spec(),
                        )
                        &&& forall|u: Seq<char>| #[trigger] final(self).rate_times_of(u) == old(self).rate_times_of(u)
                    },
                    AuthDecision::Authorized => {
                        &&& final(self).rate_times_of(command.authorized_user@) == (if admitted {
                            pruned.push(now as u64)
                        } else {
                            pruned
                        })
                        &&& (forall|u: Seq<char>|
                            u != command.authorized_user@ ==> #[trigger] final(self).rate_times_of(u) == old(self).rate_times_of(u))
                        &&& (if !admitted {
                            &&& (r matches CommandStep::Finished(resp) && response_is(
                                resp,
                                command.command_id@,
                                false,
                                "Rate limit exceeded"@,
                                now as int,
                            ))
                            &&& self_records(
                                *old(self),
                                *final(self),
                                *command,
                                now as int,
                                false,
                                "Rate limit exceeded"@,
                            )
                        } else if command.command == CommandType::Ping {
                            &&& (r matches CommandStep::Finished(resp) && response_is(
                                resp,
                                command.command_id@,
                                true,
                                "Pong! Device is responsive"@,
                                now as int,
                            ))
                            &&& self_records(
                                *old(self),
                                *final(self),
                                *command,
                                now as int,
                                true,
                                "Pong! Device is responsive"@,
                            )
                        } else {
                            &&& r == CommandStep::AwaitingAction(command.command)
                            &&& final(self).history() == old(self).history()
                            &&& final(self).storage_spec().entries() == old(self).storage_spec().entries()
                        })
                    },
                }
            }),
    {
        let authorizer = CommandAuthorizer::new();
        let decision = authorizer.validate_command(&self.security, command, config, now);
        match decision {
            AuthDecision::Denied(reason) => {
                let resp = self.complete_command(command, now, false, reason.message().to_owned());
                CommandStep::Finished(resp)
            },
            AuthDecision::Authorized => {
                let admitted = self.rate_limiter.can_execute(
                    command.authorized_user.as_str(),
                    now as u64,
                );
                if !admitted {
                    let resp = self.complete_command(
                        command,
                        now,
                        false,
                        "Rate limit exceeded".to_owned(),
                    );
                    CommandStep::Finished(resp)
                } else {
                    match command.command {
                        CommandType::Ping => {
                            let resp = self.complete_command(
                                command,
                                now,
                                true,
                                "Pong! Device is responsive".to_owned(),
                            );
                            CommandStep::Finished(resp)
                        },
                        _ => CommandStep::AwaitingAction(command.command),
                    }
                }
            },
        }
    }

    /// Whether a command's kind is permitted for this issuer under current
    /// policy: remote commands enabled, issuer on the allow-list, and the
    /// per-kind refinement.
    pub fn validate_command_permissions(&self, command: &DiscordCommand, config: &Config) -> (r:
        bool)
        ensures
            r == (config.user_consent.remote_commands_enabled && crate::protocol::is_allowed_user(
                config.discord.allowed_users@,
                command.authorized_user@,
            ) && kind_permitted_spec(command.command, *config)),
    {
        if !config.user_consent.remote_commands_enabled {
            return false;
        }
        if !crate::protocol::contains_user(
            &config.discord.allowed_users,
            command.authorized_user.as_str(),
        ) {
            return false;
        }
        let authorizer = CommandAuthorizer::new();
        authorizer.kind_permitted(command.command, config)
    }

    /// Returns the recorded outcomes, newest first, optionally capped.
    pub fn get_command_history(&self, limit: Option<usize>) -> (r: Vec<CommandHistoryEntry>)
        ensures
            hviews_of(r@) == hist_limit(rev_hist(self.history()), limit),
    {
        let n = self.command_history.len();
        let mut out: Vec<CommandHistoryEntry> = Vec::new();
        let mut j: usize = 0;
        while j < n
            invariant
                j <= n,
                n == self.command_history@.len(),
                hviews_of(out@) =~= rev_hist(self.history().skip(n - j)),
            decreases n - j,
        {
            let idx = n - 1 - j;
            let ghost pre = out@;
            out.push(clone_history_entry(&self.command_history[idx]));
            proof {
                let s = self.history();
                assert(s.skip(n - j - 1).drop_first() =~= s.skip(n - j));
                assert(s.skip(n - j - 1)[0] == s[n - j - 1]);
                assert(hviews_of(out@) =~= hviews_of(pre).push(s[idx as int]));
                assert(hviews_of(out@) =~= rev_hist(s.skip(n - (j + 1))));
            }
            j += 1;
        }
        proof {
            assert(self.history().skip(0) =~= self.history());
        }
        if let Some(l) = limit {
            if out.len() > l {
                out.truncate(l);
            }
        }
        proof {
            assert(hviews_of(out@) =~= hist_limit(rev_hist(self.history()), limit));
        }
        out
    }

    /// Forgets every recorded outcome.
    pub fn clear_command_history(&mut self)
        requires
            old(self).wf(),
        ensures
            final(self).wf(),
            final(self).history() == Seq::<HistoryEntryView>::empty(),
            final(self).storage_spec() == old(self).storage_spec(),
            final(self).security_spec() == old(self).security_spec(),
            final(self).local_user_spec() == old(self).local_user_spec(),
            forall|u: Seq<char>| #[trigger] final(self).rate_times_of(u) == old(self).rate_times_of(u),
    {
        self.command_history.clear();
        proof {
            assert(final(self).history() =~= Seq::<HistoryEntryView>::empty());
        }
    }

    /// Read access to the audit store, for querying, exporting and
    /// snapshotting.
    pub fn audit_storage(&self) -> (r: &SecureStorage)
        ensures
            *r == self.storage_spec(),
    {
        &self.storage
    }

    /// Empties the audit log; wiping the persisted blob stays with the
    /// caller.
    pub fn clear_audit_logs(&mut self)
        requires
            old(self).wf(),
        ensures
            final(self).wf(),
            final(self).storage_spec().entries() == Seq::<AuditEntryView>::empty(),
            final(self).storage_spec().capacity() == old(self).storage_spec().capacity(),
            final(self).storage_spec().audit_enabled() == old(self).storage_spec().audit_enabled(),
            final(self).storage_spec().security_spec() == old(self).storage_spec().security_spec(),
            final(self).history() == old(self).history(),
            final(self).security_spec() == old(self).security_spec(),
    {
        self.storage.clear_audit_logs();
    }
}

/// How recording one outcome moves the executor: the history gains (or
/// overwrites) the outcome's entry and the audit store gains its
/// `command_executed` record.
pub open spec fn self_records(
    pre: CommandExecutor,
    post: CommandExecutor,
    command: DiscordCommand,
    now: int,
    success: bool,
    details: Seq<char>,
) -> bool {
    &&& post.history() == record_spec(
        pre.history(),
        history_entry_of(
            command.command_id@,
            command.command,
            command.authorized_user@,
            now,
            success,
            details,
        ),
    )
    &&& audit_after(
        pre.storage_spec(),
        post.storage_spec(),
        audit_entry_of(
            pre.local_user_spec(),
            now,
            command_log_details(
                command.command_id@,
                command.command,
                command.authorized_user@,
                now,
                success,
                details,
            ),
        ),
    )
}

/// A field-for-field copy.
fn clone_history_entry(e: &CommandHistoryEntry) -> (r: CommandHistoryEntry)
    ensures
        r@ == e@,
{
    CommandHistoryEntry {
        command_id: e.command_id.clone(),
        command_type: e.command_type,
        authorized_user: e.authorized_user.clone(),
        timestamp: e.timestamp,
        success: e.success,
        details: e.details.clone(),
    }
}

proof fn lemma_count_user_absent(s: Seq<HistoryEntryView>, user: Seq<char>)
    requires
        forall|j: int| 0 <= j < s.len() ==> (#[trigger] s[j]).authorized_user != user,
    ensures
        count_user(s, user) == 0,
    decreases s.len(),
{
    if s.len() > 0 {
        assert(forall|j: int|
            0 <= j < s.drop_last().len() ==> #[trigger] s.drop_last()[j] == s[j]);
        lemma_count_user_absent(s.drop_last(), user);
    }
}

impl CommandExecutor {
    /// Total, succeeded and failed counts, a breakdown by kind, and a
    /// breakdown by issuer, all from one scan of the current history.
    #[verifier::spinoff_prover]
    #[verifier::rlimit(100)]
    pub fn get_command_stats(&self) -> (r: CommandStats)
        ensures
            r.total_commands == self.history().len(),
            r.successful_commands == count_success(self.history()),
            r.failed_commands == self.history().len() - count_success(self.history()),
            r.lock_commands == count_kind(self.history(), CommandType::Lock),
            r.logout_commands == count_kind(self.history(), CommandType::Logout),
            r.ping_commands == count_kind(self.history(), CommandType::Ping),
            r.status_commands == count_kind(self.history(), CommandType::Status),
            forall|a: int, b: int|
                0 <= a < b < r.user_counts@.len() ==> (#[trigger] r.user_counts@[a]).0@ != (
                #[trigger] r.user_counts@[b]).0@,
            forall|k: int|
                0 <= k < r.user_counts@.len() ==> (#[trigger] r.user_counts@[k]).1 == count_user(
                    self.history(),
                    r.user_counts@[k].0@,
                ),
            forall|j: int|
                0 <= j < self.history().len() ==> has_user_key(
                    r.user_counts@,
                    (#[trigger] self.history()[j]).authorized_user,
                ),
    {
        let h = &self.command_history;
        let n = h.len();
        let ghost hv = self.history();
        let mut successful: usize = 0;
        let mut lock_count: usize = 0;
        let mut logout_count: usize = 0;
        let mut ping_count: usize = 0;
        let mut status_count: usize = 0;
        let mut i: usize = 0;
        while i < n
            invariant
                i <= n,
                n == h@.len(),
                hv == hviews_of(h@),
                successful == count_success(hv.take(i as int)),
                lock_count == count_kind(hv.take(i as int), CommandType::Lock),
                logout_count == count_kind(hv.take(i as int), CommandType::Logout),
                ping_count == count_kind(hv.take(i as int), CommandType::Ping),
                status_count == count_kind(hv.take(i as int), CommandType::Status),
            decreases n - i,
        {
            proof {
                assert(hv.take(i + 1).drop_last() =~= hv.take(i as int));
                assert(hv.take(i + 1).last() == hv[i as int]);
                lemma_count_success_le(hv.take(i as int));
                lemma_count_kind_le(hv.take(i as int), CommandType::Lock);
                lemma_count_kind_le(hv.take(i as int), CommandType::Logout);
                lemma_count_kind_le(hv.take(i as int), CommandType::Ping);
                lemma_count_kind_le(hv.take(i as int), CommandType::Status);
            }
            if h[i].success {
                successful += 1;
            }
            match h[i].command_type {
                CommandType::Lock => {
                    lock_count += 1;
                },
                CommandType::Logout => {
                    logout_count += 1;
                },
                CommandType::Ping => {
                    ping_count += 1;
                },
                CommandType::Status => {
                    status_count += 1;
                },
            }
            i += 1;
        }
        let user_counts = user_breakdown(h);
        proof {
            assert(hv.take(n as int) =~= hv);
            lemma_count_success_le(hv);
        }
        CommandStats {
            total_commands: n,
            successful_commands: successful,
            failed_commands: n - successful,
            lock_commands: lock_count,
            logout_commands: logout_count,
            ping_commands: ping_count,
            status_commands: status_count,
            user_counts,
        }
    }
}


/// Whether the breakdown already has a pair for this issuer.
pub open spec fn has_user_key(counts: Seq<(String, usize)>, user: Seq<char>) -> bool {
    exists|k: int| 0 <= k < counts.len() && (#[trigger] counts[k]).0@ == user
}

/// Whether this issuer appears among the first `i` history entries.
pub open spec fn user_in_prefix(hv: Seq<HistoryEntryView>, i: int, user: Seq<char>) -> bool {
    exists|j: int| 0 <= j < i && (#[trigger] hv[j]).authorized_user == user
}

/// The position of the issuer's pair in the accumulating breakdown.
fn find_user_key(counts: &Vec<(String, usize)>, user: &str) -> (r: Option<usize>)
    ensures
        match r {
            Some(k) => k < counts@.len() && counts@[k as int].0@ == user@,
            None => forall|k: int| 0 <= k < counts@.len() ==> (#[trigger] counts@[k]).0@ != user@,
        },
{
    let n = counts.len();
    let mut i: usize = 0;
    while i < n
        invariant
            i <= n,
            n == counts@.len(),
            forall|k: int| 0 <= k < i ==> (#[trigger] counts@[k]).0@ != user@,
        decreases n - i,
    {
        if str_eq(counts[i].0.as_str(), user) {
            return Some(i);
        }
        i += 1;
    }
    None
}

/// The per-issuer breakdown of a history: one pair per issuer seen, each
/// with its exact submission count.
#[verifier::spinoff_prover]
#[verifier::rlimit(100)]
fn user_breakdown(h: &Vec<CommandHistoryEntry>) -> (r: Vec<(String, usize)>)
    ensures
        forall|a: int, b: int|
            0 <= a < b < r@.len() ==> (#[trigger] r@[a]).0@ != (#[trigger] r@[b]).0@,
        forall|k: int|
            0 <= k < r@.len() ==> (#[trigger] r@[k]).1 == count_user(
                hviews_of(h@),
                r@[k].0@,
            ),
        forall|j: int|
            0 <= j < hviews_of(h@).len() ==> has_user_key(
                r@,
                (#[trigger] hviews_of(h@)[j]).authorized_user,
            ),
{
    let n = h.len();
    let ghost hv = hviews_of(h@);
    let mut counts: Vec<(String, usize)> = Vec::new();
    let mut i: usize = 0;
    while i < n
        invariant
            i <= n,
            n == h@.len(),
            hv == hviews_of(h@),
            forall|a: int, b: int|
                0 <= a < b < counts@.len() ==> (#[trigger] counts@[a]).0@ != (
                #[trigger] counts@[b]).0@,
            forall|k: int|
                0 <= k < counts@.len() ==> (#[trigger] counts@[k]).1 == count_user(
                    hv.take(i as int),
                    counts@[k].0@,
                ),
            forall|j: int|
                0 <= j < i ==> has_user_key(counts@, (#[trigger] hv[j]).authorized_user),
            forall|k: int|
                0 <= k < counts@.len() ==> user_in_prefix(
                    hv,
                    i as int,
                    (#[trigger] counts@[k]).0@,
                ),
        decreases n - i,
    {
        proof {
            assert(hv[i as int] == h@[i as int]@);
        }
        add_user_count(&mut counts, &h[i].authorized_user, Ghost(hv), i);
        i += 1;
    }
    proof {
        assert(hv.take(n as int) =~= hv);
        assert(hv.len() == n);
        assert forall|k: int| 0 <= k < counts@.len() implies (#[trigger] counts@[k]).1
            == count_user(hv, counts@[k].0@) by {
            assert(counts@[k].1 == count_user(hv.take(n as int), counts@[k].0@));
        }
        assert forall|j: int| 0 <= j < hv.len() implies has_user_key(
            counts@,
            (#[trigger] hv[j]).authorized_user,
        ) by {
            assert(0 <= j < n);
        }
    }
    counts
}

/// Folds one history entry into the per-issuer breakdown, keeping every
/// pair's count exact for the prefix seen so far.
#[verifier::spinoff_prover]
#[verifier::rlimit(100)]
fn add_user_count(
    counts: &mut Vec<(String, usize)>,
    user: &String,
    Ghost(hv): Ghost<Seq<HistoryEntryView>>,
    i: usize,
)
    requires
        i < hv.len(),
        i < usize::MAX,
        hv[i as int].authorized_user == user@,
        forall|a: int, b: int|
            0 <= a < b < old(counts)@.len() ==> (#[trigger] old(counts)@[a]).0@ != (
            #[trigger] old(counts)@[b]).0@,
        forall|k: int|
            0 <= k < old(counts)@.len() ==> (#[trigger] old(counts)@[k]).1 == count_user(
                hv.take(i as int),
                old(counts)@[k].0@,
            ),
        forall|j: int|
            0 <= j < i ==> has_user_key(old(counts)@, (#[trigger] hv[j]).authorized_user),
        forall|k: int|
            0 <= k < old(counts)@.len() ==> user_in_prefix(
                hv,
                i as int,
                (#[trigger] old(counts)@[k]).0@,
            ),
    ensures
        forall|a: int, b: int|
            0 <= a < b < final(counts)@.len() ==> (#[trigger] final(counts)@[a]).0@ != (
            #[trigger] final(counts)@[b]).0@,
        forall|k: int|
            0 <= k < final(counts)@.len() ==> (#[trigger] final(counts)@[k]).1 == count_user(
                hv.take(i + 1),
                final(counts)@[k].0@,
            ),
        forall|j: int|
            0 <= j < i + 1 ==> has_user_key(
                final(counts)@,
                (#[trigger] hv[j]).authorized_user,
            ),
        forall|k: int|
            0 <= k < final(counts)@.len() ==> user_in_prefix(
                hv,
                i + 1,
                (#[trigger] final(counts)@[k]).0@,
            ),
{
    let ghost prefix = hv.take(i as int);
    let ghost ev = hv[i as int];
    let ghost grown = hv.take(i + 1);
    proof {
        assert(grown.drop_last() =~= prefix);
        assert(grown.last() == ev);
        assert(forall|j: int| 0 <= j < i + 1 ==> #[trigger] grown[j] == hv[j]);
        assert(forall|j: int| 0 <= j < i ==> #[trigger] prefix[j] == hv[j]);
    }
    let found = find_user_key(counts, user.as_str());
    let ghost pre = counts@;
    match found {
        Some(k) => {
            proof {
                lemma_count_user_le(prefix, pre[k as int].0@);
            }
            let key = counts[k].0.clone();
            let cnt = counts[k].1;
            counts.set(k, (key, cnt + 1));
            proof {
                assert forall|x: int| 0 <= x < counts@.len() implies (#[trigger] counts@[x]).1
                    == count_user(grown, counts@[x].0@) by {
                    if x != k {
                        assert(counts@[x] == pre[x]);
                        assert(pre[x].0@ != ev.authorized_user);
                    }
                }
                assert forall|j: int| 0 <= j < i + 1 implies exists|x: int|
                    0 <= x < counts@.len() && (#[trigger] counts@[x]).0@ == (#[trigger] hv[
                        j
                    ]).authorized_user by {
                    if j < i {
                        let x0 = choose|x0: int|
                            0 <= x0 < pre.len() && (#[trigger] pre[x0]).0@ == hv[
                                j
                            ].authorized_user;
                        assert(counts@[x0].0@ == pre[x0].0@);
                    } else {
                        assert(counts@[k as int].0@ == hv[i as int].authorized_user);
                    }
                }
                assert forall|x: int| 0 <= x < counts@.len() implies exists|j: int|
                    0 <= j < i + 1 && (#[trigger] counts@[x]).0@ == hv[j].authorized_user by {
                    let j0 = choose|j0: int|
                        0 <= j0 < i && (#[trigger] pre[x]).0@ == hv[j0].authorized_user;
                    if x == k {
                        assert(counts@[x].0@ == pre[x].0@);
                    }
                    assert(counts@[x].0@ == hv[j0].authorized_user);
                }
            }
        },
        None => {
            proof {
                assert forall|j: int| 0 <= j < prefix.len() implies (#[trigger] prefix[
                    j
                ]).authorized_user != ev.authorized_user by {
                    let x0 = choose|x0: int|
                        0 <= x0 < pre.len() && (#[trigger] pre[x0]).0@ == hv[j].authorized_user;
                }
                lemma_count_user_absent(prefix, ev.authorized_user);
            }
            counts.push((user.clone(), 1));
            proof {
                assert forall|x: int| 0 <= x < counts@.len() implies (#[trigger] counts@[x]).1
                    == count_user(grown, counts@[x].0@) by {
                    if x < pre.len() {
                        assert(counts@[x] == pre[x]);
                        assert(pre[x].0@ != ev.authorized_user) by {
                            if pre[x].0@ == ev.authorized_user {
                                let j0 = choose|j0: int|
                                    0 <= j0 < i && (#[trigger] pre[x]).0@ == hv[
                                        j0
                                    ].authorized_user;
                                assert(prefix[j0].authorized_user == ev.authorized_user);
                            }
                        }
                    } else {
                        assert(counts@[x].0@ == ev.authorized_user);
                    }
                }
                assert forall|j: int| 0 <= j < i + 1 implies exists|x: int|
                    0 <= x < counts@.len() && (#[trigger] counts@[x]).0@ == (#[trigger] hv[
                        j
                    ]).authorized_user by {
                    if j < i {
                        let x0 = choose|x0: int|
                            0 <= x0 < pre.len() && (#[trigger] pre[x0]).0@ == hv[
                                j
                            ].authorized_user;
                        assert(counts@[x0].0@ == pre[x0].0@);
                    } else {
                        assert(counts@[pre.len() as int].0@ == hv[i as int].authorized_user);
                    }
                }
                assert forall|x: int| 0 <= x < counts@.len() implies exists|j: int|
                    0 <= j < i + 1 && (#[trigger] counts@[x]).0@ == hv[j].authorized_user by {
                    if x < pre.len() {
                        let j0 = choose|j0: int|
                            0 <= j0 < i && (#[trigger] pre[x]).0@ == hv[j0].authorized_user;
                        assert(counts@[x].0@ == hv[j0].authorized_user);
                    } else {
                        assert(counts@[x].0@ == hv[i as int].authorized_user);
                    }
                }
                assert forall|a: int, b: int| 0 <= a < b < counts@.len() implies (
                #[trigger] counts@[a]).0@ != (#[trigger] counts@[b]).0@ by {
                    if b == pre.len() {
                        assert(counts@[a] == pre[a]);
                        assert(pre[a].0@ != ev.authorized_user) by {
                            if pre[a].0@ == ev.authorized_user {
                                let j0 = choose|j0: int|
                                    0 <= j0 < i && (#[trigger] pre[a]).0@ == hv[
                                        j0
                                    ].authorized_user;
                                assert(prefix[j0].authorized_user == ev.authorized_user);
                            }
                        }
                    } else {
                        assert(counts@[a] == pre[a] && counts@[b] == pre[b]);
                    }
                }
            }
        },
    }
}

} // verus!
