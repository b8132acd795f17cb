//! The encrypted, bounded, append-only audit log.
//!
//! Entries live in memory, capped at a fixed capacity with the oldest
//! evicted first. Reading the persisted blob from disk and writing it back
//! are the caller's job; this module produces and consumes the encrypted
//! bytes and owns every decision about what the log contains.

use vstd::prelude::*;

use crate::codec::{dec_entries, decode_entries, enc_entries, encode_entries, entries_wf, lemma_codec_round_trip};
use crate::config::Config;
use crate::crypto::{decrypt_blob_spec, CryptoError, SecurityManager};
use crate::strutil::str_eq;
use crate::textfmt::{
    append_csv_escaped, append_i64_dec, append_json_escaped, csv_escaped, dec_int, json_escaped,
};

verus! {

use vstd::string::StringSliceAdditionalSpecFns;
use vstd::utf8::encode_utf8;

/// How severe an audit event is. Severity never influences eviction.
#[derive(Debug, Clone, Copy, PartialEq, Eq, Structural)]
pub enum LogSeverity {
    Info,
    Warning,
    Error,
    Security,
}

/// One recorded decision or event.
#[derive(Debug, Clone)]
pub struct AuditLogEntry {
    /// Unix seconds at which the event was recorded.
    pub timestamp: i64,
    pub event_type: String,
    pub user: Option<String>,
    /// Structured payload, carried as JSON text.
    pub details: String,
    pub severity: LogSeverity,
    pub source: String,
}

/// The mathematical picture of one audit entry.
pub struct AuditEntryView {
    pub timestamp: int,
    pub event_type: Seq<char>,
    pub user: Option<Seq<char>>,
    pub details: Seq<char>,
    pub severity: LogSeverity,
    pub source: Seq<char>,
}

impl View for AuditLogEntry {
    type V = AuditEntryView;

    open spec fn view(&self) -> AuditEntryView {
        AuditEntryView {
            timestamp: self.timestamp as int,
            event_type: self.event_type@,
            user: match self.user {
                Some(u) => Some(u@),
                None => None,
            },
            details: self.details@,
            severity: self.severity,
            source: self.source@,
        }
    }
}

/// The views of a sequence of entries.
pub open spec fn views_of(s: Seq<AuditLogEntry>) -> Seq<AuditEntryView> {
    s.map_values(|e: AuditLogEntry| e@)
}

/// The fixed mapping from event type to severity.
pub open spec fn severity_of(event_type: Seq<char>) -> LogSeverity {
    if event_type == "login"@ || event_type == "logout"@ || event_type == "heartbeat"@ {
        LogSeverity::Info
    } else if event_type == "failed_auth"@ || event_type == "rate_limit_exceeded"@ {
        LogSeverity::Warning
    } else if event_type == "command_executed"@ {
        LogSeverity::Security
    } else {
        LogSeverity::Info
    }
}

/// The display name of a severity.
pub open spec fn severity_name(s: LogSeverity) -> Seq<char> {
    match s {
        LogSeverity::Info => "Info"@,
        LogSeverity::Warning => "Warning"@,
        LogSeverity::Error => "Error"@,
        LogSeverity::Security => "Security"@,
    }
}

/// What the log holds after appending `e` to `s` under capacity `cap`:
/// the newest `cap` elements of `s.push(e)`.
pub open spec fn bounded_append(
    s: Seq<AuditEntryView>,
    e: AuditEntryView,
    cap: nat,
) -> Seq<AuditEntryView> {
    let grown = s.push(e);
    if grown.len() <= cap {
        grown
    } else {
        grown.skip(grown.len() - cap)
    }
}

/// Whether an entry passes an optional exact event-type filter.
pub open spec fn passes_filter(e: AuditEntryView, filt: Option<Seq<char>>) -> bool {
    match filt {
        None => true,
        Some(t) => e.event_type == t,
    }
}

/// The entries of `s` that pass the filter, newest (last of `s`) first.
pub open spec fn rev_filtered(
    s: Seq<AuditEntryView>,
    filt: Option<Seq<char>>,
) -> Seq<AuditEntryView>
    decreases s.len(),
{
    if s.len() == 0 {
        Seq::empty()
    } else {
        rev_filtered(s.drop_first(), filt) + (if passes_filter(s[0], filt) {
            seq![s[0]]
        } else {
            Seq::empty()
        })
    }
}

/// An optional cap on how many entries a query returns.
pub open spec fn apply_limit(s: Seq<AuditEntryView>, limit: Option<usize>) -> Seq<AuditEntryView> {
    match limit {
        None => s,
        Some(l) => if s.len() <= l {
            s
        } else {
            s.take(l as int)
        },
    }
}

/// The JSON rendering of one entry. The `details` payload is embedded as
/// it stands: it is the serialized form of a structured payload, and the
/// export is well-formed JSON exactly when every recorded `details` is.
/// Every writer inside this crate records valid JSON there.
pub open spec fn json_of_entry(e: AuditEntryView) -> Seq<char> {
    "{\"timestamp\":"@ + dec_int(e.timestamp) + ",\"event_type\":\""@ + json_escaped(e.event_type)
        + "\",\"user\":"@ + (match e.user {
        None => "null"@,
        Some(u) => "\""@ + json_escaped(u) + "\""@,
    }) + ",\"details\":"@ + e.details + ",\"severity\":\""@ + severity_name(e.severity)
        + "\",\"source\":\""@ + json_escaped(e.source) + "\"}"@
}

/// The comma-separated JSON renderings of a sequence of entries.
pub open spec fn json_of_entries(s: Seq<AuditEntryView>) -> Seq<char>
    decreases s.len(),
{
    if s.len() == 0 {
        Seq::empty()
    } else if s.len() == 1 {
        json_of_entry(s[0])
    } else {
        json_of_entries(s.drop_last()) + ","@ + json_of_entry(s.last())
    }
}

/// The structured export format: one JSON array of entries.
pub open spec fn json_export(s: Seq<AuditEntryView>) -> Seq<char> {
    "["@ + json_of_entries(s) + "]"@
}

/// One row of the tabular export, every field quoted and quote-escaped.
pub open spec fn csv_of_entry(e: AuditEntryView) -> Seq<char> {
    "\""@ + dec_int(e.timestamp) + "\",\""@ + csv_escaped(e.event_type) + "\",\""@ + (match e.user {
        None => "Unknown"@,
        Some(u) => csv_escaped(u),
    }) + "\",\""@ + severity_name(e.severity) + "\",\""@ + csv_escaped(e.source) + "\",\""@
        + csv_escaped(e.details) + "\"\n"@
}

/// The rows of the tabular export, in the order of `s`.
pub open spec fn csv_of_entries(s: Seq<AuditEntryView>) -> Seq<char>
    decreases s.len(),
{
    if s.len() == 0 {
        Seq::empty()
    } else {
        csv_of_entries(s.drop_last()) + csv_of_entry(s.last())
    }
}

/// The tabular export: a fixed header row, then one row per entry.
pub open spec fn csv_export(s: Seq<AuditEntryView>) -> Seq<char> {
    "Timestamp,Event Type,User,Severity,Source,Details\n"@ + csv_of_entries(s)
}

/// Why an export request can fail.
#[derive(Debug, Clone, Copy, PartialEq, Eq, Structural)]
pub enum ExportError {
    /// The requested format is neither the structured nor the tabular one.
    UnsupportedExportFormat,
}

/// Why restoring the persisted log can fail.
#[derive(Debug, Clone, Copy, PartialEq, Eq, Structural)]
pub enum StorageError {
    /// The persisted blob would not decrypt: tampered, truncated, or
    /// sealed under a key this process does not hold.
    Crypto(CryptoError),
    /// The blob decrypted but its contents do not parse.
    CorruptLog,
}

impl AuditLogEntry {
    /// Classifies an event type under the fixed severity mapping.
    pub fn determine_severity(event_type: &str) -> (r: LogSeverity)
        ensures
            r == severity_of(event_type@),
    {
        if str_eq(event_type, "login") || str_eq(event_type, "logout") || str_eq(
            event_type,
            "heartbeat",
        ) {
            LogSeverity::Info
        } else if str_eq(event_type, "failed_auth") || str_eq(event_type, "rate_limit_exceeded") {
            LogSeverity::Warning
        } else if str_eq(event_type, "command_executed") {
            LogSeverity::Security
        } else {
            LogSeverity::Info
        }
    }
}

/// A counted summary of the in-memory log, for status reporting. On-disk
/// sizes are the caller's to add.
#[derive(Debug, Clone, Copy, PartialEq, Eq, Structural)]
pub struct StorageStats {
    pub audit_log_entries: usize,
    pub max_log_entries: usize,
}

/// The audit store: a bounded, append-only, encrypted event log.
pub struct SecureStorage {
    config: Config,
    security: SecurityManager,
    audit_log: Vec<AuditLogEntry>,
    max_log_entries: usize,
}

impl SecureStorage {
    /// The recorded entries, oldest first.
    pub closed spec fn entries(&self) -> Seq<AuditEntryView> {
        views_of(self.audit_log@)
    }

    /// The retention capacity.
    pub closed spec fn capacity(&self) -> nat {
        self.max_log_entries as nat
    }

    /// Whether policy allows audit logging at all.
    pub closed spec fn audit_enabled(&self) -> bool {
        self.config.features.audit_logging
    }

    /// The cryptographic service guarding the log at rest.
    pub closed spec fn security_spec(&self) -> SecurityManager {
        self.security
    }

    pub closed spec fn wf(&self) -> bool {
        &&& self.security.wf()
        &&& self.entries().len() <= self.capacity()
    }

    /// A fresh store with the default configuration, no key, and room for
    /// ten thousand entries.
    pub fn new() -> (r: SecureStorage)
        ensures
            r.wf(),
            r.entries() == Seq::<AuditEntryView>::empty(),
            r.capacity() == 10000,
            r.audit_enabled(),
            r.security_spec().key_spec() is None,
    {
        let config = Config::default();
        let security_config = Config::default();
        let r = SecureStorage {
            config,
            security: SecurityManager::new(security_config),
            audit_log: Vec::new(),
            max_log_entries: 10000,
        };
        proof {
            assert(r.entries() =~= Seq::<AuditEntryView>::empty());
        }
        r
    }

    /// Records one event, if audit logging is enabled: the entry's
    /// severity comes from the fixed mapping, its source is this agent,
    /// and the oldest entries are evicted once the capacity is exceeded.
    /// With logging disabled the call is a no-op, not an error.
    ///
    /// `details` is the serialized form of a structured payload; the
    /// structured export embeds it verbatim, so callers owe it to be
    /// valid JSON text.
    pub fn log_audit_event(
        &mut self,
        event_type: &str,
        details: &str,
        user: Option<String>,
        now: i64,
    )
        requires
            old(self).wf(),
        ensures
            final(self).wf(),
            final(self).capacity() == old(self).capacity(),
            final(self).audit_enabled() == old(self).audit_enabled(),
            final(self).security_spec() == old(self).security_spec(),
            !old(self).audit_enabled() ==> final(self).entries() == old(self).entries(),
            old(self).audit_enabled() ==> final(self).entries() == bounded_append(
                old(self).entries(),
                AuditEntryView {
                    timestamp: now as int,
                    event_type: event_type@,
                    user: match user {
                        Some(u) => Some(u@),
                        None => None,
                    },
                    details: details@,
                    severity: severity_of(event_type@),
                    source: "agent"@,
                },
                old(self).capacity(),
            ),
    {
        if !self.config.features.audit_logging {
            return ;
        }
        let entry = AuditLogEntry {
            timestamp: now,
            event_type: event_type.to_owned(),
            user,
            details: details.to_owned(),
            severity: AuditLogEntry::determine_severity(event_type),
            source: "agent".to_owned(),
        };
        self.audit_log.push(entry);
        let ghost grown = views_of(self.audit_log@);
        proof {
            assert(grown =~= old(self).entries().push(self.audit_log@.last()@));
        }
        let ghost popped: int = 0;
        while self.audit_log.len() > self.max_log_entries
            invariant
                self.config == old(self).config,
                self.security == old(self).security,
                self.max_log_entries == old(self).max_log_entries,
                0 <= popped <= grown.len(),
                views_of(self.audit_log@) =~= grown.skip(popped),
                self.audit_log@.len() == grown.len() - popped,
                grown.len() - popped <= self.max_log_entries + 1,
                popped > 0 ==> grown.len() - popped >= self.max_log_entries,
            decreases self.audit_log@.len(),
        {
            let ghost pre = self.audit_log@;
            self.audit_log.remove(0);
            proof {
                popped = popped + 1;
                assert(views_of(self.audit_log@) =~= views_of(pre).drop_first());
                assert(views_of(pre).drop_first() =~= grown.skip(popped));
            }
        }
        proof {
            if popped == 0 {
                assert(grown.skip(0) =~= grown);
            } else {
                assert(popped == grown.len() - self.max_log_entries);
            }
            assert(views_of(self.audit_log@) =~= bounded_append(
                old(self).entries(),
                grown.last(),
                old(self).capacity(),
            ));
        }
    }

    /// Returns entries newest first, optionally filtered by exact event
    /// type, optionally capped to `limit`.
    pub fn get_audit_logs(&self, limit: Option<usize>, event_type: Option<&str>) -> (r: Vec<
        AuditLogEntry,
    >)
        ensures
            views_of(r@) == apply_limit(
                rev_filtered(
                    self.entries(),
                    match event_type {
                        Some(t) => Some(t@),
                        None => None,
                    },
                ),
                limit,
            ),
    {
        let ghost filt: Option<Seq<char>> = match event_type {
            Some(t) => Some(t@),
            None => None,
        };
        let n = self.audit_log.len();
        let mut out: Vec<AuditLogEntry> = Vec::new();
        let mut j: usize = 0;
        while j < n
            invariant
                j <= n,
                n == self.audit_log@.len(),
                filt == (match event_type {
                    Some(t) => Some(t@),
                    None => None,
                }),
                views_of(out@) =~= rev_filtered(self.entries().skip(n - j), filt),
            decreases n - j,
        {
            let idx = n - 1 - j;
            let keep = match event_type {
                Some(t) => str_eq(self.audit_log[idx].event_type.as_str(), t),
                None => true,
            };
            let ghost pre = out@;
            if keep {
                out.push(self.audit_log[idx].clone_entry());
            }
            proof {
                let s = self.entries();
                assert(s.skip(n - j - 1).drop_first() =~= s.skip(n - j));
                assert(s.skip(n - j - 1)[0] == s[n - j - 1]);
                if keep {
                    assert(views_of(out@) =~= views_of(pre).push(self.audit_log@[idx as int]@));
                }
                assert(views_of(out@) =~= rev_filtered(s.skip(n - (j + 1)), filt));
            }
            j += 1;
        }
        proof {
            assert(self.entries().skip(0) =~= self.entries());
        }
        if let Some(l) = limit {
            if out.len() > l {
                out.truncate(l);
                proof {
                    assert(views_of(out@) =~= apply_limit(
                        rev_filtered(self.entries(), filt),
                        limit,
                    ));
                }
            }
        }
        proof {
            assert(views_of(out@) =~= apply_limit(rev_filtered(self.entries(), filt), limit));
        }
        out
    }

    /// Serializes the full log, newest first, in the requested format:
    /// `"json"` (one JSON array) or `"csv"` (a header row, then one quoted
    /// row per entry), case-insensitively; anything else is unsupported.
    pub fn export_audit_logs(&self, format: &str) -> (r: Result<Vec<u8>, ExportError>)
        ensures
            ({
                let newest = rev_filtered(self.entries(), None);
                if lower_bytes(encode_utf8(format@)) == encode_utf8("json"@) {
                    r is Ok && r.unwrap()@ == encode_utf8(json_export(newest))
                } else if lower_bytes(encode_utf8(format@)) == encode_utf8("csv"@) {
                    r is Ok && r.unwrap()@ == encode_utf8(csv_export(newest))
                } else {
                    r == Err::<Vec<u8>, ExportError>(ExportError::UnsupportedExportFormat)
                }
            }),
    {
        let logs = self.get_audit_logs(None, None);
        if ascii_lower_matches(format, "json") {
            let mut out = String::new();
            out.push('[');
            let mut i: usize = 0;
            while i < logs.len()
                invariant
                    i <= logs@.len(),
                    views_of(logs@) == rev_filtered(self.entries(), None),
                    out@ == seq!['['] + json_of_entries(views_of(logs@).take(i as int)),
                decreases logs@.len() - i,
            {
                if i > 0 {
                    out.push(',');
                }
                append_entry_json(&mut out, &logs[i]);
                proof {
                    reveal_strlit(",");
                    let vs = views_of(logs@);
                    assert(vs.take(i + 1).drop_last() =~= vs.take(i as int));
                    assert(out@ =~= seq!['['] + json_of_entries(vs.take(i + 1)));
                }
                i += 1;
            }
            out.push(']');
            proof {
                reveal_strlit("[");
                reveal_strlit("]");
                let vs = views_of(logs@);
                assert(vs.take(vs.len() as int) =~= vs);
                assert(out@ =~= json_export(vs));
            }
            Ok(out.as_str().as_bytes_vec())
        } else if ascii_lower_matches(format, "csv") {
            let mut out = "Timestamp,Event Type,User,Severity,Source,Details
".to_owned();
            let mut i: usize = 0;
            while i < logs.len()
                invariant
                    i <= logs@.len(),
                    views_of(logs@) == rev_filtered(self.entries(), None),
                    out@ == "Timestamp,Event Type,User,Severity,Source,Details
"@
                        + csv_of_entries(views_of(logs@).take(i as int)),
                decreases logs@.len() - i,
            {
                append_entry_csv(&mut out, &logs[i]);
                proof {
                    let vs = views_of(logs@);
                    assert(vs.take(i + 1).drop_last() =~= vs.take(i as int));
                    assert(out@ =~= "Timestamp,Event Type,User,Severity,Source,Details
"@
                        + csv_of_entries(vs.take(i + 1)));
                }
                i += 1;
            }
            proof {
                let vs = views_of(logs@);
                assert(vs.take(vs.len() as int) =~= vs);
                assert(out@ =~= csv_export(vs));
            }
            Ok(out.as_str().as_bytes_vec())
        } else {
            Err(ExportError::UnsupportedExportFormat)
        }
    }

    /// Empties the in-memory log. Securely erasing the persisted blob is
    /// the caller's job, done with the crypto service's wipe.
    pub fn clear_audit_logs(&mut self)
        requires
            old(self).wf(),
        ensures
            final(self).wf(),
            final(self).entries() == Seq::<AuditEntryView>::empty(),
            final(self).capacity() == old(self).capacity(),
            final(self).audit_enabled() == old(self).audit_enabled(),
            final(self).security_spec() == old(self).security_spec(),
    {
        self.audit_log.clear();
        proof {
            assert(final(self).entries() =~= Seq::<AuditEntryView>::empty());
        }
    }

    /// Counts of the in-memory log and its capacity.
    pub fn get_storage_stats(&self) -> (r: StorageStats)
        ensures
            r.audit_log_entries == self.entries().len(),
            r.max_log_entries == self.capacity(),
    {
        StorageStats {
            audit_log_entries: self.audit_log.len(),
            max_log_entries: self.max_log_entries,
        }
    }
}

impl AuditLogEntry {
    /// A field-for-field copy.
    pub fn clone_entry(&self) -> (r: AuditLogEntry)
        ensures
            r@ == self@,
    {
        AuditLogEntry {
            timestamp: self.timestamp,
            event_type: self.event_type.clone(),
            user: match &self.user {
                Some(u) => Some(u.clone()),
                None => None,
            },
            details: self.details.clone(),
            severity: self.severity,
            source: self.source.clone(),
        }
    }
}

/// The ASCII lowering of one byte.
pub open spec fn lower_byte(b: u8) -> u8 {
    if 65 <= b <= 90 {
        (b + 32) as u8
    } else {
        b
    }
}

/// The ASCII lowering of a byte string; enough to compare format names
/// case-insensitively.
pub open spec fn lower_bytes(s: Seq<u8>) -> Seq<u8> {
    s.map_values(|b: u8| lower_byte(b))
}

/// Whether `format`, lowered byte by byte, spells `target`.
fn ascii_lower_matches(format: &str, target: &str) -> (r: bool)
    ensures
        r == (lower_bytes(encode_utf8(format@)) == encode_utf8(target@)),
{
    let fb = format.as_bytes();
    let tb = target.as_bytes();
    if fb.len() != tb.len() {
        proof {
            assert(lower_bytes(format.spec_bytes()).len() == format.spec_bytes().len());
        }
        return false;
    }
    let n = fb.len();
    let mut i: usize = 0;
    while i < n
        invariant
            i <= n,
            n == fb@.len(),
            n == tb@.len(),
            fb@ == format.spec_bytes(),
            tb@ == target.spec_bytes(),
            forall|k: int| 0 <= k < i ==> lower_byte(fb@[k]) == tb@[k],
        decreases n - i,
    {
        let b = fb[i];
        let low = if 65 <= b && b <= 90 {
            b + 32
        } else {
            b
        };
        if low != tb[i] {
            proof {
                assert(lower_bytes(fb@)[i as int] != tb@[i as int]);
            }
            return false;
        }
        i += 1;
    }
    proof {
        assert(lower_bytes(fb@) =~= tb@);
    }
    true
}

fn severity_str(s: LogSeverity) -> (r: &'static str)
    ensures
        r@ == severity_name(s),
{
    match s {
        LogSeverity::Info => "Info",
        LogSeverity::Warning => "Warning",
        LogSeverity::Error => "Error",
        LogSeverity::Security => "Security",
    }
}

fn append_entry_json(out: &mut String, e: &AuditLogEntry)
    ensures
        final(out)@ == old(out)@ + json_of_entry(e@),
{
    out.append("{\"timestamp\":");
    append_i64_dec(out, e.timestamp);
    out.append(",\"event_type\":\"");
    append_json_escaped(out, e.event_type.as_str());
    out.append("\",\"user\":");
    match &e.user {
        None => {
            out.append("null");
        },
        Some(u) => {
            out.append("\"");
            append_json_escaped(out, u.as_str());
            out.append("\"");
        },
    }
    out.append(",\"details\":");
    out.append(e.details.as_str());
    out.append(",\"severity\":\"");
    out.append(severity_str(e.severity));
    out.append("\",\"source\":\"");
    append_json_escaped(out, e.source.as_str());
    out.append("\"}");
    proof {
        assert(out@ =~= old(out)@ + json_of_entry(e@));
    }
}

fn append_entry_csv(out: &mut String, e: &AuditLogEntry)
    ensures
        final(out)@ == old(out)@ + csv_of_entry(e@),
{
    out.append("\"");
    append_i64_dec(out, e.timestamp);
    out.append("\",\"");
    append_csv_escaped(out, e.event_type.as_str());
    out.append("\",\"");
    match &e.user {
        None => {
            out.append("Unknown");
        },
        Some(u) => {
            append_csv_escaped(out, u.as_str());
        },
    }
    out.append("\",\"");
    out.append(severity_str(e.severity));
    out.append("\",\"");
    append_csv_escaped(out, e.source.as_str());
    out.append("\",\"");
    append_csv_escaped(out, e.details.as_str());
    out.append("\"\n");
    proof {
        assert(out@ =~= old(out)@ + csv_of_entry(e@));
    }
}

/// Law: command outcomes are always recorded at `Security` severity under
/// the fixed mapping.
pub proof fn lemma_command_executed_severity()
    ensures
        severity_of("command_executed"@) == LogSeverity::Security,
{
    reveal_strlit("command_executed");
    reveal_strlit("login");
    reveal_strlit("logout");
    reveal_strlit("heartbeat");
    reveal_strlit("failed_auth");
    reveal_strlit("rate_limit_exceeded");
    assert("command_executed"@.len() == 16);
    assert("login"@.len() == 5);
    assert("logout"@.len() == 6);
    assert("heartbeat"@.len() == 9);
    assert("failed_auth"@.len() == 11);
    assert("rate_limit_exceeded"@.len() == 19);
}

/// The newest `cap` elements of `s`.
pub open spec fn newest(s: Seq<AuditEntryView>, cap: nat) -> Seq<AuditEntryView> {
    if s.len() <= cap {
        s
    } else {
        s.skip(s.len() - cap)
    }
}

/// What restoring a persisted blob under `key` yields: the entries, or the
/// exact failure. Decrypt failure is fatal rather than starting empty.
pub open spec fn restore_result(key: Seq<u8>, blob: Seq<u8>) -> Result<
    Seq<AuditEntryView>,
    StorageError,
> {
    if blob.len() < 28 {
        Err(StorageError::Crypto(CryptoError::MalformedCiphertext))
    } else {
        match decrypt_blob_spec(key, blob) {
            None => Err(StorageError::Crypto(CryptoError::AuthenticationFailure)),
            Some(bytes) => match dec_entries(bytes) {
                None => Err(StorageError::CorruptLog),
                Some(es) => Ok(es),
            },
        }
    }
}

/// Law: restoring from a store's own encrypted snapshot yields exactly the
/// entries that were persisted — persistence loses nothing and invents
/// nothing.
pub proof fn lemma_restore_of_snapshot(key: Seq<u8>, blob: Seq<u8>, entries: Seq<AuditEntryView>)
    requires
        entries_wf(entries),
        blob.len() >= 28,
        decrypt_blob_spec(key, blob) == Some(enc_entries(entries)),
    ensures
        restore_result(key, blob) == Ok::<Seq<AuditEntryView>, StorageError>(entries),
{
    lemma_codec_round_trip(entries);
}

impl SecureStorage {
    /// The full log, serialized and sealed under the in-memory key; the
    /// caller persists these bytes as the single on-disk blob.
    pub fn encrypted_snapshot(&self) -> (r: Result<Vec<u8>, CryptoError>)
        requires
            self.wf(),
        ensures
            match r {
                Ok(blob) => {
                    &&& self.security_spec().key_spec() is Some
                    &&& blob@.len() >= 28
                    &&& decrypt_blob_spec(self.security_spec().key_spec().unwrap(), blob@)
                        == Some(enc_entries(self.entries()))
                    &&& entries_wf(self.entries())
                },
                Err(CryptoError::KeyNotInitialized) => self.security_spec().key_spec() is None,
                Err(CryptoError::BackendFailure) => self.security_spec().key_spec() is Some,
                Err(_) => false,
            },
    {
        let bytes = encode_entries(&self.audit_log);
        self.security.encrypt_data(bytes.as_slice())
    }

    /// Adopts the real configuration and crypto service, creates the key
    /// if none exists, and — when a persisted blob is handed in — restores
    /// it as the initial in-memory state. A blob that will not decrypt or
    /// parse fails initialization: audit continuity is a guarantee, not
    /// best effort. With a service that already holds its key nothing
    /// here is left to chance: the outcome is exactly what the blob under
    /// that key dictates, and success is owed when there is no blob.
    pub fn initialize(
        &mut self,
        config: Config,
        security: SecurityManager,
        persisted: Option<&[u8]>,
    ) -> (r: Result<(), StorageError>)
        requires
            old(self).wf(),
            security.wf(),
    ensures
            final(self).wf(),
            final(self).capacity() == old(self).capacity(),
            r is Ok ==> final(self).security_spec().key_spec() is Some,
            r is Ok ==> final(self).audit_enabled() == config.features.audit_logging,
            security.key_spec() is Some ==> final(self).security_spec() == security,
            security.key_spec() is Some ==> match persisted {
                None => r is Ok && final(self).entries() == old(self).entries(),
                Some(blob) => match restore_result(security.key_spec().unwrap(), blob@) {
                    Ok(es) => r is Ok && final(self).entries() == newest(
                        es,
                        final(self).capacity(),
                    ),
                    Err(e) => r == Err::<(), StorageError>(e),
                },
            },
            security.key_spec() is None ==> match persisted {
                None => {
                    &&& (r is Ok ==> final(self).entries() == old(self).entries())
                    &&& (r is Err ==> r == Err::<(), StorageError>(
                        StorageError::Crypto(CryptoError::BackendFailure),
                    ))
                },
                Some(blob) => {
                    &&& (r is Ok ==> match restore_result(
                        final(self).security_spec().key_spec().unwrap(),
                        blob@,
                    ) {
                        Ok(es) => final(self).entries() == newest(es, final(self).capacity()),
                        Err(_) => false,
                    })
                    &&& (match r {
                        Err(e) => e == StorageError::Crypto(CryptoError::BackendFailure) || (
                        final(self).security_spec().key_spec() is Some && restore_result(
                            final(self).security_spec().key_spec().unwrap(),
                            blob@,
                        ) == Err::<Seq<AuditEntryView>, StorageError>(e)),
                        _ => true,
                    })
                },
            },
    {
        self.config = config;
        self.security = security;
        match self.security.initialize_encryption() {
            Ok(()) => {},
            Err(_) => {
                return Err(StorageError::Crypto(CryptoError::BackendFailure));
            },
        }
        let blob = match persisted {
            None => {
                return Ok(());
            },
            Some(b) => b,
        };
        let bytes = match self.security.decrypt_data(blob) {
            Ok(b) => b,
            Err(e) => {
                return Err(StorageError::Crypto(e));
            },
        };
        let entries = match decode_entries(bytes.as_slice()) {
            Some(es) => es,
            None => {
                return Err(StorageError::CorruptLog);
            },
        };
        self.audit_log = entries;
        self.trim_to_capacity();
        Ok(())
    }

    /// Evicts oldest entries until the log fits its capacity.
    fn trim_to_capacity(&mut self)
        ensures
            final(self).entries() == newest(old(self).entries(), old(self).capacity()),
            final(self).capacity() == old(self).capacity(),
            final(self).audit_enabled() == old(self).audit_enabled(),
            final(self).security_spec() == old(self).security_spec(),
            final(self).entries().len() <= final(self).capacity(),
    {
        let ghost start = views_of(self.audit_log@);
        let ghost popped: int = 0;
        while self.audit_log.len() > self.max_log_entries
            invariant
                self.config == old(self).config,
                self.security == old(self).security,
                self.max_log_entries == old(self).max_log_entries,
                0 <= popped <= start.len(),
                views_of(self.audit_log@) =~= start.skip(popped),
                self.audit_log@.len() == start.len() - popped,
                popped > 0 ==> start.len() - popped >= self.max_log_entries,
            decreases self.audit_log@.len(),
        {
            let ghost pre = self.audit_log@;
            self.audit_log.remove(0);
            proof {
                popped = popped + 1;
                assert(views_of(self.audit_log@) =~= views_of(pre).drop_first());
                assert(views_of(pre).drop_first() =~= start.skip(popped));
            }
        }
        proof {
            if popped == 0 {
                assert(start.skip(0) =~= start);
            } else {
                assert(popped == start.len() - self.max_log_entries);
            }
            assert(views_of(self.audit_log@) =~= newest(start, old(self).capacity()));
        }
    }
}

} // verus!
