//! The serialized form of the audit log at rest.
//!
//! Entries are concatenated; each one carries a sign-magnitude timestamp,
//! a severity code, and its four text fields as length-prefixed UTF-8.
//! Encoding and decoding are inverses, proved below, so a restored log is
//! exactly the log that was persisted.

use vstd::prelude::*;

use crate::storage::{views_of, AuditEntryView, AuditLogEntry, LogSeverity};
use crate::strutil::bytes_to_string;

verus! {

use vstd::bytes::{
    lemma_auto_spec_u64_to_from_le_bytes, spec_u64_from_le_bytes, spec_u64_to_le_bytes,
    u64_from_le_bytes, u64_to_le_bytes,
};
use vstd::slice::{slice_subrange, slice_to_vec};
use vstd::string::StringSliceAdditionalSpecFns;
use vstd::utf8::{decode_utf8, encode_utf8, valid_utf8};

/// The wire code of a severity.
pub open spec fn severity_code(s: LogSeverity) -> u8 {
    match s {
        LogSeverity::Info => 0,
        LogSeverity::Warning => 1,
        LogSeverity::Error => 2,
        LogSeverity::Security => 3,
    }
}

/// The severity a wire code stands for, if any.
pub open spec fn severity_of_code(b: u8) -> Option<LogSeverity> {
    if b == 0 {
        Some(LogSeverity::Info)
    } else if b == 1 {
        Some(LogSeverity::Warning)
    } else if b == 2 {
        Some(LogSeverity::Error)
    } else if b == 3 {
        Some(LogSeverity::Security)
    } else {
        None
    }
}

/// A timestamp on the wire: a sign byte, then the magnitude.
pub open spec fn enc_timestamp(t: int) -> Seq<u8> {
    if t >= 0 {
        seq![0u8] + spec_u64_to_le_bytes(t as u64)
    } else {
        seq![1u8] + spec_u64_to_le_bytes((-t) as u64)
    }
}

/// Reads a timestamp back: the value and the remaining bytes. Magnitudes
/// that no 64-bit signed value has are rejected.
pub open spec fn dec_timestamp(b: Seq<u8>) -> Option<(int, Seq<u8>)> {
    if b.len() < 9 {
        None
    } else {
        let m = spec_u64_from_le_bytes(b.subrange(1, 9));
        if b[0] == 0 {
            if m <= i64::MAX as u64 {
                Some((m as int, b.skip(9)))
            } else {
                None
            }
        } else if b[0] == 1 {
            if m <= 9223372036854775808u64 {
                Some((-(m as int), b.skip(9)))
            } else {
                None
            }
        } else {
            None
        }
    }
}

/// A text field on the wire: its UTF-8 byte length, then the bytes.
#[verifier::opaque]
pub open spec fn enc_str(s: Seq<char>) -> Seq<u8> {
    spec_u64_to_le_bytes(encode_utf8(s).len() as u64) + encode_utf8(s)
}

/// Reads a text field back: the characters and the remaining bytes.
pub open spec fn dec_str(b: Seq<u8>) -> Option<(Seq<char>, Seq<u8>)> {
    if b.len() < 8 {
        None
    } else {
        let l = spec_u64_from_le_bytes(b.take(8)) as int;
        if b.len() >= 8 + l {
            let fb = b.subrange(8, 8 + l);
            if valid_utf8(fb) {
                Some((decode_utf8(fb), b.skip(8 + l)))
            } else {
                None
            }
        } else {
            None
        }
    }
}

/// An optional user on the wire: a presence tag, then the name if present.
#[verifier::opaque]
pub open spec fn enc_user(u: Option<Seq<char>>) -> Seq<u8> {
    match u {
        None => seq![0u8],
        Some(name) => seq![1u8] + enc_str(name),
    }
}

/// Reads an optional user back.
pub open spec fn dec_user(b: Seq<u8>) -> Option<(Option<Seq<char>>, Seq<u8>)> {
    if b.len() < 1 {
        None
    } else if b[0] == 0 {
        Some((None, b.drop_first()))
    } else if b[0] == 1 {
        match dec_str(b.drop_first()) {
            Some((name, rest)) => Some((Some(name), rest)),
            None => None,
        }
    } else {
        None
    }
}

/// One entry on the wire.
#[verifier::opaque]
pub open spec fn enc_entry(e: AuditEntryView) -> Seq<u8> {
    enc_timestamp(e.timestamp) + seq![severity_code(e.severity)] + enc_str(e.event_type) + enc_user(
        e.user,
    ) + enc_str(e.details) + enc_str(e.source)
}

/// Reads one entry back: the entry and the remaining bytes.
pub open spec fn dec_entry(b: Seq<u8>) -> Option<(AuditEntryView, Seq<u8>)> {
    match dec_timestamp(b) {
        None => None,
        Some((ts, r0)) => if r0.len() < 1 {
            None
        } else {
            match severity_of_code(r0[0]) {
                None => None,
                Some(sev) => match dec_str(r0.drop_first()) {
                    None => None,
                    Some((event_type, r1)) => match dec_user(r1) {
                        None => None,
                        Some((user, r2)) => match dec_str(r2) {
                            None => None,
                            Some((details, r3)) => match dec_str(r3) {
                                None => None,
                                Some((source, r4)) => Some(
                                    (
                                        AuditEntryView {
                                            timestamp: ts,
                                            event_type,
                                            user,
                                            details,
                                            severity: sev,
                                            source,
                                        },
                                        r4,
                                    ),
                                ),
                            },
                        },
                    },
                },
            }
        },
    }
}

/// A whole log on the wire: the entries in order, concatenated.
pub open spec fn enc_entries(s: Seq<AuditEntryView>) -> Seq<u8>
    decreases s.len(),
{
    if s.len() == 0 {
        Seq::empty()
    } else {
        enc_entry(s[0]) + enc_entries(s.drop_first())
    }
}

/// Reads a whole log back, or nothing if any byte fails to parse.
pub open spec fn dec_entries(b: Seq<u8>) -> Option<Seq<AuditEntryView>>
    decreases b.len(),
{
    if b.len() == 0 {
        Some(Seq::empty())
    } else {
        match dec_entry(b) {
            None => None,
            Some((e, rest)) => if rest.len() < b.len() {
                match dec_entries(rest) {
                    None => None,
                    Some(tail) => Some(seq![e] + tail),
                }
            } else {
                None
            },
        }
    }
}

/// An entry whose numbers and text fit the wire format: the timestamp is a
/// 64-bit value and each field's UTF-8 form has a 64-bit length. Every
/// entry built from executable values is of this shape.
pub open spec fn entry_wf(e: AuditEntryView) -> bool {
    &&& i64::MIN <= e.timestamp <= i64::MAX
    &&& encode_utf8(e.event_type).len() <= u64::MAX
    &&& (match e.user {
        Some(u) => encode_utf8(u).len() <= u64::MAX,
        None => true,
    })
    &&& encode_utf8(e.details).len() <= u64::MAX
    &&& encode_utf8(e.source).len() <= u64::MAX
}

pub open spec fn entries_wf(s: Seq<AuditEntryView>) -> bool {
    forall|i: int| 0 <= i < s.len() ==> entry_wf(#[trigger] s[i])
}

proof fn lemma_dec_timestamp_enc(t: int, rest: Seq<u8>)
    requires
        i64::MIN <= t <= i64::MAX,
    ensures
        dec_timestamp(enc_timestamp(t) + rest) == Some((t, rest)),
{
    lemma_auto_spec_u64_to_from_le_bytes();
    let b = enc_timestamp(t) + rest;
    if t >= 0 {
        assert(b.subrange(1, 9) =~= spec_u64_to_le_bytes(t as u64));
        assert(b.skip(9) =~= rest);
    } else {
        assert(b.subrange(1, 9) =~= spec_u64_to_le_bytes((-t) as u64));
        assert(b.skip(9) =~= rest);
    }
}

proof fn lemma_dec_str_enc(s: Seq<char>, rest: Seq<u8>)
    requires
        encode_utf8(s).len() <= u64::MAX,
    ensures
        dec_str(enc_str(s) + rest) == Some((s, rest)),
{
    reveal(enc_str);
    lemma_auto_spec_u64_to_from_le_bytes();
    broadcast use vstd::utf8::encode_utf8_valid_utf8;
    broadcast use vstd::utf8::encode_utf8_decode_utf8;

    let b = enc_str(s) + rest;
    let l = encode_utf8(s).len() as int;
    assert(b.take(8) =~= spec_u64_to_le_bytes(encode_utf8(s).len() as u64));
    assert(b.subrange(8, 8 + l) =~= encode_utf8(s));
    assert(b.skip(8 + l) =~= rest);
}

proof fn lemma_dec_user_enc(u: Option<Seq<char>>, rest: Seq<u8>)
    requires
        match u {
            Some(name) => encode_utf8(name).len() <= u64::MAX,
            None => true,
        },
    ensures
        dec_user(enc_user(u) + rest) == Some((u, rest)),
{
    reveal(enc_user);
    let b = enc_user(u) + rest;
    match u {
        None => {
            assert(b.drop_first() =~= rest);
        },
        Some(name) => {
            assert(b.drop_first() =~= enc_str(name) + rest);
            lemma_dec_str_enc(name, rest);
        },
    }
}

#[verifier::spinoff_prover]
#[verifier::rlimit(100)]
proof fn lemma_dec_entry_enc(e: AuditEntryView, rest: Seq<u8>)
    requires
        entry_wf(e),
    ensures
        dec_entry(enc_entry(e) + rest) == Some((e, rest)),
        enc_entry(e).len() > 0,
{
    let s4 = enc_str(e.source) + rest;
    let s3 = enc_str(e.details) + s4;
    let s2 = enc_user(e.user) + s3;
    let s1 = enc_str(e.event_type) + s2;
    let s0 = seq![severity_code(e.severity)] + s1;
    let b = enc_entry(e) + rest;
    assert(b =~= enc_timestamp(e.timestamp) + s0) by {
        reveal(enc_entry);
    }
    lemma_dec_timestamp_enc(e.timestamp, s0);
    assert(dec_timestamp(b) == Some((e.timestamp, s0)));
    assert(s0[0] == severity_code(e.severity));
    assert(severity_of_code(s0[0]) == Some(e.severity));
    assert(s0.drop_first() =~= s1);
    lemma_dec_str_enc(e.event_type, s2);
    lemma_dec_user_enc(e.user, s3);
    lemma_dec_str_enc(e.details, s4);
    lemma_dec_str_enc(e.source, rest);
    assert(dec_entry(b) == Some((e, rest)));
    assert(enc_timestamp(e.timestamp).len() == 9) by {
        lemma_auto_spec_u64_to_from_le_bytes();
    }
    assert(enc_entry(e).len() > 0) by {
        reveal(enc_entry);
        assert(enc_timestamp(e.timestamp).len() == 9) by {
            lemma_auto_spec_u64_to_from_le_bytes();
        }
    }
}

/// Law: decoding inverts encoding — a log written with `enc_entries` reads
/// back as exactly the same entries.
pub proof fn lemma_codec_round_trip(s: Seq<AuditEntryView>)
    requires
        entries_wf(s),
    ensures
        dec_entries(enc_entries(s)) == Some(s),
    decreases s.len(),
{
    if s.len() == 0 {
    } else {
        let b = enc_entries(s);
        lemma_dec_entry_enc(s[0], enc_entries(s.drop_first()));
        assert(entries_wf(s.drop_first())) by {
            assert(forall|i: int|
                0 <= i < s.drop_first().len() ==> #[trigger] s.drop_first()[i] == s[i + 1]);
        }
        lemma_codec_round_trip(s.drop_first());
        assert(seq![s[0]] + s.drop_first() =~= s);
    }
}

proof fn lemma_enc_entries_snoc(s: Seq<AuditEntryView>, e: AuditEntryView)
    ensures
        enc_entries(s.push(e)) == enc_entries(s) + enc_entry(e),
    decreases s.len(),
{
    if s.len() == 0 {
        reveal_with_fuel(enc_entries, 3);
        assert(s.push(e)[0] == e);
        assert(s.push(e).drop_first() =~= Seq::<AuditEntryView>::empty());
        assert(enc_entries(s.push(e)) =~= enc_entry(e));
        assert(enc_entries(s) + enc_entry(e) =~= enc_entry(e));
    } else {
        assert(s.push(e).drop_first() =~= s.drop_first().push(e));
        lemma_enc_entries_snoc(s.drop_first(), e);
        assert(enc_entries(s.push(e)) =~= enc_entries(s) + enc_entry(e));
    }
}

fn append_u64(out: &mut Vec<u8>, x: u64)
    ensures
        final(out)@ == old(out)@ + spec_u64_to_le_bytes(x),
{
    let mut bytes = u64_to_le_bytes(x);
    out.append(&mut bytes);
}

fn append_str_field(out: &mut Vec<u8>, s: &str)
    ensures
        final(out)@ == old(out)@ + enc_str(s@),
        encode_utf8(s@).len() <= u64::MAX,
{
    let bytes = s.as_bytes();
    let n = bytes.len();
    append_u64(out, n as u64);
    out.extend_from_slice(bytes);
    proof {
        reveal(enc_str);
        assert(out@ =~= old(out)@ + enc_str(s@));
    }
}

fn append_entry(out: &mut Vec<u8>, e: &AuditLogEntry)
    ensures
        final(out)@ == old(out)@ + enc_entry(e@),
        entry_wf(e@),
{
    if e.timestamp >= 0 {
        out.push(0u8);
        append_u64(out, e.timestamp as u64);
    } else {
        out.push(1u8);
        let m: u64 = if e.timestamp == i64::MIN {
            9223372036854775808u64
        } else {
            (-e.timestamp) as u64
        };
        append_u64(out, m);
    }
    proof {
        reveal(enc_timestamp);
        assert(out@ =~= old(out)@ + enc_timestamp(e@.timestamp));
    }
    let sev: u8 = match e.severity {
        LogSeverity::Info => 0,
        LogSeverity::Warning => 1,
        LogSeverity::Error => 2,
        LogSeverity::Security => 3,
    };
    out.push(sev);
    append_str_field(out, e.event_type.as_str());
    match &e.user {
        None => {
            out.push(0u8);
        },
        Some(u) => {
            out.push(1u8);
            append_str_field(out, u.as_str());
        },
    }
    append_str_field(out, e.details.as_str());
    append_str_field(out, e.source.as_str());
    proof {
        reveal(enc_entry);
        reveal(enc_user);
        assert(out@ =~= old(out)@ + enc_entry(e@));
    }
}

/// Serializes a log, oldest first.
pub fn encode_entries(entries: &Vec<AuditLogEntry>) -> (r: Vec<u8>)
    ensures
        r@ == enc_entries(views_of(entries@)),
        entries_wf(views_of(entries@)),
{
    let mut out: Vec<u8> = Vec::new();
    let n = entries.len();
    let mut i: usize = 0;
    while i < n
        invariant
            i <= n,
            n == entries@.len(),
            out@ == enc_entries(views_of(entries@).take(i as int)),
            forall|k: int| 0 <= k < i ==> entry_wf(#[trigger] views_of(entries@)[k]),
        decreases n - i,
    {
        append_entry(&mut out, &entries[i]);
        proof {
            let vs = views_of(entries@);
            assert(vs.take(i + 1).drop_last() =~= vs.take(i as int));
            lemma_enc_entries_snoc(vs.take(i as int), vs[i as int]);
            assert(vs.take(i as int).push(vs[i as int]) =~= vs.take(i + 1));
        }
        i += 1;
    }
    proof {
        assert(views_of(entries@).take(n as int) =~= views_of(entries@));
    }
    out
}

fn decode_str_at(bytes: &[u8], pos: usize) -> (r: Option<(String, usize)>)
    requires
        pos <= bytes@.len(),
    ensures
        match r {
            Some((s, np)) => {
                &&& pos < np <= bytes@.len()
                &&& dec_str(bytes@.skip(pos as int)) == Some((s@, bytes@.skip(np as int)))
            },
            None => dec_str(bytes@.skip(pos as int)) is None,
        },
{
    let n = bytes.len();
    let ghost tail = bytes@.skip(pos as int);
    if n - pos < 8 {
        return None;
    }
    let len_slice = slice_subrange(bytes, pos, pos + 8);
    proof {
        assert(len_slice@ =~= tail.take(8));
    }
    let len64 = u64_from_le_bytes(len_slice);
    if len64 > (n - pos - 8) as u64 {
        return None;
    }
    let len = len64 as usize;
    let field_slice = slice_subrange(bytes, pos + 8, pos + 8 + len);
    proof {
        assert(field_slice@ =~= tail.subrange(8, 8 + len64 as int));
    }
    let field = slice_to_vec(field_slice);
    match bytes_to_string(field) {
        Some(s) => {
            proof {
                assert(tail.skip(8 + len64 as int) =~= bytes@.skip(pos + 8 + len));
            }
            Some((s, pos + 8 + len))
        },
        None => None,
    }
}

fn decode_entry_at(bytes: &[u8]) -> (r: Option<(AuditLogEntry, usize)>)
    ensures
        match r {
            Some((e, used)) => {
                &&& 0 < used <= bytes@.len()
                &&& dec_entry(bytes@) == Some((e@, bytes@.skip(used as int)))
            },
            None => dec_entry(bytes@) is None,
        },
{
    let n = bytes.len();
    if n < 9 {
        return None;
    }
    let sign = bytes[0];
    let mag_slice = slice_subrange(bytes, 1, 9);
    proof {
        assert(mag_slice@ =~= bytes@.subrange(1, 9));
    }
    let m = u64_from_le_bytes(mag_slice);
    let ts: i64 = if sign == 0 {
        if m > 9223372036854775807u64 {
            return None;
        }
        m as i64
    } else if sign == 1 {
        if m > 9223372036854775808u64 {
            return None;
        }
        if m == 9223372036854775808u64 {
            i64::MIN
        } else {
            -(m as i64)
        }
    } else {
        return None;
    };
    let ghost r0 = bytes@.skip(9);
    if n < 10 {
        proof {
            assert(r0.len() < 1);
        }
        return None;
    }
    let sev_code = bytes[9];
    proof {
        assert(r0[0] == bytes@[9]);
    }
    let severity = if sev_code == 0 {
        LogSeverity::Info
    } else if sev_code == 1 {
        LogSeverity::Warning
    } else if sev_code == 2 {
        LogSeverity::Error
    } else if sev_code == 3 {
        LogSeverity::Security
    } else {
        return None;
    };
    proof {
        assert(r0.drop_first() =~= bytes@.skip(10));
    }
    let (event_type, p1) = match decode_str_at(bytes, 10) {
        Some(x) => x,
        None => {
            return None;
        },
    };
    let ghost r1 = bytes@.skip(p1 as int);
    if p1 >= n {
        proof {
            assert(r1.len() < 1);
        }
        return None;
    }
    let tag = bytes[p1];
    proof {
        assert(r1[0] == bytes@[p1 as int]);
        assert(r1.drop_first() =~= bytes@.skip(p1 + 1));
    }
    let (user, p2): (Option<String>, usize) = if tag == 0 {
        (None, p1 + 1)
    } else if tag == 1 {
        match decode_str_at(bytes, p1 + 1) {
            Some((u, np)) => (Some(u), np),
            None => {
                return None;
            },
        }
    } else {
        return None;
    };
    let (details, p3) = match decode_str_at(bytes, p2) {
        Some(x) => x,
        None => {
            return None;
        },
    };
    let (source, p4) = match decode_str_at(bytes, p3) {
        Some(x) => x,
        None => {
            return None;
        },
    };
    let entry = AuditLogEntry { timestamp: ts, event_type, user, details, severity, source };
    Some((entry, p4))
}

/// Reads a serialized log back; any malformed byte makes the whole blob
/// unreadable rather than silently truncating the trail.
pub fn decode_entries(bytes: &[u8]) -> (r: Option<Vec<AuditLogEntry>>)
    ensures
        match r {
            Some(v) => dec_entries(bytes@) == Some(views_of(v@)),
            None => dec_entries(bytes@) is None,
        },
    decreases bytes@.len(),
{
    if bytes.len() == 0 {
        let empty: Vec<AuditLogEntry> = Vec::new();
        proof {
            assert(views_of(empty@) =~= Seq::<AuditEntryView>::empty());
        }
        return Some(empty);
    }
    let (entry, used) = match decode_entry_at(bytes) {
        Some(x) => x,
        None => {
            return None;
        },
    };
    let rest = slice_subrange(bytes, used, bytes.len());
    proof {
        assert(rest@ =~= bytes@.skip(used as int));
    }
    let tail = match decode_entries(rest) {
        Some(t) => t,
        None => {
            return None;
        },
    };
    let ghost tail_view = tail@;
    let mut v = tail;
    v.insert(0, entry);
    proof {
        assert(v@.drop_first() =~= tail_view);
        assert(views_of(v@) =~= seq![entry@] + views_of(tail_view));
    }
    Some(v)
}

} // verus!
