use device_notifier::codec::{decode_entries, encode_entries};
use device_notifier::config::Config;
use device_notifier::crypto::SecurityManager;
use device_notifier::storage::{
    AuditLogEntry, LogSeverity, SecureStorage, StorageError,
};

#[test]
fn test_secure_storage() {
    let mut storage = SecureStorage::new();

    let log_entry = "{\"test\":\"data\",\"timestamp\":\"now\"}";
    storage.log_audit_event("test_event", log_entry, None, 100);

    let logs = storage.get_audit_logs(Some(10), None);
    assert_eq!(logs.len(), 1);
    assert_eq!(logs[0].event_type, "test_event");
}

#[test]
fn severity_follows_fixed_mapping() {
    assert_eq!(AuditLogEntry::determine_severity("login"), LogSeverity::Info);
    assert_eq!(AuditLogEntry::determine_severity("logout"), LogSeverity::Info);
    assert_eq!(
        AuditLogEntry::determine_severity("heartbeat"),
        LogSeverity::Info
    );
    assert_eq!(
        AuditLogEntry::determine_severity("failed_auth"),
        LogSeverity::Warning
    );
    assert_eq!(
        AuditLogEntry::determine_severity("rate_limit_exceeded"),
        LogSeverity::Warning
    );
    assert_eq!(
        AuditLogEntry::determine_severity("command_executed"),
        LogSeverity::Security
    );
    assert_eq!(
        AuditLogEntry::determine_severity("anything_else"),
        LogSeverity::Info
    );
}

#[test]
fn retention_keeps_most_recent_ten_thousand() {
    let mut storage = SecureStorage::new();
    let mut i: i64 = 0;
    while i < 10001 {
        storage.log_audit_event("bulk", "{}", None, i);
        i += 1;
    }
    let logs = storage.get_audit_logs(None, None);
    assert_eq!(logs.len(), 10000);
    // Newest first: the most recent insertion leads, the very first one
    // (timestamp 0) was evicted.
    assert_eq!(logs[0].timestamp, 10000);
    assert_eq!(logs[9999].timestamp, 1);
}

#[test]
fn query_filters_and_limits_newest_first() {
    let mut storage = SecureStorage::new();
    storage.log_audit_event("login", "{}", None, 1);
    storage.log_audit_event("logout", "{}", None, 2);
    storage.log_audit_event("login", "{}", None, 3);
    let logins = storage.get_audit_logs(None, Some("login"));
    assert_eq!(logins.len(), 2);
    assert_eq!(logins[0].timestamp, 3);
    assert_eq!(logins[1].timestamp, 1);
    let capped = storage.get_audit_logs(Some(2), None);
    assert_eq!(capped.len(), 2);
    assert_eq!(capped[0].timestamp, 3);
    assert_eq!(capped[1].timestamp, 2);
}

#[test]
fn export_json_renders_entries_newest_first() {
    let mut storage = SecureStorage::new();
    storage.log_audit_event("test_event", "{}", None, 5);
    let bytes = storage.export_audit_logs("json").unwrap();
    let text = String::from_utf8(bytes).unwrap();
    assert_eq!(
        text,
        "[{\"timestamp\":5,\"event_type\":\"test_event\",\"user\":null,\"details\":{},\
         \"severity\":\"Info\",\"source\":\"agent\"}]"
    );
}

#[test]
fn export_csv_doubles_embedded_quotes() {
    let mut storage = SecureStorage::new();
    storage.log_audit_event(
        "test_event",
        "{\"note\":\"hi\"}",
        Some("alice".to_string()),
        7,
    );
    let bytes = storage.export_audit_logs("CSV").unwrap();
    let text = String::from_utf8(bytes).unwrap();
    let mut lines = text.lines();
    assert_eq!(
        lines.next().unwrap(),
        "Timestamp,Event Type,User,Severity,Source,Details"
    );
    assert_eq!(
        lines.next().unwrap(),
        "\"7\",\"test_event\",\"alice\",\"Info\",\"agent\",\"{\"\"note\"\":\"\"hi\"\"}\""
    );
}

#[test]
fn export_rejects_unknown_format() {
    let storage = SecureStorage::new();
    assert!(storage.export_audit_logs("xml").is_err());
    assert!(storage.export_audit_logs("json").is_ok());
    assert!(storage.export_audit_logs("JSON").is_ok());
}

#[test]
fn clear_empties_the_log() {
    let mut storage = SecureStorage::new();
    storage.log_audit_event("login", "{}", None, 1);
    storage.clear_audit_logs();
    assert_eq!(storage.get_audit_logs(None, None).len(), 0);
    assert_eq!(storage.get_storage_stats().audit_log_entries, 0);
    assert_eq!(storage.get_storage_stats().max_log_entries, 10000);
}

#[test]
fn codec_round_trips_entries() {
    let entries = vec![
        AuditLogEntry {
            timestamp: -3,
            event_type: "login".to_string(),
            user: Some("bob".to_string()),
            details: "{\"k\":1}".to_string(),
            severity: LogSeverity::Warning,
            source: "agent".to_string(),
        },
        AuditLogEntry {
            timestamp: i64::MAX,
            event_type: "".to_string(),
            user: None,
            details: "plain ünïcode".to_string(),
            severity: LogSeverity::Security,
            source: "agent".to_string(),
        },
    ];
    let bytes = encode_entries(&entries);
    let back = decode_entries(&bytes).unwrap();
    assert_eq!(back.len(), 2);
    assert_eq!(back[0].timestamp, -3);
    assert_eq!(back[0].event_type, "login");
    assert_eq!(back[0].user, Some("bob".to_string()));
    assert_eq!(back[0].details, "{\"k\":1}");
    assert_eq!(back[0].severity, LogSeverity::Warning);
    assert_eq!(back[1].timestamp, i64::MAX);
    assert_eq!(back[1].user, None);
    assert_eq!(back[1].details, "plain ünïcode");
}

#[test]
fn decode_rejects_truncated_blob() {
    let entries = vec![AuditLogEntry {
        timestamp: 1,
        event_type: "login".to_string(),
        user: None,
        details: "{}".to_string(),
        severity: LogSeverity::Info,
        source: "agent".to_string(),
    }];
    let mut bytes = encode_entries(&entries);
    bytes.pop();
    assert!(decode_entries(&bytes).is_none());
}

#[test]
fn initialize_without_blob_succeeds() {
    let mut storage = SecureStorage::new();
    let config = Config::default();
    let security = SecurityManager::new(Config::default());
    storage.initialize(config, security, None).unwrap();
    storage.log_audit_event("login", "{}", None, 1);
    assert!(storage.encrypted_snapshot().is_ok());
}

#[test]
fn restore_under_a_fresh_key_is_fatal() {
    // The key lives only in memory, so a blob persisted by an earlier run
    // cannot decrypt under a newly generated key: initialization must
    // refuse to run rather than silently start empty.
    let mut storage = SecureStorage::new();
    storage
        .initialize(Config::default(), SecurityManager::new(Config::default()), None)
        .unwrap();
    storage.log_audit_event("login", "{}", None, 1);
    let blob = storage.encrypted_snapshot().unwrap();

    let mut second = SecureStorage::new();
    let err = second
        .initialize(
            Config::default(),
            SecurityManager::new(Config::default()),
            Some(&blob),
        )
        .unwrap_err();
    assert!(matches!(err, StorageError::Crypto(_)));
}
