use device_notifier::commands::{CommandExecutor, CommandStep};
use device_notifier::config::Config;
use device_notifier::crypto::SecurityManager;
use device_notifier::protocol::{
    canonical_payload, AuthDecision, CommandAuthorizer, CommandType, DenialReason, DiscordCommand,
};
use device_notifier::ratelimit::RateLimiter;
use device_notifier::storage::{LogSeverity, SecureStorage};

fn test_config(secret: Option<&str>, allowed: &[&str]) -> Config {
    let mut config = Config::default();
    config.user_consent.remote_commands_enabled = true;
    config.security.hmac_secret = secret.map(|s| s.to_string());
    config.discord.allowed_users = allowed.iter().map(|u| u.to_string()).collect();
    config
}

fn signed_command(
    security: &SecurityManager,
    kind: CommandType,
    id: &str,
    issuer: &str,
    stamped: i64,
    secret: &str,
) -> DiscordCommand {
    let mut command = DiscordCommand {
        command: kind,
        command_id: id.to_string(),
        authorized_user: issuer.to_string(),
        timestamp: stamped,
        signature: String::new(),
    };
    let payload = canonical_payload(&command);
    command.signature = security.generate_hmac(&payload, secret);
    command
}

#[test]
fn rate_limiter_sliding_window() {
    let mut limiter = RateLimiter::new(2, 60);
    assert!(limiter.can_execute("alice", 1000));
    assert!(limiter.can_execute("alice", 1001));
    assert!(!limiter.can_execute("alice", 1002));
    // Another identity has its own budget.
    assert!(limiter.can_execute("bob", 1002));
    // Once the window has passed, admission resumes.
    assert!(limiter.can_execute("alice", 1061));
}

#[test]
fn authorizer_denies_unlisted_issuer_despite_valid_signature() {
    let security = SecurityManager::new(Config::default());
    let config = test_config(Some("shh"), &["alice"]);
    let command = signed_command(&security, CommandType::Ping, "c1", "mallory", 1000, "shh");
    let authorizer = CommandAuthorizer::new();
    assert_eq!(
        authorizer.validate_command(&security, &command, &config, 1000),
        AuthDecision::Denied(DenialReason::UnauthorizedIssuer)
    );
}

#[test]
fn authorizer_denies_stale_command_despite_valid_signature() {
    let security = SecurityManager::new(Config::default());
    let config = test_config(Some("shh"), &["alice"]);
    let command = signed_command(&security, CommandType::Ping, "c1", "alice", 1000, "shh");
    let authorizer = CommandAuthorizer::new();
    assert_eq!(
        authorizer.validate_command(&security, &command, &config, 1301),
        AuthDecision::Denied(DenialReason::StaleOrFutureTimestamp)
    );
    assert_eq!(
        authorizer.validate_command(&security, &command, &config, 699),
        AuthDecision::Denied(DenialReason::StaleOrFutureTimestamp)
    );
    assert_eq!(
        authorizer.validate_command(&security, &command, &config, 1300),
        AuthDecision::Authorized
    );
}

#[test]
fn authorizer_denies_when_policy_disabled() {
    let security = SecurityManager::new(Config::default());
    let mut config = test_config(None, &[]);
    config.user_consent.remote_commands_enabled = false;
    let command = signed_command(&security, CommandType::Ping, "c1", "alice", 1000, "shh");
    let authorizer = CommandAuthorizer::new();
    assert_eq!(
        authorizer.validate_command(&security, &command, &config, 1000),
        AuthDecision::Denied(DenialReason::PolicyDisabled)
    );
}

#[test]
fn authorizer_denies_bad_signature_and_skips_check_without_secret() {
    let security = SecurityManager::new(Config::default());
    let config = test_config(Some("shh"), &["alice"]);
    let mut command = signed_command(&security, CommandType::Ping, "c1", "alice", 1000, "shh");
    command.signature.push('x');
    let authorizer = CommandAuthorizer::new();
    assert_eq!(
        authorizer.validate_command(&security, &command, &config, 1000),
        AuthDecision::Denied(DenialReason::InvalidSignature)
    );
    // With no secret configured the signature check is an explicit opt-out.
    let open_config = test_config(None, &["alice"]);
    assert_eq!(
        authorizer.validate_command(&security, &command, &open_config, 1000),
        AuthDecision::Authorized
    );
}

#[test]
fn ping_end_to_end_succeeds_and_is_recorded() {
    let security = SecurityManager::new(Config::default());
    let config = test_config(Some("shh"), &["alice"]);
    let command = signed_command(&security, CommandType::Ping, "cmd-1", "alice", 1000, "shh");
    let mut executor = CommandExecutor::new(
        SecurityManager::new(Config::default()),
        SecureStorage::new(),
        Some("machine_user".to_string()),
    );
    let step = executor.execute_command(&command, &config, 1000);
    let response = match step {
        CommandStep::Finished(resp) => resp,
        CommandStep::AwaitingAction(_) => panic!("ping must finish on the spot"),
    };
    assert!(response.success);
    assert_eq!(response.message, "Pong! Device is responsive");
    assert_eq!(response.command_id, "cmd-1");

    let history = executor.get_command_history(None);
    assert_eq!(history.len(), 1);
    assert_eq!(history[0].command_id, "cmd-1");
    assert!(history[0].success);

    let audit = executor.audit_storage().get_audit_logs(None, None);
    assert_eq!(audit.len(), 1);
    assert_eq!(audit[0].event_type, "command_executed");
    assert_eq!(audit[0].severity, LogSeverity::Security);
    assert_eq!(audit[0].user, Some("machine_user".to_string()));
}

#[test]
fn denied_command_gets_failed_response_and_no_quota_spent() {
    let security = SecurityManager::new(Config::default());
    let config = test_config(None, &["alice"]);
    let command = signed_command(&security, CommandType::Ping, "c9", "mallory", 1000, "x");
    let mut executor = CommandExecutor::new(
        SecurityManager::new(Config::default()),
        SecureStorage::new(),
        None,
    );
    let step = executor.execute_command(&command, &config, 1000);
    match step {
        CommandStep::Finished(resp) => {
            assert!(!resp.success);
            assert_eq!(resp.message, "Issuer is not authorized");
        },
        CommandStep::AwaitingAction(_) => panic!("denied command must finish"),
    }
    assert_eq!(executor.get_command_history(None).len(), 1);
}

#[test]
fn rate_limit_denies_eleventh_command_in_window() {
    let config = test_config(None, &["alice"]);
    let mut executor = CommandExecutor::new(
        SecurityManager::new(Config::default()),
        SecureStorage::new(),
        None,
    );
    let security = SecurityManager::new(Config::default());
    let mut last_message = String::new();
    for i in 0..11 {
        let id = format!("cmd-{}", i);
        let command = signed_command(&security, CommandType::Ping, &id, "alice", 1000, "x");
        match executor.execute_command(&command, &config, 1000 + i) {
            CommandStep::Finished(resp) => last_message = resp.message,
            CommandStep::AwaitingAction(_) => panic!("ping must finish"),
        }
    }
    assert_eq!(last_message, "Rate limit exceeded");
}

#[test]
fn lock_command_awaits_platform_action_then_records_outcome() {
    let config = test_config(None, &["alice"]);
    let security = SecurityManager::new(Config::default());
    let command = signed_command(&security, CommandType::Lock, "lock-1", "alice", 50, "x");
    let mut executor = CommandExecutor::new(
        SecurityManager::new(Config::default()),
        SecureStorage::new(),
        None,
    );
    let step = executor.execute_command(&command, &config, 50);
    match step {
        CommandStep::AwaitingAction(kind) => assert_eq!(kind, CommandType::Lock),
        CommandStep::Finished(_) => panic!("lock needs a platform action first"),
    }
    assert_eq!(executor.get_command_history(None).len(), 0);
    let resp = executor.complete_command(&command, 51, true, "Screen locked successfully".to_string());
    assert!(resp.success);
    assert_eq!(executor.get_command_history(None).len(), 1);
}

#[test]
fn resubmitted_command_id_overwrites_history_entry() {
    let config = test_config(None, &["alice"]);
    let security = SecurityManager::new(Config::default());
    let command = signed_command(&security, CommandType::Ping, "same-id", "alice", 10, "x");
    let mut executor = CommandExecutor::new(
        SecurityManager::new(Config::default()),
        SecureStorage::new(),
        None,
    );
    executor.execute_command(&command, &config, 10);
    let command2 = signed_command(&security, CommandType::Ping, "same-id", "alice", 20, "x");
    executor.execute_command(&command2, &config, 20);
    let history = executor.get_command_history(None);
    assert_eq!(history.len(), 1);
    assert_eq!(history[0].timestamp, 20);
}

#[test]
fn stats_count_outcomes_kinds_and_issuers() {
    let config = test_config(None, &["alice", "bob"]);
    let security = SecurityManager::new(Config::default());
    let mut executor = CommandExecutor::new(
        SecurityManager::new(Config::default()),
        SecureStorage::new(),
        None,
    );
    let c1 = signed_command(&security, CommandType::Ping, "a", "alice", 1, "x");
    let c2 = signed_command(&security, CommandType::Ping, "b", "alice", 2, "x");
    let c3 = signed_command(&security, CommandType::Lock, "c", "bob", 3, "x");
    executor.execute_command(&c1, &config, 1);
    executor.execute_command(&c2, &config, 2);
    executor.execute_command(&c3, &config, 3);
    executor.complete_command(&c3, 4, false, "Failed to lock screen".to_string());
    let stats = executor.get_command_stats();
    assert_eq!(stats.total_commands, 3);
    assert_eq!(stats.successful_commands, 2);
    assert_eq!(stats.failed_commands, 1);
    assert_eq!(stats.ping_commands, 2);
    assert_eq!(stats.lock_commands, 1);
    assert_eq!(stats.logout_commands, 0);
    assert_eq!(stats.status_commands, 0);
    let mut users: Vec<(String, usize)> = stats.user_counts.clone();
    users.sort();
    assert_eq!(
        users,
        vec![("alice".to_string(), 2), ("bob".to_string(), 1)]
    );
}

#[test]
fn history_query_is_newest_first_and_capped() {
    let config = test_config(None, &["alice"]);
    let security = SecurityManager::new(Config::default());
    let mut executor = CommandExecutor::new(
        SecurityManager::new(Config::default()),
        SecureStorage::new(),
        None,
    );
    for i in 0..5 {
        let id = format!("n-{}", i);
        let c = signed_command(&security, CommandType::Ping, &id, "alice", i, "x");
        executor.execute_command(&c, &config, i);
    }
    let top2 = executor.get_command_history(Some(2));
    assert_eq!(top2.len(), 2);
    assert_eq!(top2[0].timestamp, 4);
    assert_eq!(top2[1].timestamp, 3);
    executor.clear_command_history();
    assert_eq!(executor.get_command_history(None).len(), 0);
}

#[test]
fn permissions_require_policy_and_listing() {
    let executor = CommandExecutor::new(
        SecurityManager::new(Config::default()),
        SecureStorage::new(),
        None,
    );
    let security = SecurityManager::new(Config::default());
    let command = signed_command(&security, CommandType::Logout, "p", "alice", 0, "x");
    let allowed = test_config(None, &["alice"]);
    assert!(executor.validate_command_permissions(&command, &allowed));
    let unlisted = test_config(None, &["bob"]);
    assert!(!executor.validate_command_permissions(&command, &unlisted));
    let mut disabled = test_config(None, &["alice"]);
    disabled.user_consent.remote_commands_enabled = false;
    assert!(!executor.validate_command_permissions(&command, &disabled));
}

#[test]
fn test_emergency_disable() {
    let mut config = test_config(None, &["alice"]);
    config.features.heartbeat_enabled = true;
    config.emergency_disable();
    assert!(!config.user_consent.remote_commands_enabled);
    assert!(!config.user_consent.telemetry_enabled);
    assert!(!config.user_consent.discord_integration_enabled);
    assert!(!config.features.heartbeat_enabled);
    assert!(!config.features.login_notifications);
    // The audit trail keeps recording.
    assert!(config.features.audit_logging);
}

#[test]
fn test_config_loading() {
    let config = Config::default();
    assert_eq!(config.user_consent.telemetry_enabled, false);
    assert_eq!(config.user_consent.remote_commands_enabled, false);
    assert_eq!(config.features.audit_logging, true);
}

#[test]
fn canonical_payload_concatenates_id_issuer_and_seconds() {
    let command = DiscordCommand {
        command: CommandType::Status,
        command_id: "id7".to_string(),
        authorized_user: "alice".to_string(),
        timestamp: -42,
        signature: String::new(),
    };
    assert_eq!(canonical_payload(&command), "id7alice-42");
}
