//! Agent configuration: consent flags, notifier settings, feature toggles,
//! security policy and device identity.
//!
//! Loading and saving the configuration file is I/O and lives outside the
//! library; here the configuration is plain data with its defaults and the
//! emergency kill-switch transition.

use vstd::prelude::*;

verus! {

/// What the device owner has consented to. Everything defaults to off.
#[derive(Debug, Clone)]
pub struct UserConsent {
    pub telemetry_enabled: bool,
    pub remote_commands_enabled: bool,
    pub discord_integration_enabled: bool,
    /// Unix seconds of the moment consent was given, if it ever was.
    pub consent_timestamp: Option<i64>,
    pub consent_version: String,
}

/// Settings for the outbound notifier channel.
#[derive(Debug, Clone)]
pub struct DiscordConfig {
    pub bot_token: Option<String>,
    pub channel_id: Option<String>,
    pub webhook_url: Option<String>,
    pub allowed_users: Vec<String>,
    pub allowed_roles: Vec<String>,
}

/// Feature toggles for notifications and auditing.
#[derive(Debug, Clone)]
pub struct FeatureConfig {
    pub login_notifications: bool,
    pub logout_notifications: bool,
    pub failed_auth_notifications: bool,
    pub heartbeat_enabled: bool,
    pub audit_logging: bool,
}

/// Security policy knobs.
#[derive(Debug, Clone)]
pub struct SecurityConfig {
    pub hmac_secret: Option<String>,
    pub command_timeout_seconds: u64,
    pub max_commands_per_minute: u32,
    pub require_local_auth_for_critical: bool,
}

/// Per-application policy rule.
#[derive(Debug, Clone)]
pub struct AppRule {
    pub requires_remote_password: bool,
    pub requires_local_password: bool,
    pub blocked: bool,
    pub custom_message: Option<String>,
}

/// Identity of the device this agent runs on.
#[derive(Debug, Clone)]
pub struct DeviceConfig {
    pub alias: String,
    pub device_id: String,
    pub platform: String,
    pub version: String,
}

/// The whole agent configuration.
#[derive(Debug, Clone)]
pub struct Config {
    pub user_consent: UserConsent,
    pub discord: DiscordConfig,
    pub features: FeatureConfig,
    pub security: SecurityConfig,
    pub app_rules: Vec<(String, AppRule)>,
    pub device: DeviceConfig,
}

impl Default for Config {
    /// The configuration used before any file has been loaded: everything
    /// that reaches outside the machine is off, auditing and heartbeat are
    /// on, and the rate budget is ten commands per minute.
    fn default() -> (r: Config)
        ensures
            !r.user_consent.telemetry_enabled,
            !r.user_consent.remote_commands_enabled,
            !r.user_consent.discord_integration_enabled,
            r.user_consent.consent_timestamp is None,
            !r.features.login_notifications,
            !r.features.logout_notifications,
            !r.features.failed_auth_notifications,
            r.features.heartbeat_enabled,
            r.features.audit_logging,
            r.security.hmac_secret is None,
            r.security.command_timeout_seconds == 30,
            r.security.max_commands_per_minute == 10,
            r.security.require_local_auth_for_critical,
            r.discord.bot_token is None,
            r.discord.channel_id is None,
            r.discord.webhook_url is None,
            r.discord.allowed_users@.len() == 0,
            r.discord.allowed_roles@.len() == 0,
            r.app_rules@.len() == 0,
    {
        Config {
            user_consent: UserConsent {
                telemetry_enabled: false,
                remote_commands_enabled: false,
                discord_integration_enabled: false,
                consent_timestamp: None,
                consent_version: "1.0".to_owned(),
            },
            discord: DiscordConfig {
                bot_token: None,
                channel_id: None,
                webhook_url: None,
                allowed_users: Vec::new(),
                allowed_roles: Vec::new(),
            },
            features: FeatureConfig {
                login_notifications: false,
                logout_notifications: false,
                failed_auth_notifications: false,
                heartbeat_enabled: true,
                audit_logging: true,
            },
            security: SecurityConfig {
                hmac_secret: None,
                command_timeout_seconds: 30,
                max_commands_per_minute: 10,
                require_local_auth_for_critical: true,
            },
            app_rules: Vec::new(),
            device: DeviceConfig {
                alias: "Unknown Device".to_owned(),
                device_id: "unknown".to_owned(),
                platform: "unknown".to_owned(),
                version: "0.1.0".to_owned(),
            },
        }
    }
}

impl Config {
    /// The kill switch: withdraws every consent and notification feature in
    /// one step. Audit logging deliberately stays as it was, so the trail
    /// keeps recording. Writing the on-disk marker that makes the
    /// disablement stick across restarts is the caller's job.
    pub fn emergency_disable(&mut self)
        ensures
            !final(self).user_consent.telemetry_enabled,
            !final(self).user_consent.remote_commands_enabled,
            !final(self).user_consent.discord_integration_enabled,
            !final(self).features.login_notifications,
            !final(self).features.logout_notifications,
            !final(self).features.failed_auth_notifications,
            !final(self).features.heartbeat_enabled,
            final(self).features.audit_logging == old(self).features.audit_logging,
            final(self).user_consent.consent_timestamp
                == old(self).user_consent.consent_timestamp,
            final(self).user_consent.consent_version == old(self).user_consent.consent_version,
            final(self).discord == old(self).discord,
            final(self).security == old(self).security,
            final(self).app_rules == old(self).app_rules,
            final(self).device == old(self).device,
    {
        self.user_consent.telemetry_enabled = false;
        self.user_consent.remote_commands_enabled = false;
        self.user_consent.discord_integration_enabled = false;
        self.features.login_notifications = false;
        self.features.logout_notifications = false;
        self.features.failed_auth_notifications = false;
        self.features.heartbeat_enabled = false;
    }
}

} // verus!
