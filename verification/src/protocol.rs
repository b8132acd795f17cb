//! The command wire types and the authorizer that stands between an
//! inbound command and any side effect.
//!
//! A command is executed only when policy allows remote commands at all,
//! its issuer is on the allow-list, its timestamp is fresh, and — when a
//! shared secret is configured — its signature verifies over the canonical
//! payload `command_id ‖ issuer ‖ unix_timestamp`. The checks short-circuit
//! in exactly that order, each with its own denial reason.

use vstd::prelude::*;

use crate::config::Config;
use crate::crypto::{hmac_signature_spec, SecurityManager};
use crate::strutil::str_eq;
use crate::textfmt::{append_i64_dec, dec_int};

verus! {

/// The kinds of command the agent accepts.
#[derive(Debug, Clone, Copy, PartialEq, Eq, Structural)]
pub enum CommandType {
    Lock,
    Logout,
    Ping,
    Status,
}

/// The kinds of outward notification the agent can send.
#[derive(Debug, Clone, Copy, PartialEq, Eq, Structural)]
pub enum EventType {
    Login,
    Logout,
    FailedAuth,
    Heartbeat,
    CommandExecuted,
}

/// One remotely issued command, immutable once received.
#[derive(Debug)]
pub struct DiscordCommand {
    pub command: CommandType,
    pub command_id: String,
    pub authorized_user: String,
    /// Unix seconds at which the issuer stamped the command.
    pub timestamp: i64,
    /// Base64 HMAC signature over the canonical payload.
    pub signature: String,
}

/// The one response every submitted command gets.
#[derive(Debug)]
pub struct CommandResponse {
    pub command_id: String,
    pub success: bool,
    pub message: String,
    pub timestamp: i64,
}

/// Why a command was denied; each reason is its own loggable outcome.
#[derive(Debug, Clone, Copy, PartialEq, Eq, Structural)]
pub enum DenialReason {
    /// Remote command acceptance is switched off.
    PolicyDisabled,
    /// The issuer is not on the allow-list.
    UnauthorizedIssuer,
    /// The command is older than the freshness window allows, or dated
    /// further into the future than clock skew can explain.
    StaleOrFutureTimestamp,
    /// A shared secret is configured and the signature does not verify.
    InvalidSignature,
}

impl DenialReason {
    pub open spec fn message_spec(&self) -> Seq<char> {
        match self {
            DenialReason::PolicyDisabled => "Remote commands are disabled"@,
            DenialReason::UnauthorizedIssuer => "Issuer is not authorized"@,
            DenialReason::StaleOrFutureTimestamp => "Command timestamp is stale or too far in the future"@,
            DenialReason::InvalidSignature => "Invalid command signature"@,
        }
    }

    /// The human-readable denial text carried in responses.
    pub fn message(&self) -> (r: &'static str)
        ensures
            r@ == self.message_spec(),
    {
        match self {
            DenialReason::PolicyDisabled => "Remote commands are disabled",
            DenialReason::UnauthorizedIssuer => "Issuer is not authorized",
            DenialReason::StaleOrFutureTimestamp => "Command timestamp is stale or too far in the future",
            DenialReason::InvalidSignature => "Invalid command signature",
        }
    }
}

/// What the authorizer concludes about one command.
#[derive(Debug, Clone, Copy, PartialEq, Eq, Structural)]
pub enum AuthDecision {
    Authorized,
    Denied(DenialReason),
}

/// How far, in seconds, a command's timestamp may lie from the clock in
/// either direction.
pub open spec fn freshness_window() -> int {
    300
}

/// A timestamp is fresh when it lies within the window around `now`;
/// future-dated commands beyond the window are rejected just like stale
/// ones.
pub open spec fn is_fresh(now: int, stamped: int) -> bool {
    -freshness_window() <= now - stamped <= freshness_window()
}

/// The canonical payload a signature covers: `command_id ‖ issuer ‖
/// unix_timestamp` in decimal seconds. No other field participates.
pub open spec fn canonical_payload_spec(id: Seq<char>, issuer: Seq<char>, stamped: int) -> Seq<
    char,
> {
    id + issuer + dec_int(stamped)
}

/// Membership in the configured allow-list.
pub open spec fn is_allowed_user(users: Seq<String>, user: Seq<char>) -> bool {
    exists|i: int| 0 <= i < users.len() && (#[trigger] users[i])@ == user
}

/// The authorizer's full verdict on a command, in validation order.
pub open spec fn decision_spec(
    id: Seq<char>,
    issuer: Seq<char>,
    stamped: int,
    signature: Seq<char>,
    config: Config,
    now: int,
) -> AuthDecision {
    if !config.user_consent.remote_commands_enabled {
        AuthDecision::Denied(DenialReason::PolicyDisabled)
    } else if !is_allowed_user(config.discord.allowed_users@, issuer) {
        AuthDecision::Denied(DenialReason::UnauthorizedIssuer)
    } else if !is_fresh(now, stamped) {
        AuthDecision::Denied(DenialReason::StaleOrFutureTimestamp)
    } else if match config.security.hmac_secret {
        Some(secret) => signature != hmac_signature_spec(
            canonical_payload_spec(id, issuer, stamped),
            secret@,
        ),
        None => false,
    } {
        AuthDecision::Denied(DenialReason::InvalidSignature)
    } else {
        AuthDecision::Authorized
    }
}

/// Builds the canonical payload of a command.
pub fn canonical_payload(command: &DiscordCommand) -> (r: String)
    ensures
        r@ == canonical_payload_spec(
            command.command_id@,
            command.authorized_user@,
            command.timestamp as int,
        ),
{
    let mut payload = command.command_id.clone();
    payload.append(command.authorized_user.as_str());
    append_i64_dec(&mut payload, command.timestamp);
    payload
}

pub(crate) fn contains_user(users: &Vec<String>, user: &str) -> (r: bool)
    ensures
        r == is_allowed_user(users@, user@),
{
    let n = users.len();
    let mut i: usize = 0;
    while i < n
        invariant
            i <= n,
            n == users@.len(),
            forall|k: int| 0 <= k < i ==> (#[trigger] users@[k])@ != user@,
        decreases n - i,
    {
        if str_eq(users[i].as_str(), user) {
            return true;
        }
        i += 1;
    }
    false
}

/// Validates inbound commands against policy, allow-list, freshness and
/// signature, in that order; the crypto service does the recomputation.
pub struct CommandAuthorizer {}

impl CommandAuthorizer {
    pub fn new() -> CommandAuthorizer {
        CommandAuthorizer {  }
    }

    /// Whether a command's signature verifies under the shared secret;
    /// the signature is recomputed, never compared by the supplier.
    pub fn verify_signature(
        &self,
        security: &SecurityManager,
        command: &DiscordCommand,
        secret: &str,
    ) -> (r: bool)
        ensures
            r == (command.signature@ == hmac_signature_spec(
                canonical_payload_spec(
                    command.command_id@,
                    command.authorized_user@,
                    command.timestamp as int,
                ),
                secret@,
            )),
    {
        let payload = canonical_payload(command);
        security.verify_hmac(payload.as_str(), secret, command.signature.as_str())
    }

    /// The full decision: policy, allow-list, freshness, then signature,
    /// stopping at the first check that fails.
    pub fn validate_command(
        &self,
        security: &SecurityManager,
        command: &DiscordCommand,
        config: &Config,
        now: i64,
    ) -> (r: AuthDecision)
        ensures
            r == decision_spec(
                command.command_id@,
                command.authorized_user@,
                command.timestamp as int,
                command.signature@,
                *config,
                now as int,
            ),
    {
        if !config.user_consent.remote_commands_enabled {
            return AuthDecision::Denied(DenialReason::PolicyDisabled);
        }
        if !contains_user(&config.discord.allowed_users, command.authorized_user.as_str()) {
            return AuthDecision::Denied(DenialReason::UnauthorizedIssuer);
        }
        let diff: i128 = (now as i128) - (command.timestamp as i128);
        if diff > 300 || diff < -300 {
            return AuthDecision::Denied(DenialReason::StaleOrFutureTimestamp);
        }
        match &config.security.hmac_secret {
            Some(secret) => {
                if !self.verify_signature(security, command, secret.as_str()) {
                    return AuthDecision::Denied(DenialReason::InvalidSignature);
                }
            },
            None => {},
        }
        AuthDecision::Authorized
    }

    /// The per-kind extension point: stricter policy for a destructive
    /// kind can be added here without touching the validation order.
    /// Today every kind is permitted once the global checks pass.
    pub fn kind_permitted(&self, kind: CommandType, config: &Config) -> (r: bool)
        ensures
            r == kind_permitted_spec(kind, *config),
    {
        match kind {
            CommandType::Lock => true,
            CommandType::Logout => true,
            CommandType::Ping => true,
            CommandType::Status => true,
        }
    }
}

/// Which kinds the per-kind policy admits; today all of them.
pub open spec fn kind_permitted_spec(kind: CommandType, config: Config) -> bool {
    match kind {
        CommandType::Lock => true,
        CommandType::Logout => true,
        CommandType::Ping => true,
        CommandType::Status => true,
    }
}

/// The display name of a command kind.
pub open spec fn kind_name(kind: CommandType) -> Seq<char> {
    match kind {
        CommandType::Lock => "Lock"@,
        CommandType::Logout => "Logout"@,
        CommandType::Ping => "Ping"@,
        CommandType::Status => "Status"@,
    }
}

impl CommandType {
    /// The kind's display name, as used in audit details and statistics.
    pub fn label(&self) -> (r: &'static str)
        ensures
            r@ == kind_name(*self),
    {
        match self {
            CommandType::Lock => "Lock",
            CommandType::Logout => "Logout",
            CommandType::Ping => "Ping",
            CommandType::Status => "Status",
        }
    }
}

/// The display name of an event type.
pub open spec fn event_name(e: EventType) -> Seq<char> {
    match e {
        EventType::Login => "Login"@,
        EventType::Logout => "Logout"@,
        EventType::FailedAuth => "FailedAuth"@,
        EventType::Heartbeat => "Heartbeat"@,
        EventType::CommandExecuted => "CommandExecuted"@,
    }
}

impl EventType {
    /// The event's display name, as used in audit details.
    pub fn label(&self) -> (r: &'static str)
        ensures
            r@ == event_name(*self),
    {
        match self {
            EventType::Login => "Login",
            EventType::Logout => "Logout",
            EventType::FailedAuth => "FailedAuth",
            EventType::Heartbeat => "Heartbeat",
            EventType::CommandExecuted => "CommandExecuted",
        }
    }
}

} // verus!
