//! How a write reaches the leader of its group, and what becomes of it when it does
//! not.

use vstd::prelude::*;
use vstd::string::*;

use crate::text;
use crate::text::append_number;

verus! {

broadcast use group_string_axioms;

/// How long a node waits until it has applied its own write.
pub const DEFAULT_LOCAL_APPLY_TIMEOUT_MS: u64 = 3000;

/// How often a write is tried.
pub const DEFAULT_FORWARD_MAX_ATTEMPTS: usize = 4;

/// How long the first pause between two tries is.
pub const DEFAULT_FORWARD_INITIAL_BACKOFF_MS: u64 = 50;

/// How long a pause between two tries is at most.
pub const DEFAULT_FORWARD_MAX_BACKOFF_MS: u64 = 500;

/// Why a write failed.
#[derive(Debug, Clone, PartialEq, Eq)]
pub enum OrionSqliteRaftError {
    Unavailable(String),
    NotLeader(String),
    Write(String),
    Transport(String),
    ApplyTimeout(String),
    Internal(String),
}

impl OrionSqliteRaftError {
    /// What the error says.
    pub open spec fn text(&self) -> Seq<char> {
        match self {
            OrionSqliteRaftError::Unavailable(message) => message@,
            OrionSqliteRaftError::NotLeader(message) => message@,
            OrionSqliteRaftError::Write(message) => message@,
            OrionSqliteRaftError::Transport(message) => message@,
            OrionSqliteRaftError::ApplyTimeout(message) => message@,
            OrionSqliteRaftError::Internal(message) => message@,
        }
    }

    /// Whether trying again may help: the leader was not found or not reached.
    pub open spec fn is_retryable(&self) -> bool {
        self is NotLeader || self is Transport
    }

    /// What the error says.
    pub fn to_text(&self) -> (message: String)
        ensures
            message@ == self.text(),
    {
        match self {
            OrionSqliteRaftError::Unavailable(message) => message.clone(),
            OrionSqliteRaftError::NotLeader(message) => message.clone(),
            OrionSqliteRaftError::Write(message) => message.clone(),
            OrionSqliteRaftError::Transport(message) => message.clone(),
            OrionSqliteRaftError::ApplyTimeout(message) => message.clone(),
            OrionSqliteRaftError::Internal(message) => message.clone(),
        }
    }

    /// Whether trying again may help.
    pub fn is_retryable_forwarding_error(&self) -> (retryable: bool)
        ensures
            retryable == self.is_retryable(),
    {
        match self {
            OrionSqliteRaftError::NotLeader(_) => true,
            OrionSqliteRaftError::Transport(_) => true,
            _ => false,
        }
    }

    /// The error with how often an operation was tried, where trying again may have
    /// helped; any other error stays as it is.
    pub fn with_retry_context(self, operation: &str, attempts: usize) -> (error:
        OrionSqliteRaftError)
        ensures
            match self {
                OrionSqliteRaftError::NotLeader(message) => error matches
                    OrionSqliteRaftError::NotLeader(found) && found@ == attempts_message(
                    operation@,
                    " did not find a reachable Raft leader after "@,
                    attempts as nat,
                    message@,
                ),
                OrionSqliteRaftError::Transport(message) => error matches
                    OrionSqliteRaftError::Transport(found) && found@ == attempts_message(
                    operation@,
                    " could not reach the Raft leader after "@,
                    attempts as nat,
                    message@,
                ),
                _ => error == self,
            },
    {
        match self {
            OrionSqliteRaftError::NotLeader(message) => OrionSqliteRaftError::NotLeader(
                attempts_text(
                    operation,
                    " did not find a reachable Raft leader after ",
                    attempts,
                    message.as_str(),
                ),
            ),
            OrionSqliteRaftError::Transport(message) => OrionSqliteRaftError::Transport(
                attempts_text(
                    operation,
                    " could not reach the Raft leader after ",
                    attempts,
                    message.as_str(),
                ),
            ),
            other => other,
        }
    }
}

/// The text of an error with how often an operation was tried.
pub open spec fn attempts_message(
    operation: Seq<char>,
    what: Seq<char>,
    attempts: nat,
    message: Seq<char>,
) -> Seq<char> {
    operation + what + text::number_text(attempts) + " attempt(s): "@ + message
}

fn attempts_text(operation: &str, what: &str, attempts: usize, message: &str) -> (written: String)
    ensures
        written@ == attempts_message(operation@, what@, attempts as nat, message@),
{
    let mut written: String = operation.to_owned();
    written.append(what);
    append_number(&mut written, attempts as u64);
    written.append(" attempt(s): ");
    written.append(message);
    written
}

/// How often a write is tried, and how long the pauses are.
#[derive(Debug, Clone, Copy, PartialEq, Eq, Structural)]
pub struct ForwardRetryPolicy {
    pub max_attempts: usize,
    pub initial_backoff_ms: u64,
    pub max_backoff_ms: u64,
}

impl Default for ForwardRetryPolicy {
    fn default() -> (policy: ForwardRetryPolicy)
        ensures
            policy.max_attempts == DEFAULT_FORWARD_MAX_ATTEMPTS,
            policy.initial_backoff_ms == DEFAULT_FORWARD_INITIAL_BACKOFF_MS,
            policy.max_backoff_ms == DEFAULT_FORWARD_MAX_BACKOFF_MS,
    {
        ForwardRetryPolicy {
            max_attempts: DEFAULT_FORWARD_MAX_ATTEMPTS,
            initial_backoff_ms: DEFAULT_FORWARD_INITIAL_BACKOFF_MS,
            max_backoff_ms: DEFAULT_FORWARD_MAX_BACKOFF_MS,
        }
    }
}

/// The pause after a pause: twice as long, up to a maximum.
pub open spec fn doubled(current: u64, max: u64) -> u64 {
    if 2 * current < max {
        (2 * current) as u64
    } else {
        max
    }
}

/// The pause after a pause.
pub fn next_backoff(current_ms: u64, max_ms: u64) -> (next: u64)
    ensures
        next == doubled(current_ms, max_ms),
{
    if current_ms > u64::MAX / 2 {
        return max_ms;
    }
    let twice: u64 = 2 * current_ms;
    if twice < max_ms {
        twice
    } else {
        max_ms
    }
}

/// What follows a try that failed.
#[derive(Debug, Clone, PartialEq, Eq)]
pub enum RetryStep {
    /// Try again after a pause; the next pause is `next_ms`.
    Wait { wait_ms: u64, next_ms: u64 },
    /// Give up.
    Fail(OrionSqliteRaftError),
}

impl ForwardRetryPolicy {
    /// How often a write is tried: at least once.
    pub open spec fn attempts(&self) -> usize {
        if self.max_attempts == 0 {
            1
        } else {
            self.max_attempts
        }
    }

    /// Decides what follows the try with this number, counted from one, when it
    /// failed and the pause would be `backoff_ms`.
    pub fn after_failure(&self, attempt: usize, backoff_ms: u64, error: OrionSqliteRaftError) -> (step:
        RetryStep)
        ensures
            step == if attempt < self.attempts() && error.is_retryable() {
                RetryStep::Wait {
                    wait_ms: backoff_ms,
                    next_ms: doubled(backoff_ms, self.max_backoff_ms),
                }
            } else {
                RetryStep::Fail(error)
            },
            step matches RetryStep::Fail(given) ==> given == error,
            1 <= attempt && self.max_attempts <= attempt ==> step is Fail,
            match step {
                RetryStep::Wait { wait_ms, next_ms } => {
                    &&& wait_ms == backoff_ms && next_ms <= self.max_backoff_ms
                    &&& error is NotLeader || error is Transport
                },
                RetryStep::Fail(_) => true,
            },
    {
        let max_attempts: usize = if self.max_attempts == 0 {
            1
        } else {
            self.max_attempts
        };
        if attempt < max_attempts && error.is_retryable_forwarding_error() {
            RetryStep::Wait {
                wait_ms: backoff_ms,
                next_ms: next_backoff(backoff_ms, self.max_backoff_ms),
            }
        } else {
            RetryStep::Fail(error)
        }
    }
}

/// What a node knows of the leader of its group.
#[derive(Debug, Clone, PartialEq, Eq)]
pub struct LeaderHint {
    pub leader_id: Option<u64>,
    pub leader_addr: Option<String>,
}

/// The address of the leader, where one is known.
pub open spec fn known_address(hint: LeaderHint) -> Option<Seq<char>> {
    match hint.leader_addr {
        Some(addr) if addr@.len() > 0 => Some(addr@),
        _ => None,
    }
}

/// What the refusal of a node that does not lead says.
pub open spec fn not_leader_message(hint: LeaderHint) -> Seq<char> {
    "this node is not the Raft leader and could not forward the request; "@ + match (
        hint.leader_id,
        known_address(hint),
    ) {
        (Some(id), Some(addr)) => "leader is node "@ + text::number_text(id as nat) + " at "@
            + addr,
        (Some(id), None) => "leader is node "@ + text::number_text(id as nat)
            + ", but no leader address is known"@,
        _ => "leader is not known yet"@,
    }
}

/// The refusal of a node that does not lead.
pub fn not_leader_error(hint: &LeaderHint) -> (error: OrionSqliteRaftError)
    ensures
        error matches OrionSqliteRaftError::NotLeader(message) && message@ == not_leader_message(
            *hint,
        ),
{
    let mut message: String =
        "this node is not the Raft leader and could not forward the request; ".to_owned();
    let mut leader: String = String::new();
    match hint.leader_id {
        None => {
            leader.append("leader is not known yet");
        },
        Some(id) => {
            leader.append("leader is node ");
            append_number(&mut leader, id);
            let mut known = false;
            if let Some(addr) = &hint.leader_addr {
                if !addr.as_str().is_empty() {
                    leader.append(" at ");
                    leader.append(addr.as_str());
                    known = true;
                }
            }
            if !known {
                leader.append(", but no leader address is known");
            }
        },
    }
    proof {
        assert(leader@ =~= match (hint.leader_id, known_address(*hint)) {
            (Some(id), Some(addr)) => "leader is node "@ + text::number_text(id as nat) + " at "@
                + addr,
            (Some(id), None) => "leader is node "@ + text::number_text(id as nat)
                + ", but no leader address is known"@,
            _ => "leader is not known yet"@,
        });
    }
    message.append(leader.as_str());
    OrionSqliteRaftError::NotLeader(message)
}

/// Where a write has to be forwarded to.
pub fn leader_endpoint(hint: &LeaderHint) -> (endpoint: Result<String, OrionSqliteRaftError>)
    ensures
        match known_address(*hint) {
            Some(addr) => endpoint matches Ok(found) && found@ == addr,
            None => endpoint matches Err(OrionSqliteRaftError::NotLeader(message)) && message@
                == not_leader_message(*hint),
        },
{
    if let Some(addr) = &hint.leader_addr {
        if !addr.as_str().is_empty() {
            return Ok(addr.clone());
        }
    }
    Err(not_leader_error(hint))
}

/// The error of a write that its group refused: where the group points to its leader,
/// that this node does not lead, else what the group says.
pub fn client_write_error(forward: &Option<LeaderHint>, refusal: &str) -> (error:
    OrionSqliteRaftError)
    ensures
        match *forward {
            Some(hint) => error matches OrionSqliteRaftError::NotLeader(message) && message@
                == not_leader_message(hint),
            None => error matches OrionSqliteRaftError::Write(message) && message@ == refusal@,
        },
{
    match forward {
        Some(hint) => not_leader_error(hint),
        None => OrionSqliteRaftError::Write(refusal.to_owned()),
    }
}

/// The error of a write that did not reach the leader.
pub fn forward_transport_error(error: &str) -> (mapped: OrionSqliteRaftError)
    ensures
        mapped matches OrionSqliteRaftError::Transport(message) && message@
            == "failed to forward write to Raft leader: "@ + error@,
{
    let mut message: String = "failed to forward write to Raft leader: ".to_owned();
    message.append(error);
    OrionSqliteRaftError::Transport(message)
}

/// The error of a write in a process that runs no node.
pub fn no_raft_node_error() -> (error: OrionSqliteRaftError)
    ensures
        error matches OrionSqliteRaftError::Unavailable(message) && message@
            == "Raft writes are unavailable because this process has no Raft node"@,
{
    OrionSqliteRaftError::Unavailable(
        "Raft writes are unavailable because this process has no Raft node".to_owned(),
    )
}

/// The error of a write that was committed but not applied here in time.
pub fn apply_timeout_error(error: &str) -> (mapped: OrionSqliteRaftError)
    ensures
        mapped matches OrionSqliteRaftError::ApplyTimeout(message) && message@
            == "write committed but this node did not apply it before returning to SQLite: "@
            + error@,
{
    let mut message: String =
        "write committed but this node did not apply it before returning to SQLite: ".to_owned();
    message.append(error);
    OrionSqliteRaftError::ApplyTimeout(message)
}

/// The pause before the try with this number, counted from zero for the second try.
pub open spec fn nth_pause(policy: ForwardRetryPolicy, n: nat) -> u64
    decreases n,
{
    if n == 0 {
        policy.initial_backoff_ms
    } else {
        doubled(nth_pause(policy, (n - 1) as nat), policy.max_backoff_ms)
    }
}

/// Pauses never shrink below the first one unless the maximum does, and no pause but
/// the first is longer than the maximum.
pub proof fn law_pauses_are_bounded(policy: ForwardRetryPolicy, n: nat)
    ensures
        n > 0 ==> nth_pause(policy, n) <= policy.max_backoff_ms,
        policy.initial_backoff_ms <= policy.max_backoff_ms ==> nth_pause(policy, n)
            >= policy.initial_backoff_ms,
    decreases n,
{
    if n > 0 {
        law_pauses_are_bounded(policy, (n - 1) as nat);
    }
}

} // verus!
