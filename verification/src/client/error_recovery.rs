//! When a failed operation is tried again.

use crate::error::MqttError;
use vstd::prelude::*;

verus! {

/// A failure that may pass.
#[derive(Debug, Clone, Copy, PartialEq, Eq, Structural)]
pub enum RecoverableError {
    NetworkError,
    Timeout,
}

/// How often and when a failed operation is tried again. Delays are milliseconds.
#[derive(Debug, Clone, Copy, PartialEq, Eq, Structural)]
pub struct ErrorRecoveryConfig {
    pub max_retries: u32,
    pub initial_retry_delay: u64,
    pub max_retry_delay: u64,
    /// By how much the delay grows with each attempt, in tenths.
    pub backoff_factor_tenths: u32,
}

impl Default for ErrorRecoveryConfig {
    fn default() -> (r: Self)
        ensures
            r == (ErrorRecoveryConfig {
                max_retries: 5,
                initial_retry_delay: 100,
                max_retry_delay: 30_000,
                backoff_factor_tenths: 20,
            }),
    {
        ErrorRecoveryConfig {
            max_retries: 5,
            initial_retry_delay: 100,
            max_retry_delay: 30_000,
            backoff_factor_tenths: 20,
        }
    }
}

/// What may pass of a failure: trouble of the network, and an answer that did not come in time.
/// Everything else fails in the same way again.
pub open spec fn recovery_of(error: MqttError) -> Option<RecoverableError> {
    match error {
        MqttError::ConnectionError(_) | MqttError::Io(_) | MqttError::ConnectionClosedByPeer => Some(
            RecoverableError::NetworkError,
        ),
        MqttError::Timeout => Some(RecoverableError::Timeout),
        _ => None,
    }
}

/// What may pass of a failure, if any retry is allowed at all.
pub fn is_recoverable(error: &MqttError, config: &ErrorRecoveryConfig) -> (r: Option<
    RecoverableError,
>)
    ensures
        r == (if config.max_retries == 0 {
            None
        } else {
            recovery_of(*error)
        }),
{
    if config.max_retries == 0 {
        return None;
    }
    match error {
        MqttError::ConnectionError(_) | MqttError::Io(_) | MqttError::ConnectionClosedByPeer => Some(
            RecoverableError::NetworkError,
        ),
        MqttError::Timeout => Some(RecoverableError::Timeout),
        _ => None,
    }
}

/// The attempts at an operation so far.
#[derive(Debug)]
pub struct RetryState {
    pub attempts: u32,
    pub last_error: Option<MqttError>,
    pub last_kind: Option<RecoverableError>,
}

/// The delay before an attempt: the initial one before the first retry, then grown by the factor
/// with each, and never above the maximum.
pub open spec fn delay_before(config: ErrorRecoveryConfig, attempt: nat) -> int
    decreases attempt,
{
    if attempt <= 1 {
        bounded(config.initial_retry_delay as int, config.max_retry_delay as int)
    } else {
        bounded(
            delay_before(config, (attempt - 1) as nat) * config.backoff_factor_tenths / 10,
            config.max_retry_delay as int,
        )
    }
}

/// A number, or the bound if it is larger.
pub open spec fn bounded(n: int, bound: int) -> int {
    if n < bound {
        n
    } else {
        bound
    }
}

impl RetryState {
    /// Nothing was tried.
    pub fn new() -> (r: Self)
        ensures
            r.attempts == 0,
            r.last_error is None,
            r.last_kind is None,
    {
        RetryState { attempts: 0, last_error: None, last_kind: None }
    }

    /// Whether it may be tried once more.
    pub fn should_retry(&self, config: &ErrorRecoveryConfig) -> (r: bool)
        ensures
            r == (self.attempts < config.max_retries),
    {
        self.attempts < config.max_retries
    }

    /// Records an attempt that failed.
    pub fn record_attempt(&mut self, error: MqttError, kind: RecoverableError)
        ensures
            final(self).attempts == (if old(self).attempts < u32::MAX {
                old(self).attempts + 1
            } else {
                u32::MAX as int
            }),
            final(self).last_error == Some(error),
            final(self).last_kind == Some(kind),
    {
        self.attempts = self.attempts.saturating_add(1);
        self.last_error = Some(error);
        self.last_kind = Some(kind);
    }

    /// How long to wait before the next attempt.
    pub fn next_delay(&self, config: &ErrorRecoveryConfig) -> (r: u64)
        ensures
            r == delay_before(*config, self.attempts as nat),
    {
        let most: u64 = config.max_retry_delay;
        let mut delay: u64 = if config.initial_retry_delay < most {
            config.initial_retry_delay
        } else {
            most
        };
        let mut attempt: u32 = 1;
        while attempt < self.attempts
            invariant
                1 <= attempt,
                attempt <= self.attempts || attempt == 1,
                most == config.max_retry_delay,
                delay <= most,
                delay == delay_before(*config, attempt as nat),
            decreases self.attempts - attempt,
        {
            let factor: u128 = config.backoff_factor_tenths as u128;
            assert(delay * config.backoff_factor_tenths <= 0xFFFF_FFFF_FFFF_FFFF * 0xFFFF_FFFF)
                by (nonlinear_arith)
                requires
                    delay <= 0xFFFF_FFFF_FFFF_FFFF,
                    config.backoff_factor_tenths <= 0xFFFF_FFFF,
            ;
            let grown: u128 = (delay as u128) * factor / 10;
            delay = if grown < most as u128 {
                grown as u64
            } else {
                most
            };
            attempt = attempt + 1;
        }
        delay
    }
}

/// Whatever the settings, a delay is never above the maximum.
pub proof fn law_delay_is_bounded(config: ErrorRecoveryConfig, attempt: nat)
    ensures
        delay_before(config, attempt) <= config.max_retry_delay,
{
}

/// With a factor of at least one, delays never get shorter.
pub proof fn law_delays_never_get_shorter(config: ErrorRecoveryConfig, attempt: nat)
    requires
        config.backoff_factor_tenths >= 10,
        attempt >= 1,
    ensures
        delay_before(config, attempt) <= delay_before(config, attempt + 1),
{
    let delay = delay_before(config, attempt);
    lemma_delay_is_natural(config, attempt);
    assert(delay * config.backoff_factor_tenths >= delay * 10) by (nonlinear_arith)
        requires
            delay >= 0,
            config.backoff_factor_tenths >= 10,
    ;
}

proof fn lemma_delay_is_natural(config: ErrorRecoveryConfig, attempt: nat)
    ensures
        delay_before(config, attempt) >= 0,
    decreases attempt,
{
    if attempt > 1 {
        lemma_delay_is_natural(config, (attempt - 1) as nat);
        let delay = delay_before(config, (attempt - 1) as nat);
        assert(delay * config.backoff_factor_tenths >= 0) by (nonlinear_arith)
            requires
                delay >= 0,
                config.backoff_factor_tenths >= 0,
        ;
    }
}

/// The delays grow: the first is the initial one, and each later one is the one before times the
/// factor, until the maximum is reached; from then on it is the maximum.
pub proof fn law_delays_grow_by_the_factor(config: ErrorRecoveryConfig, attempt: nat)
    requires
        attempt >= 1,
    ensures
        config.initial_retry_delay <= config.max_retry_delay ==> delay_before(config, 1)
            == config.initial_retry_delay,
        ({
            let grown = delay_before(config, attempt) * config.backoff_factor_tenths / 10;
            &&& grown <= config.max_retry_delay ==> delay_before(config, attempt + 1) == grown
            &&& grown > config.max_retry_delay ==> delay_before(config, attempt + 1)
                == config.max_retry_delay
        }),
{
}

/// With a factor of two each delay is twice the one before, up to the maximum.
pub proof fn law_delays_double(config: ErrorRecoveryConfig, attempt: nat)
    requires
        attempt >= 1,
        config.backoff_factor_tenths == 20,
        2 * delay_before(config, attempt) <= config.max_retry_delay,
    ensures
        delay_before(config, attempt + 1) == 2 * delay_before(config, attempt),
{
}

/// Trouble of the network and an answer that did not come may pass; what the server or the protocol
/// refuses does not.
pub proof fn law_only_passing_trouble_is_tried_again(error: MqttError)
    ensures
        recovery_of(error) is Some <==> error is ConnectionError || error is Io || error
            is ConnectionClosedByPeer || error is Timeout,
        recovery_of(error) == Some(RecoverableError::Timeout) <==> error is Timeout,
{
}

} // verus!
