//! Vault bookkeeping and agent gating.
//!
//! The ledger-side collaborator of the signing core: deposits and
//! withdrawals with checked balance arithmetic, and the risk-score and
//! time-window gate an agent must pass before a withdrawal is executed.
//! Time enters only as an argument; the caller supplies the clock.

use vstd::prelude::*;

verus! {

/// The highest risk score at which execution stays enabled.
pub const RISK_LIMIT: u8 = 80;

/// The width, in seconds, of the window since the last action within
/// which a gated withdrawal is allowed.
pub const ACTION_WINDOW_SECONDS: i64 = 3600;

/// Why a vault operation was rejected.
#[derive(Clone, Copy, PartialEq, Eq, Structural, Debug)]
pub enum ErrorCode {
    /// The balance does not cover the amount.
    InsufficientFunds,
    /// The caller does not own the vault or agent.
    Unauthorized,
    /// A risk score above one hundred.
    InvalidRiskScore,
    /// The agent's execution flag is off.
    ExecutionBlocked,
    /// The last action lies outside the allowed window.
    ExecutionTimeout,
    /// The agent's risk score is too high.
    HighRisk,
    /// The deposit would overflow the balance.
    Overflow,
    /// The withdrawal would underflow the balance.
    Underflow,
}

/// A vault holding one owner's balance.
pub struct Vault {
    /// The owner's identifier.
    pub owner: u64,
    /// The tracked balance.
    pub balance: u64,
}

/// The gating state of one agent.
pub struct AgentState {
    /// The owner's identifier.
    pub owner: u64,
    /// The agent's current risk score, at most one hundred.
    pub risk_score: u8,
    /// Whether the agent may execute withdrawals.
    pub execution_enabled: bool,
    /// When the agent last acted, in seconds.
    pub last_action_timestamp: i64,
}

/// A fresh vault with a zero balance.
pub fn initialize_vault(owner: u64) -> (v: Vault)
    ensures
        v.owner == owner,
        v.balance == 0,
{
    Vault { owner, balance: 0 }
}

/// Fresh agent state: a middling risk score and execution enabled.
pub fn initialize_agent(owner: u64, now: i64) -> (st: AgentState)
    ensures
        st.owner == owner,
        st.risk_score == 50,
        st.execution_enabled,
        st.last_action_timestamp == now,
{
    AgentState { owner, risk_score: 50, execution_enabled: true, last_action_timestamp: now }
}

impl Vault {
    /// Credits the owner's deposit. Only the owner may deposit, and a
    /// deposit that would overflow the balance is rejected unapplied.
    pub fn deposit(&mut self, caller: u64, amount: u64) -> (res: Result<(), ErrorCode>)
        ensures
            final(self).owner == old(self).owner,
            old(self).owner != caller ==> res == Err::<(), ErrorCode>(ErrorCode::Unauthorized)
                && final(self).balance == old(self).balance,
            old(self).owner == caller && old(self).balance + amount > u64::MAX ==> res == Err::<
                (),
                ErrorCode,
            >(ErrorCode::Overflow) && final(self).balance == old(self).balance,
            old(self).owner == caller && old(self).balance + amount <= u64::MAX ==> res == Ok::<
                (),
                ErrorCode,
            >(()) && final(self).balance == old(self).balance + amount,
    {
        if self.owner != caller {
            return Err(ErrorCode::Unauthorized);
        }
        match self.balance.checked_add(amount) {
            Some(b) => {
                self.balance = b;
                Ok(())
            },
            None => Err(ErrorCode::Overflow),
        }
    }

    /// Pays out to the owner. Only the owner may withdraw, and only up
    /// to the balance.
    pub fn withdraw(&mut self, caller: u64, amount: u64) -> (res: Result<(), ErrorCode>)
        ensures
            final(self).owner == old(self).owner,
            old(self).owner != caller ==> res == Err::<(), ErrorCode>(ErrorCode::Unauthorized)
                && final(self).balance == old(self).balance,
            old(self).owner == caller && old(self).balance < amount ==> res == Err::<
                (),
                ErrorCode,
            >(ErrorCode::InsufficientFunds) && final(self).balance == old(self).balance,
            old(self).owner == caller && old(self).balance >= amount ==> res == Ok::<
                (),
                ErrorCode,
            >(()) && final(self).balance == old(self).balance - amount,
    {
        if self.owner != caller {
            return Err(ErrorCode::Unauthorized);
        }
        if self.balance < amount {
            return Err(ErrorCode::InsufficientFunds);
        }
        self.balance = self.balance - amount;
        Ok(())
    }
}

impl AgentState {
    /// Records a new risk evaluation: scores above one hundred are
    /// invalid, only the owner may update, and execution stays enabled
    /// exactly while the score is within the risk limit.
    pub fn evaluate_agent_action(&mut self, caller: u64, risk_score: u8) -> (res: Result<
        (),
        ErrorCode,
    >)
        ensures
            final(self).owner == old(self).owner,
            final(self).last_action_timestamp == old(self).last_action_timestamp,
            risk_score > 100 ==> res == Err::<(), ErrorCode>(ErrorCode::InvalidRiskScore) && *final(self) == *old(self),
            risk_score <= 100 && old(self).owner != caller ==> res == Err::<(), ErrorCode>(
                ErrorCode::Unauthorized,
            ) && *final(self) == *old(self),
            risk_score <= 100 && old(self).owner == caller ==> res == Ok::<(), ErrorCode>(())
                && final(self).risk_score == risk_score && final(self).execution_enabled == (
            risk_score <= RISK_LIMIT),
    {
        if risk_score > 100 {
            return Err(ErrorCode::InvalidRiskScore);
        }
        if self.owner != caller {
            return Err(ErrorCode::Unauthorized);
        }
        self.risk_score = risk_score;
        self.execution_enabled = risk_score <= RISK_LIMIT;
        Ok(())
    }
}

/// A withdrawal gated on the agent's state: the caller must own the
/// agent, execution must be enabled, the risk score within the limit,
/// the last action within the time window, and the balance sufficient.
/// On success the balance drops and the action timestamp moves to now.
pub fn gated_withdraw(
    vault: &mut Vault,
    state: &mut AgentState,
    caller: u64,
    amount: u64,
    now: i64,
) -> (res: Result<(), ErrorCode>)
    requires
        i64::MIN <= now - old(state).last_action_timestamp <= i64::MAX,
    ensures
        final(vault).owner == old(vault).owner,
        final(state).owner == old(state).owner,
        final(state).risk_score == old(state).risk_score,
        final(state).execution_enabled == old(state).execution_enabled,
        old(state).owner != caller ==> res == Err::<(), ErrorCode>(ErrorCode::Unauthorized)
            && *final(vault) == *old(vault) && *final(state) == *old(state),
        old(state).owner == caller && !old(state).execution_enabled ==> res == Err::<
            (),
            ErrorCode,
        >(ErrorCode::ExecutionBlocked) && *final(vault) == *old(vault) && *final(state) == *old(state),
        old(state).owner == caller && old(state).execution_enabled && old(state).risk_score
            > RISK_LIMIT ==> res == Err::<(), ErrorCode>(ErrorCode::HighRisk) && *final(vault)
            == *old(vault) && *final(state) == *old(state),
        old(state).owner == caller && old(state).execution_enabled && old(state).risk_score
            <= RISK_LIMIT && now - old(state).last_action_timestamp >= ACTION_WINDOW_SECONDS
            ==> res == Err::<(), ErrorCode>(ErrorCode::ExecutionTimeout) && *final(vault) == *old(vault) && *final(state) == *old(state),
        old(state).owner == caller && old(state).execution_enabled && old(state).risk_score
            <= RISK_LIMIT && now - old(state).last_action_timestamp < ACTION_WINDOW_SECONDS
            && old(vault).balance < amount ==> res == Err::<(), ErrorCode>(
            ErrorCode::InsufficientFunds,
        ) && *final(vault) == *old(vault) && *final(state) == *old(state),
        old(state).owner == caller && old(state).execution_enabled && old(state).risk_score
            <= RISK_LIMIT && now - old(state).last_action_timestamp < ACTION_WINDOW_SECONDS
            && old(vault).balance >= amount ==> res == Ok::<(), ErrorCode>(()) && final(vault).balance == old(vault).balance - amount && final(state).last_action_timestamp == now,
{
    if state.owner != caller {
        return Err(ErrorCode::Unauthorized);
    }
    if !state.execution_enabled {
        return Err(ErrorCode::ExecutionBlocked);
    }
    if state.risk_score > RISK_LIMIT {
        return Err(ErrorCode::HighRisk);
    }
    if now - state.last_action_timestamp >= ACTION_WINDOW_SECONDS {
        return Err(ErrorCode::ExecutionTimeout);
    }
    if vault.balance < amount {
        return Err(ErrorCode::InsufficientFunds);
    }
    vault.balance = vault.balance - amount;
    state.last_action_timestamp = now;
    Ok(())
}

} // verus!
