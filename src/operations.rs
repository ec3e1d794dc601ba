use vstd::prelude::*;

use crate::address::{same_address, Address};
use crate::address_map::{lemma_map_sum_put, map_sum, put};
use crate::token::{
    approve_relative_result, clamped_delta, approve_result, matches_outcome, transfer_from_result,
    transfer_result, ContractContext, TokenError, TokenState,
};

verus! {

/// Moves `amount` from the caller's balance to `receiver`'s.
///
/// Fails with `InsufficientBalance` when the caller holds less than `amount`,
/// and with `BalanceOverflow` when the credit would overflow. A transfer to
/// oneself leaves the balance as it was. The sum of all balances is kept.
pub fn transfer(
    ctx: ContractContext,
    state: &mut TokenState,
    receiver: Address,
    amount: u128,
) -> (r: Result<(), TokenError>)
    requires
        old(state).wf(),
    ensures
        final(state).wf(),
        matches_outcome(
            transfer_result(old(state)@, ctx.sender, receiver, amount),
            r,
            *old(state),
            *final(state),
        ),
        r is Ok ==> map_sum(final(state)@.balances) == map_sum(old(state)@.balances),
        receiver == ctx.sender && amount <= old(state)@.balance(ctx.sender) ==> r is Ok
            && final(state)@.balance(ctx.sender) == old(state)@.balance(ctx.sender),
{
    let sender = ctx.sender;
    let sender_balance = state.balance_of(&sender);
    if amount > sender_balance {
        return Err(TokenError::InsufficientBalance);
    }
    let new_sender_balance = sender_balance - amount;
    // The receiver's balance as it reads once the sender has been debited.
    let receiver_balance = if same_address(&receiver, &sender) {
        new_sender_balance
    } else {
        state.balance_of(&receiver)
    };
    let new_receiver_balance = match receiver_balance.checked_add(amount) {
        Some(v) => v,
        None => return Err(TokenError::BalanceOverflow),
    };
    let ghost pre = state@.balances;
    state.set_balance(sender, new_sender_balance);
    state.set_balance(receiver, new_receiver_balance);
    proof {
        lemma_map_sum_put(pre, sender, new_sender_balance);
        lemma_map_sum_put(put(pre, sender, new_sender_balance), receiver, new_receiver_balance);
    }
    Ok(())
}

/// Draws `amount` from the allowance `from` gave the caller and credits it to
/// `receiver`. The balance of `from` is left as it is.
///
/// Fails with `InsufficientAllowance` when the allowance is less than `amount`,
/// and with `BalanceOverflow` when the credit would overflow.
pub fn transfer_from(
    ctx: ContractContext,
    state: &mut TokenState,
    from: Address,
    receiver: Address,
    amount: u128,
) -> (r: Result<(), TokenError>)
    requires
        old(state).wf(),
    ensures
        final(state).wf(),
        matches_outcome(
            transfer_from_result(old(state)@, ctx.sender, from, receiver, amount),
            r,
            *old(state),
            *final(state),
        ),
        r is Ok ==> map_sum(final(state)@.balances) == map_sum(old(state)@.balances) + amount,
{
    let caller = ctx.sender;
    let caller_allowance = state.allowance(&from, &caller);
    if amount > caller_allowance {
        return Err(TokenError::InsufficientAllowance);
    }
    let receiver_balance = state.balance_of(&receiver);
    let new_receiver_balance = match receiver_balance.checked_add(amount) {
        Some(v) => v,
        None => return Err(TokenError::BalanceOverflow),
    };
    let ghost pre = state@.balances;
    state.update_allowance(from, caller, caller_allowance - amount);
    state.set_balance(receiver, new_receiver_balance);
    proof {
        lemma_map_sum_put(pre, receiver, new_receiver_balance);
    }
    Ok(())
}

/// Debits `amount` from the caller and sets the allowance of `spender` to it,
/// overwriting any earlier allowance.
///
/// Fails with `InsufficientBalance` when the caller holds less than `amount`.
pub fn approve(
    ctx: ContractContext,
    state: &mut TokenState,
    spender: Address,
    amount: u128,
) -> (r: Result<(), TokenError>)
    requires
        old(state).wf(),
    ensures
        final(state).wf(),
        matches_outcome(
            approve_result(old(state)@, ctx.sender, spender, amount),
            r,
            *old(state),
            *final(state),
        ),
        r is Ok ==> final(state)@.allowance(ctx.sender, spender) == amount,
        r is Ok ==> map_sum(final(state)@.balances) == map_sum(old(state)@.balances) - amount,
{
    let caller = ctx.sender;
    let caller_balance = state.balance_of(&caller);
    if amount > caller_balance {
        return Err(TokenError::InsufficientBalance);
    }
    let ghost pre = state@.balances;
    state.set_balance(caller, caller_balance - amount);
    state.update_allowance(caller, spender, amount);
    proof {
        lemma_map_sum_put(pre, caller, (caller_balance - amount) as u128);
    }
    Ok(())
}

/// Moves the allowance of `spender` by `delta` and the caller's balance by
/// the opposite amount. A decrease that would take the allowance to zero or
/// below is clamped so that exactly the outstanding allowance comes back.
///
/// Fails with `ConversionError` when the balance or the allowance does not fit
/// a signed amount, with `AllowanceOverflow` when the allowance would
/// overflow, and with `BalanceOverflow` when the balance would overflow or go
/// below zero.
pub fn approve_relative(
    ctx: ContractContext,
    state: &mut TokenState,
    spender: Address,
    delta: i128,
) -> (r: Result<(), TokenError>)
    requires
        old(state).wf(),
    ensures
        final(state).wf(),
        matches_outcome(
            approve_relative_result(old(state)@, ctx.sender, spender, delta),
            r,
            *old(state),
            *final(state),
        ),
        r is Ok ==> map_sum(final(state)@.balances) == map_sum(old(state)@.balances)
            - clamped_delta(old(state)@.allowance(ctx.sender, spender) as int, delta),
{
    let caller = ctx.sender;
    let balance = state.balance_of(&caller);
    let allowance = state.allowance(&caller, &spender);
    if balance > i128::MAX as u128 || allowance > i128::MAX as u128 {
        return Err(TokenError::ConversionError);
    }
    let caller_balance = balance as i128;
    let spender_allowance = allowance as i128;
    let mut delta = delta;
    if delta < 0 {
        let abs_delta = if delta == i128::MIN {
            i128::MAX
        } else {
            -delta
        };
        if abs_delta >= spender_allowance {
            delta = -spender_allowance;
        }
    }
    let new_allowance = match spender_allowance.checked_add(delta) {
        Some(v) => v,
        None => return Err(TokenError::AllowanceOverflow),
    };
    if new_allowance < 0 {
        return Err(TokenError::ConversionError);
    }
    let new_balance = match caller_balance.checked_sub(delta) {
        Some(v) => v,
        None => return Err(TokenError::BalanceOverflow),
    };
    if new_balance < 0 {
        return Err(TokenError::BalanceOverflow);
    }
    let ghost pre = state@.balances;
    state.update_allowance(caller, spender, new_allowance as u128);
    state.set_balance(caller, new_balance as u128);
    proof {
        lemma_map_sum_put(pre, caller, new_balance as u128);
    }
    Ok(())
}

} // verus!
