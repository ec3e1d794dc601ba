use vstd::prelude::*;

use crate::address::Address;
use crate::address_map::{
    amount_of, lemma_map_sum_empty, lemma_map_sum_put, map_sum, no_zero_entries, put,
};
use crate::token::{
    approve_relative_result, approve_result, clamped_delta, transfer_from_result, transfer_result,
    TokenError,
    TokenView,
};

verus! {

/// Writing a balance or an allowance keeps a sparse state sparse.
pub proof fn lemma_writes_keep_sparse(s: TokenView, owner: Address, spender: Address, v: u128)
    requires
        s.sparse(),
    ensures
        s.with_balance(owner, v).sparse(),
        s.with_allowance(owner, spender, v).sparse(),
{
    let t = s.with_allowance(owner, spender, v);
    assert forall|o: Address| #[trigger] t.allowed.contains_key(o) implies
        no_zero_entries(t.allowed[o]) by {
        if o != owner {
            assert(s.allowed.contains_key(o));
        }
    }
}

/// Every operation that succeeds on a state with no zero entries yields a
/// state with no zero entries.
pub proof fn lemma_operations_keep_sparse(
    s: TokenView,
    caller: Address,
    other: Address,
    receiver: Address,
    amount: u128,
    delta: i128,
)
    requires
        s.sparse(),
    ensures
        transfer_result(s, caller, receiver, amount) is Ok
            ==> (transfer_result(s, caller, receiver, amount)->Ok_0).sparse(),
        transfer_from_result(s, caller, other, receiver, amount) is Ok
            ==> (transfer_from_result(s, caller, other, receiver, amount)->Ok_0).sparse(),
        approve_result(s, caller, other, amount) is Ok
            ==> (approve_result(s, caller, other, amount)->Ok_0).sparse(),
        approve_relative_result(s, caller, other, delta) is Ok
            ==> (approve_relative_result(s, caller, other, delta)->Ok_0).sparse(),
{
    let b = s.balance(caller);
    if amount <= b {
        let d = s.with_balance(caller, (b - amount) as u128);
        lemma_writes_keep_sparse(s, caller, other, (b - amount) as u128);
        lemma_writes_keep_sparse(d, receiver, other, (d.balance(receiver) + amount) as u128);
        lemma_writes_keep_sparse(d, caller, other, amount);
    }
    let a = s.allowance(other, caller);
    if amount <= a {
        let d = s.with_allowance(other, caller, (a - amount) as u128);
        lemma_writes_keep_sparse(s, other, caller, (a - amount) as u128);
        lemma_writes_keep_sparse(d, receiver, caller, (d.balance(receiver) + amount) as u128);
    }
    if approve_relative_result(s, caller, other, delta) is Ok {
        let bi = b as int;
        let ai = s.allowance(caller, other) as int;
        let dd = clamped_delta(ai, delta);
        let d = s.with_allowance(caller, other, (ai + dd) as u128);
        lemma_writes_keep_sparse(s, caller, other, (ai + dd) as u128);
        lemma_writes_keep_sparse(d, caller, other, (bi - dd) as u128);
    }
}

/// A transfer of more than the sender holds is rejected with
/// `InsufficientBalance`.
pub proof fn lemma_transfer_over_balance_rejected(
    s: TokenView,
    sender: Address,
    receiver: Address,
    amount: u128,
)
    requires
        amount > s.balance(sender),
    ensures
        transfer_result(s, sender, receiver, amount) == Err::<TokenView, TokenError>(
            TokenError::InsufficientBalance,
        ),
{
}

/// A transfer to oneself of no more than one holds succeeds and leaves one's
/// balance as it was; on a state with no zero entries it changes nothing.
pub proof fn lemma_self_transfer_neutral(s: TokenView, a: Address, amount: u128)
    requires
        amount <= s.balance(a),
    ensures
        transfer_result(s, a, a, amount) is Ok,
        (transfer_result(s, a, a, amount)->Ok_0).balance(a) == s.balance(a),
        s.sparse() ==> transfer_result(s, a, a, amount) == Ok::<TokenView, TokenError>(s),
{
    if s.sparse() {
        let t = transfer_result(s, a, a, amount)->Ok_0;
        assert(t.balances =~= s.balances);
        assert(t == s);
    }
}

/// Approving twice overwrites: the allowance afterwards is the second amount,
/// whatever the first one was.
pub proof fn lemma_approve_overwrites(
    s: TokenView,
    caller: Address,
    spender: Address,
    first: u128,
    second: u128,
)
    requires
        approve_result(s, caller, spender, first) is Ok,
        approve_result(approve_result(s, caller, spender, first)->Ok_0, caller, spender, second) is Ok,
    ensures
        (approve_result(
            approve_result(s, caller, spender, first)->Ok_0,
            caller,
            spender,
            second,
        )->Ok_0).allowance(caller, spender) == second,
{
}

/// Writing a zero amount removes the entry, and reading it back gives zero.
pub proof fn lemma_zero_write_round_trip(m: Map<Address, u128>, a: Address)
    ensures
        !put(m, a, 0).contains_key(a),
        amount_of(put(m, a, 0), a) == 0,
{
}

/// At creation the balances sum to the supply credited to the creator.
pub proof fn lemma_genesis_balance_sum(creator: Address, supply: u128)
    ensures
        map_sum(put(Map::empty(), creator, supply)) == supply,
{
    lemma_map_sum_empty();
    lemma_map_sum_put(Map::empty(), creator, supply);
}

/// A transfer that succeeds keeps the sum of the balances, so a state reached
/// from creation by transfers alone holds exactly the supply.
pub proof fn lemma_transfer_keeps_balance_sum(
    s: TokenView,
    sender: Address,
    receiver: Address,
    amount: u128,
)
    requires
        s.balances.dom().finite(),
        transfer_result(s, sender, receiver, amount) is Ok,
    ensures
        map_sum((transfer_result(s, sender, receiver, amount)->Ok_0).balances) == map_sum(
            s.balances,
        ),
{
    let b = s.balance(sender);
    let debited = put(s.balances, sender, (b - amount) as u128);
    lemma_map_sum_put(s.balances, sender, (b - amount) as u128);
    lemma_map_sum_put(debited, receiver, (amount_of(debited, receiver) + amount) as u128);
}

} // verus!
