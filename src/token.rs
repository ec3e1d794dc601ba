use vstd::prelude::*;

use crate::address::{same_address, Address};
use crate::address_map::{amount_of, map_sum, no_zero_entries, put, AddressMap};

verus! {

/// Why an operation was rejected. A rejected operation changes nothing.
#[derive(Clone, Copy, Debug, PartialEq, Eq, Structural)]
pub enum TokenError {
    /// The caller's balance is less than the amount to debit.
    InsufficientBalance,
    /// The allowance is less than the amount to draw.
    InsufficientAllowance,
    /// A balance would leave the range of its representation.
    BalanceOverflow,
    /// An allowance would leave the range of its representation.
    AllowanceOverflow,
    /// A signed/unsigned conversion was out of range.
    ConversionError,
}

/// What the host tells an operation about its invocation.
#[derive(Clone, Copy, Debug)]
pub struct ContractContext {
    /// The authenticated address of the caller.
    pub sender: Address,
}

/// The persisted state of the token.
pub struct TokenState {
    total_supply: u128,
    name: String,
    symbol: String,
    balances: AddressMap<u128>,
    allowed: AddressMap<AddressMap<u128>>,
    decimals: u8,
    owner: Address,
}

/// The mathematical content of a `TokenState`.
pub struct TokenView {
    pub total_supply: u128,
    pub name: Seq<char>,
    pub symbol: Seq<char>,
    pub decimals: u8,
    pub owner: Address,
    pub balances: Map<Address, u128>,
    pub allowed: Map<Address, Map<Address, u128>>,
}

impl TokenView {
    /// The balance of `a`; an address without an entry holds zero.
    pub open spec fn balance(self, a: Address) -> u128 {
        amount_of(self.balances, a)
    }

    /// What `owner` allows `spender` to draw; zero through either missing level.
    pub open spec fn allowance(self, owner: Address, spender: Address) -> u128 {
        if self.allowed.contains_key(owner) {
            amount_of(self.allowed[owner], spender)
        } else {
            0
        }
    }

    /// No balance and no allowance is stored as zero.
    pub open spec fn sparse(self) -> bool {
        &&& no_zero_entries(self.balances)
        &&& forall|o: Address| #[trigger]
            self.allowed.contains_key(o) ==> no_zero_entries(self.allowed[o])
    }

    /// The state after setting the balance of `a` to `v`.
    pub open spec fn with_balance(self, a: Address, v: u128) -> TokenView {
        TokenView { balances: put(self.balances, a, v), ..self }
    }

    /// The state after setting what `owner` allows `spender` to `v`; the inner
    /// map of `owner` is created when absent.
    pub open spec fn with_allowance(self, owner: Address, spender: Address, v: u128) -> TokenView {
        let inner = if self.allowed.contains_key(owner) {
            self.allowed[owner]
        } else {
            Map::empty()
        };
        TokenView { allowed: self.allowed.insert(owner, put(inner, spender, v)), ..self }
    }
}

/// The outcome of `sender` transferring `amount` to `receiver`: debit the
/// sender, then credit the receiver as read after the debit.
pub open spec fn transfer_result(
    s: TokenView,
    sender: Address,
    receiver: Address,
    amount: u128,
) -> Result<TokenView, TokenError> {
    let b = s.balance(sender);
    if amount > b {
        Err(TokenError::InsufficientBalance)
    } else {
        let debited = s.with_balance(sender, (b - amount) as u128);
        let rb = debited.balance(receiver);
        if rb + amount > u128::MAX {
            Err(TokenError::BalanceOverflow)
        } else {
            Ok(debited.with_balance(receiver, (rb + amount) as u128))
        }
    }
}

/// The outcome of `caller` drawing `amount` from the allowance `from` gave it
/// and crediting `receiver`; the balance of `from` is not debited.
pub open spec fn transfer_from_result(
    s: TokenView,
    caller: Address,
    from: Address,
    receiver: Address,
    amount: u128,
) -> Result<TokenView, TokenError> {
    let a = s.allowance(from, caller);
    if amount > a {
        Err(TokenError::InsufficientAllowance)
    } else {
        let drawn = s.with_allowance(from, caller, (a - amount) as u128);
        let rb = drawn.balance(receiver);
        if rb + amount > u128::MAX {
            Err(TokenError::BalanceOverflow)
        } else {
            Ok(drawn.with_balance(receiver, (rb + amount) as u128))
        }
    }
}

/// The outcome of `caller` approving `spender` for `amount`: the amount is
/// debited from the caller and the allowance is overwritten with it.
pub open spec fn approve_result(
    s: TokenView,
    caller: Address,
    spender: Address,
    amount: u128,
) -> Result<TokenView, TokenError> {
    let b = s.balance(caller);
    if amount > b {
        Err(TokenError::InsufficientBalance)
    } else {
        Ok(s.with_balance(caller, (b - amount) as u128).with_allowance(caller, spender, amount))
    }
}

/// The change actually applied by a relative approval: a decrease that would
/// take the allowance to zero or below takes back exactly the allowance.
pub open spec fn clamped_delta(allowance: int, delta: i128) -> int {
    if delta < 0 && -delta >= allowance {
        -allowance
    } else {
        delta as int
    }
}

/// The outcome of `caller` moving the allowance of `spender` by `delta`: the
/// allowance grows by the clamped delta and the caller's balance shrinks by it.
pub open spec fn approve_relative_result(
    s: TokenView,
    caller: Address,
    spender: Address,
    delta: i128,
) -> Result<TokenView, TokenError> {
    let b = s.balance(caller) as int;
    let a = s.allowance(caller, spender) as int;
    if b > i128::MAX || a > i128::MAX {
        Err(TokenError::ConversionError)
    } else {
        let d = clamped_delta(a, delta);
        let new_allowance = a + d;
        let new_balance = b - d;
        if new_allowance > i128::MAX {
            Err(TokenError::AllowanceOverflow)
        } else if new_allowance < 0 {
            Err(TokenError::ConversionError)
        } else if new_balance > i128::MAX || new_balance < 0 {
            Err(TokenError::BalanceOverflow)
        } else {
            Ok(
                s.with_allowance(caller, spender, new_allowance as u128).with_balance(
                    caller,
                    new_balance as u128,
                ),
            )
        }
    }
}

/// Relates an operation's result to its outcome in the model.
pub open spec fn matches_outcome(
    outcome: Result<TokenView, TokenError>,
    r: Result<(), TokenError>,
    pre: TokenState,
    post: TokenState,
) -> bool {
    match r {
        Ok(()) => outcome == Ok::<TokenView, TokenError>(post@),
        Err(e) => outcome == Err::<TokenView, TokenError>(e) && post == pre,
    }
}

impl View for TokenState {
    type V = TokenView;

    closed spec fn view(&self) -> TokenView {
        TokenView {
            total_supply: self.total_supply,
            name: self.name@,
            symbol: self.symbol@,
            decimals: self.decimals,
            owner: self.owner,
            balances: self.balances@,
            allowed: Map::new(
                |o: Address| self.allowed@.contains_key(o),
                |o: Address| self.allowed@[o]@,
            ),
        }
    }
}

impl TokenState {
    /// The maps that hold the state are well formed.
    pub closed spec fn maps_wf(self) -> bool {
        &&& self.balances.wf()
        &&& self.allowed.wf()
        &&& forall|o: Address| #[trigger] self.allowed@.contains_key(o) ==> self.allowed@[o].wf()
    }

    /// The invariant that every reachable state keeps.
    pub open spec fn wf(self) -> bool {
        &&& self.maps_wf()
        &&& self@.sparse()
        &&& self@.balances.dom().finite()
    }

    /// The total supply fixed at creation.
    pub fn total_supply(&self) -> (r: u128)
        ensures
            r == self@.total_supply,
    {
        self.total_supply
    }

    /// The name of the token.
    pub fn name(&self) -> (r: &str)
        ensures
            r@ == self@.name,
    {
        self.name.as_str()
    }

    /// The symbol of the token.
    pub fn symbol(&self) -> (r: &str)
        ensures
            r@ == self@.symbol,
    {
        self.symbol.as_str()
    }

    /// The number of decimals the token uses.
    pub fn decimals(&self) -> (r: u8)
        ensures
            r == self@.decimals,
    {
        self.decimals
    }

    /// The address that created the token.
    pub fn owner(&self) -> (r: Address)
        ensures
            r == self@.owner,
    {
        self.owner
    }

    /// Whether the balance map holds an entry for `owner`.
    pub fn has_balance_entry(&self, owner: &Address) -> (r: bool)
        requires
            self.wf(),
        ensures
            r == self@.balances.contains_key(*owner),
    {
        self.balances.contains_key(owner)
    }

    /// Gets the balance of `owner`.
    pub fn balance_of(&self, owner: &Address) -> (r: u128)
        requires
            self.wf(),
        ensures
            r == self@.balance(*owner),
    {
        self.balances.amount_at(owner)
    }

    /// Sets the balance of `owner` to `amount`; a zero amount removes the entry.
    pub(crate) fn set_balance(&mut self, owner: Address, amount: u128)
        requires
            old(self).wf(),
        ensures
            final(self).wf(),
            final(self)@ == old(self)@.with_balance(owner, amount),
    {
        let ghost pre = *self;
        self.balances.insert_balance(owner, amount);
        proof {
            self.balances.lemma_dom_len();
            assert(self@.allowed =~= pre@.allowed);
        }
    }

    /// Gets the amount `owner` allows `spender` to draw.
    pub fn allowance(&self, owner: &Address, spender: &Address) -> (r: u128)
        requires
            self.wf(),
        ensures
            r == self@.allowance(*owner, *spender),
    {
        match self.allowed.get(owner) {
            Some(inner) => inner.amount_at(spender),
            None => 0,
        }
    }

    /// Sets what `owner` allows `spender` to draw to `amount`.
    pub fn update_allowance(&mut self, owner: Address, spender: Address, amount: u128)
        requires
            old(self).wf(),
        ensures
            final(self).wf(),
            final(self)@ == old(self)@.with_allowance(owner, spender, amount),
    {
        let ghost pre = *self;
        let mut inner = match self.allowed.remove(&owner) {
            Some(m) => m,
            None => AddressMap::new(),
        };
        inner.insert_balance(spender, amount);
        self.allowed.insert(owner, inner);
        proof {
            let expected = pre@.with_allowance(owner, spender, amount);
            assert(self@.allowed =~= expected.allowed);
            assert(self@ == expected);
        }
    }
}

/// Creates the state of a new token, crediting the whole supply to the caller.
pub fn initialize(
    ctx: ContractContext,
    total_supply: u128,
    name: String,
    symbol: String,
    decimals: u8,
) -> (r: TokenState)
    ensures
        r.wf(),
        r@ == (TokenView {
            total_supply,
            name: name@,
            symbol: symbol@,
            decimals,
            owner: ctx.sender,
            balances: put(Map::empty(), ctx.sender, total_supply),
            allowed: Map::empty(),
        }),
        map_sum(r@.balances) == total_supply,
{
    let mut balances: AddressMap<u128> = AddressMap::new();
    proof {
        crate::address_map::lemma_map_sum_empty();
        crate::address_map::lemma_map_sum_put(Map::empty(), ctx.sender, total_supply);
    }
    balances.insert_balance(ctx.sender, total_supply);
    let allowed: AddressMap<AddressMap<u128>> = AddressMap::new();
    let r = TokenState {
        total_supply,
        name,
        symbol,
        balances,
        allowed,
        decimals,
        owner: ctx.sender,
    };
    proof {
        assert(r@.allowed =~= Map::empty());
    }
    r
}

} // verus!
