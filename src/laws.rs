//! Laws of the ledger, proved from the contracts of its operations.
use vstd::prelude::*;

use crate::account::AccountId;
use crate::ledger::{Erc20, Error};

verus! {

/// A new ledger holds the whole supply in the maker's account and nothing
/// anywhere else.
pub proof fn lemma_new_credits_maker(caller: AccountId, supply: u128, l: Erc20)
    requires
        call_ensures(Erc20::new, (caller, supply), l),
    ensures
        l.supply() == supply,
        l.balance(caller@) == supply,
        forall|a: Seq<u8>| a != caller@ ==> #[trigger] l.balance(a) == 0,
        l.held() == supply,
{
    l.lemma_supply_is_held();
}

/// Every operation keeps the balances summing to the total supply, and keeps
/// the total supply itself: a transfer from `from` to `to`, an approval by
/// `caller` for `to`, or a transfer by `caller` from `from` to `to` under an
/// allowance. With the same law for a new ledger, the balances add up to the
/// total supply after any sequence of operations.
pub proof fn lemma_operations_conserve_supply(
    before: Erc20,
    after: Erc20,
    caller: AccountId,
    from: AccountId,
    to: AccountId,
    value: u128,
    r: Result<(), Error>,
)
    requires
        before.wf(),
        Erc20::moved(before, after, from, to, value, r) || Erc20::approved(
            before,
            after,
            caller,
            to,
            value,
        ) || Erc20::spent(before, after, caller, from, to, value, r),
    ensures
        after.held() == after.supply(),
        after.supply() == before.supply(),
{
    after.lemma_supply_is_held();
}

/// Transferring a whole balance to another account empties the source and
/// credits the target by that amount.
pub proof fn lemma_transfer_whole_balance(
    before: Erc20,
    after: Erc20,
    from: AccountId,
    to: AccountId,
    value: u128,
    r: Result<(), Error>,
)
    requires
        Erc20::moved(before, after, from, to, value, r),
        before.balance(from@) == value,
        from@ != to@,
    ensures
        r == Ok::<(), Error>(()),
        after.balance(from@) == 0,
        after.balance(to@) == before.balance(to@) + value,
{
    assert(after.balance(from@) == before.balance_after_move(from@, to@, value as nat, from@));
    assert(after.balance(to@) == before.balance_after_move(from@, to@, value as nat, to@));
}

/// A transfer of more than the source holds is refused and moves nothing.
pub proof fn lemma_transfer_over_balance(
    before: Erc20,
    after: Erc20,
    from: AccountId,
    to: AccountId,
    value: u128,
    r: Result<(), Error>,
)
    requires
        Erc20::moved(before, after, from, to, value, r),
        value > before.balance(from@),
    ensures
        r == Err::<(), Error>(Error::InsufficientBalance),
        after.balance(from@) == before.balance(from@),
        after.balance(to@) == before.balance(to@),
        after == before,
{
}

/// Right after an approval the pair's allowance is the approved amount,
/// whatever it was before.
pub proof fn lemma_approve_overwrites(
    before: Erc20,
    after: Erc20,
    owner: AccountId,
    spender: AccountId,
    value: u128,
)
    requires
        Erc20::approved(before, after, owner, spender, value),
    ensures
        after.allowed(owner@, spender@) == value,
{
}

/// A transfer on another's behalf beyond the allowance is refused with
/// `InsufficientAllowance` and changes nothing, whatever the balance.
pub proof fn lemma_spend_over_allowance(
    before: Erc20,
    after: Erc20,
    caller: AccountId,
    from: AccountId,
    to: AccountId,
    value: u128,
    r: Result<(), Error>,
)
    requires
        Erc20::spent(before, after, caller, from, to, value, r),
        value > before.allowed(from@, caller@),
    ensures
        r == Err::<(), Error>(Error::InsufficientAllowance),
        forall|a: Seq<u8>| #[trigger] after.balance(a) == before.balance(a),
        after.allowed(from@, caller@) == before.allowed(from@, caller@),
        after == before,
{
}

/// Within the allowance but beyond the balance, a transfer on another's
/// behalf is refused with `InsufficientBalance` and changes nothing.
pub proof fn lemma_spend_over_balance(
    before: Erc20,
    after: Erc20,
    caller: AccountId,
    from: AccountId,
    to: AccountId,
    value: u128,
    r: Result<(), Error>,
)
    requires
        Erc20::spent(before, after, caller, from, to, value, r),
        value <= before.allowed(from@, caller@),
        value > before.balance(from@),
    ensures
        r == Err::<(), Error>(Error::InsufficientBalance),
        forall|a: Seq<u8>| #[trigger] after.balance(a) == before.balance(a),
        after.allowed(from@, caller@) == before.allowed(from@, caller@),
        after == before,
{
}

/// A successful transfer on another's behalf lowers the allowance by exactly
/// the amount and leaves the balances as a direct transfer from the same
/// state would.
pub proof fn lemma_spend_is_transfer(
    before: Erc20,
    after: Erc20,
    direct: Erc20,
    caller: AccountId,
    from: AccountId,
    to: AccountId,
    value: u128,
    r: Result<(), Error>,
    r_direct: Result<(), Error>,
)
    requires
        Erc20::spent(before, after, caller, from, to, value, r),
        Erc20::moved(before, direct, from, to, value, r_direct),
        r == Ok::<(), Error>(()),
    ensures
        after.allowed(from@, caller@) + value == before.allowed(from@, caller@),
        r_direct == Ok::<(), Error>(()),
        forall|a: Seq<u8>| #[trigger] after.balance(a) == direct.balance(a),
        after.emitted() == direct.emitted(),
{
    if before.allowed(from@, caller@) < value {
        assert(r == Err::<(), Error>(Error::InsufficientAllowance));
    }
    if before.balance(from@) < value {
        assert(r == Err::<(), Error>(Error::InsufficientBalance));
    }
    assert forall|a: Seq<u8>| #[trigger] after.balance(a) == direct.balance(a) by {
        assert(after.balance(a) == before.balance_after_move(from@, to@, value as nat, a));
        assert(direct.balance(a) == before.balance_after_move(from@, to@, value as nat, a));
    }
}

} // verus!
