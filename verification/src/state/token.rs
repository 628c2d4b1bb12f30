//! RCW tokens: minting, transfer, spending.

use crate::state::step::{one, outcome, refused, took, Step};
use crate::store::{balance_at, put_balance, Db, Store};
use crate::text::{decimal, push_decimal};
use crate::types::state::event_views;
use crate::types::{Event, EventView, Id, RCWBalance};
use vstd::prelude::*;
use vstd::string::*;

verus! {

/// A balance with `amount` more of what was earned.
pub open spec fn credited(b: RCWBalance, amount: u64) -> RCWBalance {
    RCWBalance { earned: (b.earned + amount) as u64, ..b }
}

/// A balance with `amount` less: earned tokens go first, then purchased ones.
pub open spec fn debited(b: RCWBalance, amount: u64) -> RCWBalance {
    if b.earned >= amount {
        RCWBalance { earned: (b.earned - amount) as u64, ..b }
    } else {
        RCWBalance { earned: 0, purchased: (b.purchased - (amount - b.earned)) as u64, ..b }
    }
}

/// Tokens for nothing are neither moved nor spent.
pub open spec fn no_amount() -> Seq<char> {
    "Amount must be positive"@
}

pub open spec fn insufficient(have: nat, need: u64) -> Seq<char> {
    "Insufficient balance: have "@ + decimal(have) + ", need "@ + decimal(need as nat)
}

/// Mint tokens.
pub open spec fn mint_step(db: Db, to: Id, amount: u64, reason: Seq<char>) -> Step {
    match balance_at(db, to) {
        Err(why) => refused(db, why),
        Ok(b) => {
            if b.earned + amount > u64::MAX {
                None
            } else {
                Some((put_balance(db, to, credited(b, amount)), Ok(seq![EventView::RCWMinted { to, amount, reason }])))
            }
        },
    }
}

/// Take tokens out of a balance.
pub open spec fn debit_step(db: Db, from: Id, amount: u64) -> Step {
    if amount == 0 {
        refused(db, no_amount())
    } else {
        match balance_at(db, from) {
            Err(why) => refused(db, why),
            Ok(b) => {
                if b.spec_total() > u64::MAX {
                    None
                } else if b.spec_total() < amount {
                    refused(db, insufficient(b.spec_total(), amount))
                } else {
                    Some((put_balance(db, from, debited(b, amount)), Ok(Seq::empty())))
                }
            },
        }
    }
}

/// Move tokens from one balance to another.
pub open spec fn transfer_step(db: Db, from: Id, to: Id, amount: u64) -> Step {
    match debit_step(db, from, amount) {
        Some((paid, Ok(_))) => match balance_at(paid, to) {
            Err(why) => refused(paid, why),
            Ok(b) => {
                if b.earned + amount > u64::MAX {
                    None
                } else {
                    Some((put_balance(paid, to, credited(b, amount)), Ok(seq![EventView::RCWTransferred { from, to, amount }])))
                }
            },
        },
        other => other,
    }
}

/// Spend tokens.
pub open spec fn spend_step(db: Db, from: Id, amount: u64, purpose: Seq<char>) -> Step {
    match debit_step(db, from, amount) {
        Some((paid, Ok(_))) => Some((paid, Ok(seq![EventView::RCWSpent { from, amount, purpose }]))),
        other => other,
    }
}

fn insufficient_text(have: u64, need: u64) -> (r: String)
    ensures
        r@ == insufficient(have as nat, need),
{
    let mut text = "Insufficient balance: have ".to_string();
    push_decimal(&mut text, have);
    text.append(", need ");
    push_decimal(&mut text, need);
    text
}

/// As `mint`; nothing where the balance would leave its range.
pub fn mint_checked(store: &mut Store, to: &Id, amount: u64, reason: &str) -> (r: Option<Result<Vec<Event>, String>>)
    ensures
        took(mint_step(old(store)@, *to, amount, reason@), final(store)@, r),
        final(store).saved() == old(store).saved(),
{
    let mut balance = match store.get_balance(to) {
        Ok(b) => b,
        Err(e) => return Some(Err(e)),
    };
    balance.earned = match balance.earned.checked_add(amount) {
        Some(sum) => sum,
        None => return None,
    };
    if let Err(e) = store.set_balance(to, &balance) {
        return Some(Err(e));
    }
    Some(Ok(one(Event::RCWMinted { to: *to, amount, reason: reason.to_string() })))
}

/// Mint RCW tokens as reward.
pub fn mint(store: &mut Store, to: &Id, amount: u64, reason: &str) -> (r: Result<Vec<Event>, String>)
    requires
        mint_step(old(store)@, *to, amount, reason@) is Some,
    ensures
        mint_step(old(store)@, *to, amount, reason@) == Some((final(store)@, outcome(r))),
        final(store).saved() == old(store).saved(),
{
    match mint_checked(store, to, amount, reason) {
        Some(r) => r,
        None => vstd::pervasive::unreached(),
    }
}

fn debit_checked(store: &mut Store, from: &Id, amount: u64) -> (r: Option<Result<Vec<Event>, String>>)
    ensures
        took(debit_step(old(store)@, *from, amount), final(store)@, r),
        final(store).saved() == old(store).saved(),
{
    if amount == 0 {
        return Some(Err("Amount must be positive".to_string()));
    }
    let mut balance = match store.get_balance(from) {
        Ok(b) => b,
        Err(e) => return Some(Err(e)),
    };
    if balance.earned.checked_add(balance.purchased).is_none() {
        return None;
    }
    if balance.total() < amount {
        return Some(Err(insufficient_text(balance.total(), amount)));
    }
    // Earned first, then purchased.
    if balance.earned >= amount {
        balance.earned = balance.earned - amount;
    } else {
        let remaining: u64 = amount - balance.earned;
        balance.earned = 0;
        balance.purchased = balance.purchased - remaining;
    }
    if let Err(e) = store.set_balance(from, &balance) {
        return Some(Err(e));
    }
    let none: Vec<Event> = Vec::new();
    assert(event_views(none@) =~= Seq::<EventView>::empty());
    Some(Ok(none))
}

/// As `transfer`; nothing where a balance leaves its range.
pub fn transfer_checked(store: &mut Store, from: &Id, to: &Id, amount: u64, _memo: &str) -> (r: Option<Result<Vec<Event>, String>>)
    ensures
        took(transfer_step(old(store)@, *from, *to, amount), final(store)@, r),
        final(store).saved() == old(store).saved(),
{
    match debit_checked(store, from, amount) {
        None => return None,
        Some(Err(e)) => return Some(Err(e)),
        Some(Ok(_)) => {},
    }
    let mut balance = match store.get_balance(to) {
        Ok(b) => b,
        Err(e) => return Some(Err(e)),
    };
    balance.earned = match balance.earned.checked_add(amount) {
        Some(sum) => sum,
        None => return None,
    };
    if let Err(e) = store.set_balance(to, &balance) {
        return Some(Err(e));
    }
    Some(Ok(one(Event::RCWTransferred { from: *from, to: *to, amount })))
}

/// Transfer RCW between participants.
pub fn transfer(store: &mut Store, from: &Id, to: &Id, amount: u64, memo: &str) -> (r: Result<Vec<Event>, String>)
    requires
        transfer_step(old(store)@, *from, *to, amount) is Some,
    ensures
        transfer_step(old(store)@, *from, *to, amount) == Some((final(store)@, outcome(r))),
        final(store).saved() == old(store).saved(),
{
    match transfer_checked(store, from, to, amount, memo) {
        Some(r) => r,
        None => vstd::pervasive::unreached(),
    }
}

/// As `spend`; nothing where the balance is out of range.
pub fn spend_checked(store: &mut Store, from: &Id, amount: u64, purpose: &str) -> (r: Option<Result<Vec<Event>, String>>)
    ensures
        took(spend_step(old(store)@, *from, amount, purpose@), final(store)@, r),
        final(store).saved() == old(store).saved(),
{
    match debit_checked(store, from, amount) {
        None => None,
        Some(Err(e)) => Some(Err(e)),
        Some(Ok(_)) => Some(Ok(one(Event::RCWSpent { from: *from, amount, purpose: purpose.to_string() }))),
    }
}

/// Spend RCW (for AI tools, badges, etc.).
pub fn spend(store: &mut Store, from: &Id, amount: u64, purpose: &str) -> (r: Result<Vec<Event>, String>)
    requires
        spend_step(old(store)@, *from, amount, purpose@) is Some,
    ensures
        spend_step(old(store)@, *from, amount, purpose@) == Some((final(store)@, outcome(r))),
        final(store).saved() == old(store).saved(),
{
    match spend_checked(store, from, amount, purpose) {
        Some(r) => r,
        None => vstd::pervasive::unreached(),
    }
}

} // verus!
