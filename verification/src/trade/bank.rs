//! Balances of every user in every asset: what is free to trade and what is
//! held for open orders.

use vstd::prelude::*;
use vstd::string::*;
use std::collections::HashMap;
use crate::text::{owned, to_uppercase, uppercase};
use crate::trade::model::Side;
use crate::accounts::{entry_index, find_name, lemma_name_index, named_map, names_unique, set_at, Named};

verus! {

broadcast use vstd::std_specs::hash::group_hash_axioms;

/// One account: the amount free to trade or withdraw and the amount held for
/// open orders, in units of 10^-8.
#[derive(Debug, Clone, Copy, PartialEq, Eq, Structural)]
pub struct Balance {
    pub available: i128,
    pub locked: i128,
}

/// The empty balance a new account starts from.
pub open spec fn zero_balance() -> Balance {
    Balance { available: 0, locked: 0 }
}

/// The balances of every user: user -> asset -> balance.
pub struct Bank {
    accounts: HashMap<u64, Vec<Named<Balance>>>,
}

impl View for Bank {
    type V = Map<u64, Map<Seq<char>, Balance>>;

    closed spec fn view(&self) -> Map<u64, Map<Seq<char>, Balance>> {
        self.accounts@.map_values(|v: Vec<Named<Balance>>| named_map(v@))
    }
}

/// A user's accounts, empty for a user the bank does not know.
pub open spec fn user_map(m: Map<u64, Map<Seq<char>, Balance>>, u: u64) -> Map<Seq<char>, Balance> {
    if m.contains_key(u) {
        m[u]
    } else {
        Map::empty()
    }
}

/// The balance of a user in an asset, zero where there is no account.
pub open spec fn balance_or_zero(m: Map<u64, Map<Seq<char>, Balance>>, u: u64, a: Seq<char>) -> Balance {
    let um = user_map(m, u);
    if um.contains_key(a) {
        um[a]
    } else {
        zero_balance()
    }
}

/// The bank with the account of `u` in `a` set to `b`, creating user and account.
pub open spec fn set_balance(m: Map<u64, Map<Seq<char>, Balance>>, u: u64, a: Seq<char>, b: Balance) -> Map<
    u64,
    Map<Seq<char>, Balance>,
> {
    m.insert(u, user_map(m, u).insert(a, b))
}

/// An amount fits a balance field after being added.
pub open spec fn fits(x: int) -> bool {
    i128::MIN <= x <= i128::MAX
}

/// The effect of moving `amount` of asset `a` from `from` to `to`: nothing
/// unless `from` is a known user; then `from`'s account in `a`, if it has one,
/// gives the amount out of its locked (or available) part, and `to`'s account
/// in `a`, created when missing, receives it as available.
pub open spec fn spec_transfer(
    m: Map<u64, Map<Seq<char>, Balance>>,
    from: u64,
    to: u64,
    a: Seq<char>,
    amount: i128,
    from_locked: bool,
) -> Map<u64, Map<Seq<char>, Balance>> {
    if m.contains_key(from) {
        let m1 = if m[from].contains_key(a) {
            let b = m[from][a];
            set_balance(
                m,
                from,
                a,
                if from_locked {
                    Balance { available: b.available, locked: (b.locked - amount) as i128 }
                } else {
                    Balance { available: (b.available - amount) as i128, locked: b.locked }
                },
            )
        } else {
            m
        };
        let tb = balance_or_zero(m1, to, a);
        set_balance(m1, to, a, Balance { available: (tb.available + amount) as i128, locked: tb.locked })
    } else {
        m
    }
}

/// The transfer's arithmetic stays within the balance fields.
pub open spec fn transfer_fits(
    m: Map<u64, Map<Seq<char>, Balance>>,
    from: u64,
    to: u64,
    a: Seq<char>,
    amount: i128,
    from_locked: bool,
) -> bool {
    m.contains_key(from) ==> {
        let m1 = if m[from].contains_key(a) {
            let b = m[from][a];
            if from_locked {
                set_balance(m, from, a, Balance { available: b.available, locked: (b.locked - amount) as i128 })
            } else {
                set_balance(m, from, a, Balance { available: (b.available - amount) as i128, locked: b.locked })
            }
        } else {
            m
        };
        &&& m[from].contains_key(a) ==> (if from_locked {
            fits(m[from][a].locked - amount)
        } else {
            fits(m[from][a].available - amount)
        })
        &&& fits(balance_or_zero(m1, to, a).available + amount)
    }
}

/// The effect of a lock of `amount` in the account `(u, key)`: whether it is
/// granted, and the bank after it. The account is created either way.
pub open spec fn spec_lock(m: Map<u64, Map<Seq<char>, Balance>>, u: u64, key: Seq<char>, amount: i128) -> (
    bool,
    Map<u64, Map<Seq<char>, Balance>>,
) {
    let b = balance_or_zero(m, u, key);
    if b.available < amount {
        (false, set_balance(m, u, key, b))
    } else {
        (
            true,
            set_balance(
                m,
                u,
                key,
                Balance { available: (b.available - amount) as i128, locked: (b.locked + amount) as i128 },
            ),
        )
    }
}

/// The effect of an unlock: an existing account `(u, a)` moves `amount` from
/// locked back to available; nothing changes otherwise.
pub open spec fn spec_unlock(m: Map<u64, Map<Seq<char>, Balance>>, u: u64, a: Seq<char>, amount: i128) -> Map<
    u64,
    Map<Seq<char>, Balance>,
> {
    if m.contains_key(u) && m[u].contains_key(a) {
        let b = m[u][a];
        set_balance(
            m,
            u,
            a,
            Balance { available: (b.available + amount) as i128, locked: (b.locked - amount) as i128 },
        )
    } else {
        m
    }
}

/// The lock's arithmetic stays within the balance fields.
pub open spec fn lock_fits(m: Map<u64, Map<Seq<char>, Balance>>, u: u64, key: Seq<char>, amount: i128) -> bool {
    let b = balance_or_zero(m, u, key);
    b.available >= amount ==> fits(b.available - amount) && fits(b.locked + amount)
}

/// What a lock did: the bank is as [`spec_lock`] says, and the result is `Ok`
/// when granted, else the refusal message for the name `asset` as given.
pub open spec fn lock_done(
    before: Map<u64, Map<Seq<char>, Balance>>,
    after: Map<u64, Map<Seq<char>, Balance>>,
    u: u64,
    key: Seq<char>,
    asset: Seq<char>,
    amount: i128,
    r: Result<(), String>,
) -> bool {
    let l = spec_lock(before, u, key, amount);
    &&& after == l.1
    &&& if l.0 {
        r is Ok
    } else {
        r matches Err(e) && e@ == insufficient_message(asset)
    }
}

/// The effect of a deposit into the account `(u, key)`: its available amount
/// grows by `amount`; user and account are created at zero when missing.
pub open spec fn spec_deposit(m: Map<u64, Map<Seq<char>, Balance>>, u: u64, key: Seq<char>, amount: i128) -> Map<
    u64,
    Map<Seq<char>, Balance>,
> {
    let b = balance_or_zero(m, u, key);
    set_balance(m, u, key, Balance { available: (b.available + amount) as i128, locked: b.locked })
}

/// The message of a refused lock: "Insufficient {asset} availabel".
pub open spec fn insufficient_message(asset: Seq<char>) -> Seq<char> {
    "Insufficient "@ + asset + " availabel"@
}

impl Bank {
    /// Every user's list holds each asset name once.
    #[verifier::type_invariant]
    spec fn names_are_unique(self) -> bool {
        forall|u: u64| #[trigger] self.accounts@.contains_key(u) ==> names_unique(self.accounts@[u]@)
    }

    /// A bank with no users.
    pub fn new() -> (r: Self)
        ensures
            r@ == Map::<u64, Map<Seq<char>, Balance>>::empty(),
    {
        let r = Self { accounts: HashMap::new() };
        assert(r@ =~= Map::<u64, Map<Seq<char>, Balance>>::empty());
        r
    }

    /// The balance of a user in an asset (looked up by the name as given).
    pub fn balance_of(&self, user_id: u64, asset: &str) -> (r: Option<Balance>)
        ensures
            r == (if self@.contains_key(user_id) && self@[user_id].contains_key(asset@) {
                Some(self@[user_id][asset@])
            } else {
                None
            }),
    {
        match self.accounts.get(&user_id) {
            Some(v) => {
                let key = owned(asset);
                let i = find_name(v, &key);
                proof {
                    lemma_name_index(v@, asset@);
                }
                if i < v.len() {
                    Some(v[i].value)
                } else {
                    None
                }
            },
            None => None,
        }
    }

    /// Takes a user's account list out of the bank (empty when unknown).
    fn take_user(&mut self, user_id: u64) -> (r: Vec<Named<Balance>>)
        ensures
            names_unique(r@),
            named_map(r@) == user_map(old(self)@, user_id),
            final(self)@ == old(self)@.remove(user_id),
    {
        proof {
            use_type_invariant(&*self);
        }
        let mut accounts: HashMap<u64, Vec<Named<Balance>>> = HashMap::new();
        std::mem::swap(&mut accounts, &mut self.accounts);
        let r = match accounts.remove(&user_id) {
            Some(v) => v,
            None => Vec::new(),
        };
        self.accounts = accounts;
        assert(final(self)@ =~= old(self)@.remove(user_id));
        proof {
            if !old(self)@.contains_key(user_id) {
                assert(named_map(r@) =~= Map::<Seq<char>, Balance>::empty());
            }
        }
        r
    }

    /// Puts a user's account list back.
    fn put_user(&mut self, user_id: u64, v: Vec<Named<Balance>>)
        requires
            names_unique(v@),
        ensures
            final(self)@ == old(self)@.insert(user_id, named_map(v@)),
    {
        proof {
            use_type_invariant(&*self);
        }
        let mut accounts: HashMap<u64, Vec<Named<Balance>>> = HashMap::new();
        std::mem::swap(&mut accounts, &mut self.accounts);
        accounts.insert(user_id, v);
        self.accounts = accounts;
        assert(final(self)@ =~= old(self)@.insert(user_id, named_map(v@)));
    }

    /// Moves `amount` of `asset` (its name upper-cased) from available to locked.
    /// Fails with "Insufficient {asset} availabel" when less is available; the
    /// user and the account are created at zero either way.
    pub fn lock_funds(&mut self, user_id: u64, asset: &str, amount: i128) -> (r: Result<(), String>)
        requires
            lock_fits(old(self)@, user_id, uppercase(asset@), amount),
        ensures
            lock_done(old(self)@, final(self)@, user_id, uppercase(asset@), asset@, amount, r),
    {
        let key = to_uppercase(asset);
        self.lock_key(user_id, key, asset, amount)
    }

    /// [`Bank::lock_funds`] where its arithmetic fits the balance fields;
    /// `None`, and no change, where it would not.
    pub fn try_lock_funds(&mut self, user_id: u64, asset: &str, amount: i128) -> (r: Option<Result<(), String>>)
        ensures
            lock_fits(old(self)@, user_id, uppercase(asset@), amount) ==> (r matches Some(res) && lock_done(
                old(self)@,
                final(self)@,
                user_id,
                uppercase(asset@),
                asset@,
                amount,
                res,
            )),
            !lock_fits(old(self)@, user_id, uppercase(asset@), amount) ==> r is None && final(self)@ == old(self)@,
    {
        let key = to_uppercase(asset);
        let b = self.balance_or_zero_of(user_id, &key);
        if b.available >= amount {
            if b.available.checked_sub(amount).is_none() || b.locked.checked_add(amount).is_none() {
                return None;
            }
        }
        Some(self.lock_funds(user_id, asset, amount))
    }

    /// The balance of the account `(user_id, key)`, zero where there is none.
    fn balance_or_zero_of(&self, user_id: u64, key: &String) -> (r: Balance)
        ensures
            r == balance_or_zero(self@, user_id, key@),
    {
        match self.accounts.get(&user_id) {
            Some(v) => {
                let i = find_name(v, key);
                proof {
                    lemma_name_index(v@, key@);
                }
                if i < v.len() {
                    v[i].value
                } else {
                    Balance { available: 0, locked: 0 }
                }
            },
            None => Balance { available: 0, locked: 0 },
        }
    }

    /// A lock on the account named `key`; `asset` is the name for the message.
    fn lock_key(&mut self, user_id: u64, key: String, asset: &str, amount: i128) -> (r: Result<(), String>)
        requires
            lock_fits(old(self)@, user_id, key@, amount),
        ensures
            lock_done(old(self)@, final(self)@, user_id, key@, asset@, amount, r),
    {
        let ghost k = key@;
        let ghost m = self@;
        let mut v = self.take_user(user_id);
        let i = entry_index(&mut v, key, Balance { available: 0, locked: 0 });
        let bal = v[i].value;
        assert(bal == balance_or_zero(m, user_id, k));
        if bal.available < amount {
            assert(named_map(v@) =~= user_map(m, user_id).insert(k, bal));
            self.put_user(user_id, v);
            assert(self@ =~= set_balance(m, user_id, k, bal));
            let mut msg = owned("Insufficient ");
            msg.append(asset);
            msg.append(" availabel");
            return Err(msg);
        }
        set_at(&mut v, i, Balance { available: bal.available - amount, locked: bal.locked + amount });
        assert(named_map(v@) =~= user_map(m, user_id).insert(
            k,
            Balance { available: (bal.available - amount) as i128, locked: (bal.locked + amount) as i128 },
        ));
        self.put_user(user_id, v);
        assert(self@ =~= set_balance(
            m,
            user_id,
            k,
            Balance { available: (bal.available - amount) as i128, locked: (bal.locked + amount) as i128 },
        ));
        Ok(())
    }

    /// Settles one trade. For a buying taker, the taker's locked quote pays the
    /// maker and the maker's locked base goes to the taker (both as available).
    /// For a selling taker nothing changes.
    pub fn settle_trade(
        &mut self,
        maker_id: u64,
        taker_id: u64,
        base_qty: i128,
        quote_qty: i128,
        base_asset: &str,
        quote_asset: &str,
        taker_side: Side,
    )
        requires
            taker_side == Side::Bid ==> transfer_fits(old(self)@, taker_id, maker_id, quote_asset@, quote_qty, true),
            taker_side == Side::Bid ==> transfer_fits(
                spec_transfer(old(self)@, taker_id, maker_id, quote_asset@, quote_qty, true),
                maker_id,
                taker_id,
                base_asset@,
                base_qty,
                true,
            ),
        ensures
            final(self)@ == match taker_side {
                Side::Bid => spec_transfer(
                    spec_transfer(old(self)@, taker_id, maker_id, quote_asset@, quote_qty, true),
                    maker_id,
                    taker_id,
                    base_asset@,
                    base_qty,
                    true,
                ),
                Side::Ask => old(self)@,
            },
    {
        match taker_side {
            Side::Bid => {
                self.transfer(taker_id, maker_id, quote_asset, quote_qty, true);
                self.transfer(maker_id, taker_id, base_asset, base_qty, true);
            },
            Side::Ask => {},
        }
    }

    /// Moves `amount` of `asset` from one user to another; see [`spec_transfer`].
    fn transfer(&mut self, from: u64, to: u64, asset: &str, amount: i128, from_locked: bool)
        requires
            transfer_fits(old(self)@, from, to, asset@, amount, from_locked),
        ensures
            final(self)@ == spec_transfer(old(self)@, from, to, asset@, amount, from_locked),
    {
        let ghost m = self@;
        if self.accounts.contains_key(&from) {
            let mut fv = self.take_user(from);
            let key = owned(asset);
            let i = find_name(&fv, &key);
            proof {
                lemma_name_index(fv@, asset@);
            }
            if i < fv.len() {
                let b = fv[i].value;
                let nb = if from_locked {
                    Balance { available: b.available, locked: b.locked - amount }
                } else {
                    Balance { available: b.available - amount, locked: b.locked }
                };
                set_at(&mut fv, i, nb);
            }
            self.put_user(from, fv);
            let ghost m1 = self@;
            assert(m1 =~= (if m[from].contains_key(asset@) {
                let b = m[from][asset@];
                set_balance(
                    m,
                    from,
                    asset@,
                    if from_locked {
                        Balance { available: b.available, locked: (b.locked - amount) as i128 }
                    } else {
                        Balance { available: (b.available - amount) as i128, locked: b.locked }
                    },
                )
            } else {
                m
            }));
            let mut tv = self.take_user(to);
            let j = entry_index(&mut tv, owned(asset), Balance { available: 0, locked: 0 });
            let tb = tv[j].value;
            assert(tb == balance_or_zero(m1, to, asset@));
            set_at(&mut tv, j, Balance { available: tb.available + amount, locked: tb.locked });
            assert(named_map(tv@) =~= user_map(m1, to).insert(
                asset@,
                Balance { available: (tb.available + amount) as i128, locked: tb.locked },
            ));
            self.put_user(to, tv);
            assert(self@ =~= set_balance(
                m1,
                to,
                asset@,
                Balance { available: (tb.available + amount) as i128, locked: tb.locked },
            ));
        }
    }

    /// Returns `amount` of `asset` (name as given) from locked to available, for
    /// an account that exists; nothing changes otherwise.
    pub fn unlock_funds(&mut self, user_id: u64, asset: &str, amount: i128)
        requires
            old(self)@.contains_key(user_id) && old(self)@[user_id].contains_key(asset@) ==> fits(
                old(self)@[user_id][asset@].locked - amount,
            ) && fits(old(self)@[user_id][asset@].available + amount),
        ensures
            final(self)@ == spec_unlock(old(self)@, user_id, asset@, amount),
    {
        let ghost m = self@;
        if self.accounts.contains_key(&user_id) {
            let mut v = self.take_user(user_id);
            let key = owned(asset);
            let i = find_name(&v, &key);
            proof {
                lemma_name_index(v@, asset@);
            }
            if i < v.len() {
                let b = v[i].value;
                set_at(&mut v, i, Balance { available: b.available + amount, locked: b.locked - amount });
            }
            self.put_user(user_id, v);
            proof {
                if m[user_id].contains_key(asset@) {
                    assert(self@ =~= set_balance(
                        m,
                        user_id,
                        asset@,
                        Balance {
                            available: (m[user_id][asset@].available + amount) as i128,
                            locked: (m[user_id][asset@].locked - amount) as i128,
                        },
                    ));
                } else {
                    assert(self@ =~= m);
                }
            }
        }
    }

    /// Adds `amount` of `asset` (its name upper-cased) to the user's available
    /// balance, creating user and account at zero.
    pub fn deposit(&mut self, user_id: u64, asset: &str, amount: i128)
        requires
            fits(balance_or_zero(old(self)@, user_id, uppercase(asset@)).available + amount),
        ensures
            final(self)@ == spec_deposit(old(self)@, user_id, uppercase(asset@), amount),
    {
        let key = to_uppercase(asset);
        self.deposit_key(user_id, key, amount);
    }

    /// [`Bank::deposit`] where the new balance fits; `None`, and no change,
    /// where it would not.
    pub fn try_deposit(&mut self, user_id: u64, asset: &str, amount: i128) -> (r: Option<()>)
        ensures
            fits(balance_or_zero(old(self)@, user_id, uppercase(asset@)).available + amount) ==> r is Some
                && final(self)@ == spec_deposit(old(self)@, user_id, uppercase(asset@), amount),
            !fits(balance_or_zero(old(self)@, user_id, uppercase(asset@)).available + amount) ==> r is None
                && final(self)@ == old(self)@,
    {
        let key = to_uppercase(asset);
        let b = self.balance_or_zero_of(user_id, &key);
        if b.available.checked_add(amount).is_none() {
            return None;
        }
        self.deposit(user_id, asset, amount);
        Some(())
    }

    /// A deposit into the account named `key`.
    fn deposit_key(&mut self, user_id: u64, key: String, amount: i128)
        requires
            fits(balance_or_zero(old(self)@, user_id, key@).available + amount),
        ensures
            final(self)@ == spec_deposit(old(self)@, user_id, key@, amount),
    {
        let ghost k = key@;
        let ghost m = self@;
        let mut v = self.take_user(user_id);
        let i = entry_index(&mut v, key, Balance { available: 0, locked: 0 });
        let bal = v[i].value;
        assert(bal == balance_or_zero(m, user_id, k));
        set_at(&mut v, i, Balance { available: bal.available + amount, locked: bal.locked });
        assert(named_map(v@) =~= user_map(m, user_id).insert(
            k,
            Balance { available: (bal.available + amount) as i128, locked: bal.locked },
        ));
        self.put_user(user_id, v);
        assert(self@ =~= set_balance(
            m,
            user_id,
            k,
            Balance { available: (bal.available + amount) as i128, locked: bal.locked },
        ));
    }
}

/// What a user holds of an asset: available plus locked (zero without an account).
pub open spec fn held(m: Map<u64, Map<Seq<char>, Balance>>, u: u64, a: Seq<char>) -> int {
    balance_or_zero(m, u, a).available + balance_or_zero(m, u, a).locked
}

/// What all users together hold of an asset.
pub open spec fn asset_total(m: Map<u64, Map<Seq<char>, Balance>>, a: Seq<char>) -> int
    decreases m.dom().len(),
    when m.dom().finite()
{
    if m.dom().len() == 0 {
        0
    } else {
        let u = m.dom().choose();
        held(m, u, a) + asset_total(m.remove(u), a)
    }
}

/// The total is what any one user holds plus what the others hold.
pub proof fn lemma_asset_total_remove(m: Map<u64, Map<Seq<char>, Balance>>, u: u64, a: Seq<char>)
    requires
        m.dom().finite(),
        m.contains_key(u),
    ensures
        asset_total(m, a) == held(m, u, a) + asset_total(m.remove(u), a),
    decreases m.dom().len(),
{
    let c = m.dom().choose();
    if c != u {
        let mc = m.remove(c);
        let mu = m.remove(u);
        lemma_asset_total_remove(mc, u, a);
        lemma_asset_total_remove(mu, c, a);
        assert(mc.remove(u) =~= mu.remove(c));
        assert(held(mc, u, a) == held(m, u, a));
        assert(held(mu, c, a) == held(m, c, a));
    }
}

/// Giving user `u` the accounts `um` changes an asset's total by the change in
/// what `u` holds of it.
proof fn lemma_asset_total_insert(
    m: Map<u64, Map<Seq<char>, Balance>>,
    u: u64,
    um: Map<Seq<char>, Balance>,
    a: Seq<char>,
)
    requires
        m.dom().finite(),
    ensures
        asset_total(m.insert(u, um), a) == asset_total(m, a) - held(m, u, a) + held(m.insert(u, um), u, a),
{
    let n = m.insert(u, um);
    lemma_asset_total_remove(n, u, a);
    if m.contains_key(u) {
        lemma_asset_total_remove(m, u, a);
        assert(n.remove(u) =~= m.remove(u));
    } else {
        assert(n.remove(u) =~= m);
        assert(held(m, u, a) == 0);
    }
}

/// A transfer keeps what all users together hold of every asset, when the
/// sender has an account in the asset moved (the original credits the
/// receiver even when it has none; that input is left out).
pub proof fn law_transfer_keeps_asset_totals(
    m: Map<u64, Map<Seq<char>, Balance>>,
    from: u64,
    to: u64,
    a: Seq<char>,
    amount: i128,
    from_locked: bool,
    b: Seq<char>,
)
    requires
        m.dom().finite(),
        transfer_fits(m, from, to, a, amount, from_locked),
        m.contains_key(from) && m[from].contains_key(a),
    ensures
        asset_total(spec_transfer(m, from, to, a, amount, from_locked), b) == asset_total(m, b),
{
    let fb = m[from][a];
    let nb = if from_locked {
        Balance { available: fb.available, locked: (fb.locked - amount) as i128 }
    } else {
        Balance { available: (fb.available - amount) as i128, locked: fb.locked }
    };
    let m1 = set_balance(m, from, a, nb);
    lemma_asset_total_insert(m, from, user_map(m, from).insert(a, nb), b);
    let tb = balance_or_zero(m1, to, a);
    let nt = Balance { available: (tb.available + amount) as i128, locked: tb.locked };
    lemma_asset_total_insert(m1, to, user_map(m1, to).insert(a, nt), b);
    assert(spec_transfer(m, from, to, a, amount, from_locked) == set_balance(m1, to, a, nt));
}

/// A deposit changes only the available part of one account: it grows by
/// the amount, the locked part stays what it was (so the account's total grows
/// by exactly the amount), and every other account is unchanged.
pub proof fn law_deposit_changes_only_available(m: Map<u64, Map<Seq<char>, Balance>>, u: u64, k: Seq<char>, amount: i128)
    requires
        fits(balance_or_zero(m, u, k).available + amount),
    ensures
        balance_or_zero(spec_deposit(m, u, k, amount), u, k).available == balance_or_zero(m, u, k).available + amount,
        balance_or_zero(spec_deposit(m, u, k, amount), u, k).locked == balance_or_zero(m, u, k).locked,
        held(spec_deposit(m, u, k, amount), u, k) == held(m, u, k) + amount,
        forall|v: u64, a: Seq<char>|
            (v != u || a != k) ==> #[trigger] balance_or_zero(spec_deposit(m, u, k, amount), v, a) == balance_or_zero(
                m,
                v,
                a,
            ),
{
}

/// A lock is granted exactly when the account has at least the amount
/// available; a granted lock moves the amount from available to locked, a
/// refused one leaves the account's amounts as they were.
pub proof fn law_lock_granted_iff_available(m: Map<u64, Map<Seq<char>, Balance>>, u: u64, k: Seq<char>, amount: i128)
    requires
        lock_fits(m, u, k, amount),
    ensures
        spec_lock(m, u, k, amount).0 <==> balance_or_zero(m, u, k).available >= amount,
        spec_lock(m, u, k, amount).0 ==> balance_or_zero(spec_lock(m, u, k, amount).1, u, k).available
            == balance_or_zero(m, u, k).available - amount && balance_or_zero(spec_lock(m, u, k, amount).1, u, k).locked
            == balance_or_zero(m, u, k).locked + amount,
        !spec_lock(m, u, k, amount).0 ==> balance_or_zero(spec_lock(m, u, k, amount).1, u, k) == balance_or_zero(m, u, k),
{
}

/// An unlock of an existing account moves the amount from locked back to
/// available and changes no other account; without such an account nothing
/// changes.
pub proof fn law_unlock_moves_locked_back(m: Map<u64, Map<Seq<char>, Balance>>, u: u64, a: Seq<char>, amount: i128)
    requires
        m.contains_key(u) && m[u].contains_key(a) ==> fits(m[u][a].locked - amount) && fits(m[u][a].available + amount),
    ensures
        m.contains_key(u) && m[u].contains_key(a) ==> {
            &&& balance_or_zero(spec_unlock(m, u, a, amount), u, a).locked == m[u][a].locked - amount
            &&& balance_or_zero(spec_unlock(m, u, a, amount), u, a).available == m[u][a].available + amount
        },
        !(m.contains_key(u) && m[u].contains_key(a)) ==> spec_unlock(m, u, a, amount) == m,
        forall|v: u64, b: Seq<char>|
            (v != u || b != a) ==> #[trigger] balance_or_zero(spec_unlock(m, u, a, amount), v, b) == balance_or_zero(
                m,
                v,
                b,
            ),
{
}

/// A granted lock followed by an unlock of the same amount leaves an existing
/// account, and the whole bank, as it was.
pub proof fn law_lock_then_unlock(m: Map<u64, Map<Seq<char>, Balance>>, u: u64, k: Seq<char>, amount: i128)
    requires
        m.contains_key(u) && m[u].contains_key(k),
        lock_fits(m, u, k, amount),
        spec_lock(m, u, k, amount).0,
    ensures
        spec_unlock(spec_lock(m, u, k, amount).1, u, k, amount) == m,
{
    let m1 = spec_lock(m, u, k, amount).1;
    let m2 = spec_unlock(m1, u, k, amount);
    assert(m2[u] =~= m[u]);
    assert(m2 =~= m);
}

/// A refused lock changes no account that exists.
pub proof fn law_refused_lock_changes_nothing(m: Map<u64, Map<Seq<char>, Balance>>, u: u64, k: Seq<char>, amount: i128)
    requires
        m.contains_key(u) && m[u].contains_key(k),
        !spec_lock(m, u, k, amount).0,
    ensures
        spec_lock(m, u, k, amount).1 == m,
{
    let m1 = spec_lock(m, u, k, amount).1;
    assert(m1[u] =~= m[u]);
    assert(m1 =~= m);
}

/// A lock moves value inside one account: that account keeps its total
/// (available plus locked), a granted lock of a non-negative amount leaves its
/// available part non-negative when it was, and every other account is unchanged.
pub proof fn law_lock_keeps_total(m: Map<u64, Map<Seq<char>, Balance>>, u: u64, k: Seq<char>, amount: i128)
    requires
        lock_fits(m, u, k, amount),
    ensures
        ({
            let before = balance_or_zero(m, u, k);
            let after = balance_or_zero(spec_lock(m, u, k, amount).1, u, k);
            &&& after.available + after.locked == before.available + before.locked
            &&& spec_lock(m, u, k, amount).0 && amount >= 0 ==> 0 <= after.available <= before.available
        }),
        forall|v: u64, a: Seq<char>|
            (v != u || a != k) ==> #[trigger] balance_or_zero(spec_lock(m, u, k, amount).1, v, a) == balance_or_zero(
                m,
                v,
                a,
            ),
{
}

/// A transfer between two users conserves the asset: what leaves the sender's
/// account arrives as available in the receiver's, and no other account changes.
pub proof fn law_transfer_conserves(
    m: Map<u64, Map<Seq<char>, Balance>>,
    from: u64,
    to: u64,
    a: Seq<char>,
    amount: i128,
    from_locked: bool,
)
    requires
        transfer_fits(m, from, to, a, amount, from_locked),
        from != to,
        m.contains_key(from) && m[from].contains_key(a),
    ensures
        ({
            let after = spec_transfer(m, from, to, a, amount, from_locked);
            let f0 = balance_or_zero(m, from, a);
            let f1 = balance_or_zero(after, from, a);
            let t0 = balance_or_zero(m, to, a);
            let t1 = balance_or_zero(after, to, a);
            &&& f1.available + f1.locked == f0.available + f0.locked - amount
            &&& (if from_locked {
                f1.available == f0.available
            } else {
                f1.locked == f0.locked
            })
            &&& t1.available == t0.available + amount
            &&& t1.locked == t0.locked
            &&& f1.available + f1.locked + t1.available + t1.locked == f0.available + f0.locked + t0.available
                + t0.locked
        }),
        forall|v: u64, b: Seq<char>|
            ((v != from && v != to) || b != a) ==> #[trigger] balance_or_zero(
                spec_transfer(m, from, to, a, amount, from_locked),
                v,
                b,
            ) == balance_or_zero(m, v, b),
{
}

/// Settling a trade with a buying taker swaps what the two users held for it:
/// the taker's locked quote pays the maker and the maker's locked base goes to
/// the taker, both arriving as available; nothing else changes.
pub proof fn law_settlement_swaps_locked_funds(
    m: Map<u64, Map<Seq<char>, Balance>>,
    maker: u64,
    taker: u64,
    base_qty: i128,
    quote_qty: i128,
    base: Seq<char>,
    quote: Seq<char>,
)
    requires
        maker != taker,
        base != quote,
        m.contains_key(taker) && m[taker].contains_key(quote),
        m.contains_key(maker) && m[maker].contains_key(base),
        transfer_fits(m, taker, maker, quote, quote_qty, true),
        transfer_fits(spec_transfer(m, taker, maker, quote, quote_qty, true), maker, taker, base, base_qty, true),
    ensures
        ({
            let after = spec_transfer(
                spec_transfer(m, taker, maker, quote, quote_qty, true),
                maker,
                taker,
                base,
                base_qty,
                true,
            );
            &&& balance_or_zero(after, taker, quote).locked == balance_or_zero(m, taker, quote).locked - quote_qty
            &&& balance_or_zero(after, taker, quote).available == balance_or_zero(m, taker, quote).available
            &&& balance_or_zero(after, maker, quote).available == balance_or_zero(m, maker, quote).available
                + quote_qty
            &&& balance_or_zero(after, maker, quote).locked == balance_or_zero(m, maker, quote).locked
            &&& balance_or_zero(after, maker, base).locked == balance_or_zero(m, maker, base).locked - base_qty
            &&& balance_or_zero(after, maker, base).available == balance_or_zero(m, maker, base).available
            &&& balance_or_zero(after, taker, base).available == balance_or_zero(m, taker, base).available
                + base_qty
            &&& balance_or_zero(after, taker, base).locked == balance_or_zero(m, taker, base).locked
            &&& forall|v: u64, b: Seq<char>|
                ((v != maker && v != taker) || (b != base && b != quote)) ==> #[trigger] balance_or_zero(
                    after,
                    v,
                    b,
                ) == balance_or_zero(m, v, b)
        }),
{
    let m1 = spec_transfer(m, taker, maker, quote, quote_qty, true);
    law_transfer_conserves(m, taker, maker, quote, quote_qty, true);
    assert(m1.contains_key(maker) && m1[maker].contains_key(base)) by {
        assert(balance_or_zero(m1, maker, base) == balance_or_zero(m, maker, base));
    }
    law_transfer_conserves(m1, maker, taker, base, base_qty, true);
    assert(balance_or_zero(m1, maker, base) == balance_or_zero(m, maker, base));
    assert(balance_or_zero(m1, taker, base) == balance_or_zero(m, taker, base));
}

} // verus!
