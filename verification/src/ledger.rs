//! The engine's ledger: an account per user and asset.

use vstd::prelude::*;
use std::collections::HashMap;
use crate::accounts::{entry_index, lemma_map_after_update, lemma_name_index, name_index, named_map, names_unique, Named};

verus! {

broadcast use vstd::std_specs::hash::group_hash_axioms;

/// One account: free and held amounts, in units of 10^-8.
#[derive(Debug, Clone, Copy, PartialEq, Eq, Structural)]
pub struct Account {
    pub available: i128,
    pub locked: i128,
}

/// Every user's accounts, by asset name.
pub struct Ledger {
    pub accounts: HashMap<u64, Vec<Named<Account>>>,
}

impl View for Ledger {
    type V = Map<u64, Map<Seq<char>, Account>>;

    open spec fn view(&self) -> Map<u64, Map<Seq<char>, Account>> {
        self.accounts@.map_values(|v: Vec<Named<Account>>| named_map(v@))
    }
}

/// A user's accounts, empty for an unknown user.
pub open spec fn user_accounts(m: Map<u64, Map<Seq<char>, Account>>, u: u64) -> Map<Seq<char>, Account> {
    if m.contains_key(u) {
        m[u]
    } else {
        Map::empty()
    }
}

/// The account of `u` in `a`, zero where there is none.
pub open spec fn account_or_zero(m: Map<u64, Map<Seq<char>, Account>>, u: u64, a: Seq<char>) -> Account {
    let um = user_accounts(m, u);
    if um.contains_key(a) {
        um[a]
    } else {
        Account { available: 0, locked: 0 }
    }
}

/// The ledger with the account of `u` in `a` set to `acc`.
pub open spec fn set_account(m: Map<u64, Map<Seq<char>, Account>>, u: u64, a: Seq<char>, acc: Account) -> Map<
    u64,
    Map<Seq<char>, Account>,
> {
    m.insert(u, user_accounts(m, u).insert(a, acc))
}

/// Trusted: calls `HashMap::get_mut`: a mutable reference to the value at `k`
/// when the map has that key; what is written through it ends up in the map.
#[verifier::external_body]
fn hash_get_mut<'a, V>(m: &'a mut HashMap<u64, V>, k: u64) -> (r: Option<&'a mut V>)
    ensures
        match r {
            Some(v) => old(m)@.contains_key(k) && *v == old(m)@[k] && final(m)@ == old(m)@.insert(
                k,
                *final(v),
            ),
            None => !old(m)@.contains_key(k) && final(m)@ == old(m)@,
        },
{
    m.get_mut(&k)
}

impl Ledger {
    /// Every user's list holds each asset name once.
    pub open spec fn wf(&self) -> bool {
        forall|u: u64| #[trigger] self.accounts@.contains_key(u) ==> names_unique(self.accounts@[u]@)
    }

    /// An empty ledger.
    pub fn new() -> (r: Self)
        ensures
            r.wf(),
            r@ == Map::<u64, Map<Seq<char>, Account>>::empty(),
    {
        let r = Self { accounts: HashMap::new() };
        assert(r@ =~= Map::<u64, Map<Seq<char>, Account>>::empty());
        r
    }

    /// Deposits are taken elsewhere; nothing happens here.
    pub fn deposite() {
    }

    /// Withdrawals are taken elsewhere; nothing happens here.
    pub fn withdraw() {
    }

    /// The account of a user in an asset, to read or change in place; a missing
    /// user or account is created at zero first.
    pub fn get_account_mut(&mut self, user_id: u64, asset: String) -> (r: &mut Account)
        requires
            old(self).wf(),
        ensures
            final(self).wf(),
            *r == account_or_zero(old(self)@, user_id, asset@),
            final(self)@ == set_account(old(self)@, user_id, asset@, *final(r)),
    {
        let ghost m = self@;
        let ghost a = asset@;
        let ghost fs = *final(self);
        if !self.accounts.contains_key(&user_id) {
            self.accounts.insert(user_id, Vec::new());
            assert(named_map(Seq::<Named<Account>>::empty()) =~= Map::<Seq<char>, Account>::empty());
            assert(self@ =~= m.insert(user_id, Map::empty()));
        }
        let ghost m1 = self@;
        let ghost accs = self.accounts@;
        let v = hash_get_mut(&mut self.accounts, user_id).unwrap();
        let i = entry_index(v, asset, Account { available: 0, locked: 0 });
        let ghost s = v@;
        proof {
            lemma_name_index(s, a);
        }
        let ghost fv = *final(v);
        let r = &mut v[i].value;
        proof {
            let x = Named { name: s[i as int].name, value: *final(r) };
            assert(fv@ == s.update(i as int, x));
            lemma_map_after_update(s, i as int, x);
            assert(fs.accounts@ == accs.insert(user_id, fv));
            assert(named_map(fv@) =~= user_accounts(m, user_id).insert(a, *final(r)));
            assert(fs@ =~= set_account(m, user_id, a, *final(r)));
            assert forall|p: int, q: int| #![trigger fv@[p], fv@[q]] 0 <= p < q < fv@.len() implies fv@[p].name@
                != fv@[q].name@ by {
                assert(s[p].name@ != s[q].name@);
                assert(fv@[p].name@ == s[p].name@ && fv@[q].name@ == s[q].name@);
            }
            assert forall|u: u64| #[trigger] fs.accounts@.contains_key(u) implies names_unique(fs.accounts@[u]@) by {
                if u != user_id {
                    assert(fs.accounts@[u] == accs[u]);
                }
            }
        }
        r
    }

    /// Locks are taken elsewhere; nothing happens here.
    pub fn lock_funds() {
    }

    /// Unlocks are taken elsewhere; nothing happens here.
    pub fn unlock_funds() {
    }

    /// Settlement is done elsewhere; nothing happens here.
    pub fn settle_trade() {
    }
}

} // verus!
