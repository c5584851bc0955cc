use vstd::prelude::*;

verus! {

use crate::alist::find_index;
use crate::alist::keys_unique;
use crate::alist::lemma_lookup_none_no_match;
use crate::alist::lemma_lookup_push;
use crate::alist::lemma_lookup_some_at;
use crate::alist::lemma_lookup_update;
use crate::alist::lookup;
use crate::pda::pda_of;
use crate::seeds::partner_seeds;
use crate::seeds::self_seeds;
use crate::state::PartnerPromise;
use crate::state::SelfPromise;

// ---------------------------------------------------------------------------
// Lamport accounting: totals over the ledger and the two record stores.
// ---------------------------------------------------------------------------

/// Lamports held by address `a` in a balance list; an absent address holds none.
pub open spec fn bal(s: Seq<([u8; 32], u64)>, a: Seq<u8>) -> u64 {
    match lookup(s, a) {
        Some(v) => v,
        None => 0u64,
    }
}

/// All lamports sitting in balances.
pub open spec fn sum_balances(s: Seq<([u8; 32], u64)>) -> int
    decreases s.len(),
{
    if s.len() == 0 {
        0
    } else {
        s.last().1 + sum_balances(s.drop_last())
    }
}

/// All lamports escrowed behind self promises.
pub open spec fn sum_self_sizes(s: Seq<([u8; 32], SelfPromise)>) -> int
    decreases s.len(),
{
    if s.len() == 0 {
        0
    } else {
        s.last().1.size + sum_self_sizes(s.drop_last())
    }
}

/// All lamports escrowed behind partner promises.
pub open spec fn sum_partner_sizes(s: Seq<([u8; 32], PartnerPromise)>) -> int
    decreases s.len(),
{
    if s.len() == 0 {
        0
    } else {
        s.last().1.size + sum_partner_sizes(s.drop_last())
    }
}

pub proof fn lemma_sum_balances_push(s: Seq<([u8; 32], u64)>, e: ([u8; 32], u64))
    ensures
        sum_balances(s.push(e)) == sum_balances(s) + e.1,
{
    assert(s.push(e).drop_last() =~= s);
}

pub proof fn lemma_sum_balances_update(s: Seq<([u8; 32], u64)>, i: int, e: ([u8; 32], u64))
    requires
        0 <= i < s.len(),
    ensures
        sum_balances(s.update(i, e)) == sum_balances(s) - s[i].1 + e.1,
    decreases s.len(),
{
    if i == s.len() - 1 {
        assert(s.update(i, e).drop_last() =~= s.drop_last());
        assert(s.update(i, e).last() == e);
    } else {
        assert(s.update(i, e).drop_last() =~= s.drop_last().update(i, e));
        assert(s.update(i, e).last() == s.last());
        lemma_sum_balances_update(s.drop_last(), i, e);
    }
}

pub proof fn lemma_sum_balances_nonneg(s: Seq<([u8; 32], u64)>)
    ensures
        sum_balances(s) >= 0,
    decreases s.len(),
{
    if s.len() > 0 {
        lemma_sum_balances_nonneg(s.drop_last());
    }
}

pub proof fn lemma_sum_balances_index(s: Seq<([u8; 32], u64)>, i: int)
    requires
        0 <= i < s.len(),
    ensures
        s[i].1 <= sum_balances(s),
    decreases s.len(),
{
    if i == s.len() - 1 {
        lemma_sum_balances_nonneg(s.drop_last());
    } else {
        lemma_sum_balances_index(s.drop_last(), i);
        assert(s.drop_last()[i] == s[i]);
    }
}

pub proof fn lemma_sum_self_push(s: Seq<([u8; 32], SelfPromise)>, e: ([u8; 32], SelfPromise))
    ensures
        sum_self_sizes(s.push(e)) == sum_self_sizes(s) + e.1.size,
{
    assert(s.push(e).drop_last() =~= s);
}

pub proof fn lemma_sum_self_remove(s: Seq<([u8; 32], SelfPromise)>, i: int)
    requires
        0 <= i < s.len(),
    ensures
        sum_self_sizes(s.remove(i)) == sum_self_sizes(s) - s[i].1.size,
    decreases s.len(),
{
    if i == s.len() - 1 {
        assert(s.remove(i) =~= s.drop_last());
    } else {
        assert(s.remove(i).drop_last() =~= s.drop_last().remove(i));
        assert(s.remove(i).last() == s.last());
        lemma_sum_self_remove(s.drop_last(), i);
    }
}

pub proof fn lemma_sum_self_nonneg(s: Seq<([u8; 32], SelfPromise)>)
    ensures
        sum_self_sizes(s) >= 0,
    decreases s.len(),
{
    if s.len() > 0 {
        lemma_sum_self_nonneg(s.drop_last());
    }
}

pub proof fn lemma_sum_self_index(s: Seq<([u8; 32], SelfPromise)>, i: int)
    requires
        0 <= i < s.len(),
    ensures
        s[i].1.size <= sum_self_sizes(s),
    decreases s.len(),
{
    if i == s.len() - 1 {
        lemma_sum_self_nonneg(s.drop_last());
    } else {
        lemma_sum_self_index(s.drop_last(), i);
        assert(s.drop_last()[i] == s[i]);
    }
}

pub proof fn lemma_sum_partner_push(s: Seq<([u8; 32], PartnerPromise)>, e: ([u8; 32], PartnerPromise))
    ensures
        sum_partner_sizes(s.push(e)) == sum_partner_sizes(s) + e.1.size,
{
    assert(s.push(e).drop_last() =~= s);
}

pub proof fn lemma_sum_partner_remove(s: Seq<([u8; 32], PartnerPromise)>, i: int)
    requires
        0 <= i < s.len(),
    ensures
        sum_partner_sizes(s.remove(i)) == sum_partner_sizes(s) - s[i].1.size,
    decreases s.len(),
{
    if i == s.len() - 1 {
        assert(s.remove(i) =~= s.drop_last());
    } else {
        assert(s.remove(i).drop_last() =~= s.drop_last().remove(i));
        assert(s.remove(i).last() == s.last());
        lemma_sum_partner_remove(s.drop_last(), i);
    }
}

pub proof fn lemma_sum_partner_nonneg(s: Seq<([u8; 32], PartnerPromise)>)
    ensures
        sum_partner_sizes(s) >= 0,
    decreases s.len(),
{
    if s.len() > 0 {
        lemma_sum_partner_nonneg(s.drop_last());
    }
}

pub proof fn lemma_sum_partner_index(s: Seq<([u8; 32], PartnerPromise)>, i: int)
    requires
        0 <= i < s.len(),
    ensures
        s[i].1.size <= sum_partner_sizes(s),
    decreases s.len(),
{
    if i == s.len() - 1 {
        lemma_sum_partner_nonneg(s.drop_last());
    } else {
        lemma_sum_partner_index(s.drop_last(), i);
        assert(s.drop_last()[i] == s[i]);
    }
}

/// No single balance exceeds the sum of all balances.
pub proof fn lemma_bal_le_sum(s: Seq<([u8; 32], u64)>, a: Seq<u8>)
    ensures
        bal(s, a) <= sum_balances(s),
{
    if lookup(s, a) is Some {
        lemma_lookup_some_at(s, a);
        let i = choose|i: int|
            0 <= i < s.len() && (#[trigger] s[i]).0@ == a && s[i].1 == lookup(s, a)->Some_0;
        lemma_sum_balances_index(s, i);
    } else {
        lemma_sum_balances_nonneg(s);
    }
}

/// No single self escrow exceeds the sum of all self escrows.
pub proof fn lemma_self_escrow_le_sum(s: Seq<([u8; 32], SelfPromise)>, a: Seq<u8>)
    requires
        lookup(s, a) is Some,
    ensures
        lookup(s, a)->Some_0.size <= sum_self_sizes(s),
{
    lemma_lookup_some_at(s, a);
    let i = choose|i: int|
        0 <= i < s.len() && (#[trigger] s[i]).0@ == a && s[i].1 == lookup(s, a)->Some_0;
    lemma_sum_self_index(s, i);
}

/// No single partner escrow exceeds the sum of all partner escrows.
pub proof fn lemma_partner_escrow_le_sum(s: Seq<([u8; 32], PartnerPromise)>, a: Seq<u8>)
    requires
        lookup(s, a) is Some,
    ensures
        lookup(s, a)->Some_0.size <= sum_partner_sizes(s),
{
    lemma_lookup_some_at(s, a);
    let i = choose|i: int|
        0 <= i < s.len() && (#[trigger] s[i]).0@ == a && s[i].1 == lookup(s, a)->Some_0;
    lemma_sum_partner_index(s, i);
}

// ---------------------------------------------------------------------------
// The lifecycle engine.
// ---------------------------------------------------------------------------

/// The commitment lifecycle engine: account balances, the active records of
/// both promise variants keyed by their derived addresses, and the two fixed
/// identities every transition consults.
pub struct Engine {
    /// Identity under which record addresses are derived.
    pub program_id: [u8; 32],
    /// The fixed protocol authority: receives creation fees and forfeits.
    pub authority: [u8; 32],
    /// Account balances, in lamports.
    pub accounts: Vec<([u8; 32], u64)>,
    /// Active self promises, keyed by derived address.
    pub self_promises: Vec<([u8; 32], SelfPromise)>,
    /// Active partner promises, keyed by derived address.
    pub partner_promises: Vec<([u8; 32], PartnerPromise)>,
}

impl Engine {
    /// Lamports held by account `a`; an absent account holds none.
    pub open spec fn balance_of(self, a: Seq<u8>) -> u64 {
        bal(self.accounts@, a)
    }

    /// The self promise at address `a`, if one is active.
    pub open spec fn self_promise_at(self, a: Seq<u8>) -> Option<SelfPromise> {
        lookup(self.self_promises@, a)
    }

    /// The partner promise at address `a`, if one is active.
    pub open spec fn partner_promise_at(self, a: Seq<u8>) -> Option<PartnerPromise> {
        lookup(self.partner_promises@, a)
    }

    /// Lamports escrowed behind address `a`.
    pub open spec fn backing_of(self, a: Seq<u8>) -> u64 {
        match self.self_promise_at(a) {
            Some(p) => p.size,
            None => match self.partner_promise_at(a) {
                Some(p) => p.size,
                None => 0u64,
            },
        }
    }

    /// Whether any record sits at address `a`.
    pub open spec fn occupied(self, a: Seq<u8>) -> bool {
        self.self_promise_at(a) is Some || self.partner_promise_at(a) is Some
    }

    /// Every lamport the engine tracks: balances plus both escrow pools.
    pub open spec fn total_value(self) -> int {
        sum_balances(self.accounts@) + sum_self_sizes(self.self_promises@) + sum_partner_sizes(
            self.partner_promises@,
        )
    }

    /// Well-formed: addresses are unique per store, no address carries a
    /// record of both variants, and all value together fits in one balance,
    /// so no transfer can overflow a recipient.
    pub open spec fn wf(self) -> bool {
        &&& keys_unique(self.accounts@)
        &&& keys_unique(self.self_promises@)
        &&& keys_unique(self.partner_promises@)
        &&& forall|a: Seq<u8>|
            #[trigger] self.self_promise_at(a) is Some ==> self.partner_promise_at(a) is None
        &&& self.total_value() <= u64::MAX
    }

    /// Derived address and discriminant of a self promise's seed tuple.
    pub open spec fn self_address_of(
        self,
        creator: Seq<u8>,
        text: Seq<u8>,
        deadline_secs: u64,
        size: u64,
    ) -> Option<(Seq<u8>, u8)> {
        pda_of(self_seeds(creator, text, deadline_secs, size), self.program_id@)
    }

    /// Derived address and discriminant of a partner promise's seed tuple.
    pub open spec fn partner_address_of(
        self,
        creator: Seq<u8>,
        partner: Seq<u8>,
        text: Seq<u8>,
        deadline_secs: u64,
        size: u64,
    ) -> Option<(Seq<u8>, u8)> {
        pda_of(partner_seeds(creator, partner, text, deadline_secs, size), self.program_id@)
    }

    /// A fresh engine: no accounts, no records.
    pub fn new(program_id: [u8; 32], authority: [u8; 32]) -> (e: Engine)
        ensures
            e.wf(),
            e.program_id == program_id,
            e.authority == authority,
            forall|a: Seq<u8>| #[trigger] e.balance_of(a) == 0,
            forall|a: Seq<u8>| #[trigger] e.self_promise_at(a) is None,
            forall|a: Seq<u8>| #[trigger] e.partner_promise_at(a) is None,
            e.total_value() == 0,
    {
        let e = Engine {
            program_id,
            authority,
            accounts: Vec::new(),
            self_promises: Vec::new(),
            partner_promises: Vec::new(),
        };
        e
    }

    /// Endow account `addr` with `amount` fresh lamports. This stands for the
    /// surrounding ledger funding an account from outside the engine; it is
    /// the only transition that changes the total value the engine tracks.
    pub fn fund(&mut self, addr: &[u8; 32], amount: u64)
        requires
            old(self).wf(),
            old(self).total_value() + amount <= u64::MAX,
        ensures
            final(self).wf(),
            final(self).program_id == old(self).program_id,
            final(self).authority == old(self).authority,
            forall|a: Seq<u8>|
                #[trigger] final(self).balance_of(a) == if a == addr@ {
                    (old(self).balance_of(addr@) + amount) as u64
                } else {
                    old(self).balance_of(a)
                },
            final(self).self_promises@ == old(self).self_promises@,
            final(self).partner_promises@ == old(self).partner_promises@,
            final(self).total_value() == old(self).total_value() + amount,
    {
        proof {
            lemma_bal_le_sum(self.accounts@, addr@);
            lemma_sum_self_nonneg(self.self_promises@);
            lemma_sum_partner_nonneg(self.partner_promises@);
        }
        credit(&mut self.accounts, addr, amount);
        proof {
            assert forall|a: Seq<u8>| #[trigger]
                self.self_promise_at(a) is Some implies self.partner_promise_at(a) is None by {
                assert(old(self).self_promise_at(a) is Some);
            }
        }
    }

    /// Current balance of `addr`.
    pub fn balance(&self, addr: &[u8; 32]) -> (r: u64)
        ensures
            r == self.balance_of(addr@),
    {
        match find_index(&self.accounts, addr) {
            Some(i) => self.accounts[i].1,
            None => 0,
        }
    }

    /// The self promise at `addr`, if one is active.
    pub fn self_promise(&self, addr: &[u8; 32]) -> (r: Option<SelfPromise>)
        ensures
            r == self.self_promise_at(addr@),
    {
        match find_index(&self.self_promises, addr) {
            Some(i) => Some(self.self_promises[i].1),
            None => None,
        }
    }

    /// The partner promise at `addr`, if one is active.
    pub fn partner_promise(&self, addr: &[u8; 32]) -> (r: Option<PartnerPromise>)
        ensures
            r == self.partner_promise_at(addr@),
    {
        match find_index(&self.partner_promises, addr) {
            Some(i) => Some(self.partner_promises[i].1),
            None => None,
        }
    }
}

/// Both engines hold exactly the same state.
pub open spec fn same_state(pre: Engine, post: Engine) -> bool {
    &&& post.program_id == pre.program_id
    &&& post.authority == pre.authority
    &&& post.accounts@ == pre.accounts@
    &&& post.self_promises@ == pre.self_promises@
    &&& post.partner_promises@ == pre.partner_promises@
}

/// Add `amount` lamports to `addr`, creating the account if absent.
pub(crate) fn credit(accounts: &mut Vec<([u8; 32], u64)>, addr: &[u8; 32], amount: u64)
    requires
        keys_unique(old(accounts)@),
        bal(old(accounts)@, addr@) + amount <= u64::MAX,
    ensures
        keys_unique(final(accounts)@),
        forall|a: Seq<u8>|
            #[trigger] bal(final(accounts)@, a) == if a == addr@ {
                (bal(old(accounts)@, addr@) + amount) as u64
            } else {
                bal(old(accounts)@, a)
            },
        sum_balances(final(accounts)@) == sum_balances(old(accounts)@) + amount,
{
    let found = find_index(accounts, addr);
    match found {
        Some(i) => {
            let entry: ([u8; 32], u64) = (accounts[i].0, accounts[i].1 + amount);
            accounts[i] = entry;
            proof {
                let s = old(accounts)@;
                assert(accounts@ =~= s.update(i as int, entry));
                assert forall|a: Seq<u8>|
                    #[trigger] bal(accounts@, a) == if a == addr@ {
                        (bal(s, addr@) + amount) as u64
                    } else {
                        bal(s, a)
                    } by {
                    lemma_lookup_update(s, a, i as int, entry);
                }
                lemma_sum_balances_update(s, i as int, entry);
                assert forall|p: int, q: int|
                    0 <= p < q < accounts@.len() implies accounts@[p].0@ != accounts@[q].0@ by {
                    assert(accounts@[p].0@ == s[p].0@);
                    assert(accounts@[q].0@ == s[q].0@);
                }
            }
        },
        None => {
            let entry: ([u8; 32], u64) = (*addr, amount);
            accounts.push(entry);
            proof {
                let s = old(accounts)@;
                lemma_lookup_none_no_match(s, addr@);
                assert forall|a: Seq<u8>|
                    #[trigger] bal(accounts@, a) == if a == addr@ {
                        (bal(s, addr@) + amount) as u64
                    } else {
                        bal(s, a)
                    } by {
                    lemma_lookup_push(s, a, entry);
                }
                lemma_sum_balances_push(s, entry);
                assert forall|p: int, q: int|
                    0 <= p < q < accounts@.len() implies accounts@[p].0@ != accounts@[q].0@ by {
                    if q < s.len() {
                        assert(s[p].0@ != s[q].0@);
                    } else {
                        assert(accounts@[q].0@ == addr@);
                        assert(s[p].0@ != addr@);
                    }
                }
            }
        },
    }
}

/// Take `amount` lamports from `addr`, which must hold at least that much.
pub(crate) fn debit(accounts: &mut Vec<([u8; 32], u64)>, addr: &[u8; 32], amount: u64)
    requires
        keys_unique(old(accounts)@),
        amount <= bal(old(accounts)@, addr@),
    ensures
        keys_unique(final(accounts)@),
        forall|a: Seq<u8>|
            #[trigger] bal(final(accounts)@, a) == if a == addr@ {
                (bal(old(accounts)@, addr@) - amount) as u64
            } else {
                bal(old(accounts)@, a)
            },
        sum_balances(final(accounts)@) == sum_balances(old(accounts)@) - amount,
{
    let found = find_index(accounts, addr);
    match found {
        Some(i) => {
            let entry: ([u8; 32], u64) = (accounts[i].0, accounts[i].1 - amount);
            accounts[i] = entry;
            proof {
                let s = old(accounts)@;
                assert(accounts@ =~= s.update(i as int, entry));
                assert forall|a: Seq<u8>|
                    #[trigger] bal(accounts@, a) == if a == addr@ {
                        (bal(s, addr@) - amount) as u64
                    } else {
                        bal(s, a)
                    } by {
                    lemma_lookup_update(s, a, i as int, entry);
                }
                lemma_sum_balances_update(s, i as int, entry);
                assert forall|p: int, q: int|
                    0 <= p < q < accounts@.len() implies accounts@[p].0@ != accounts@[q].0@ by {
                    assert(accounts@[p].0@ == s[p].0@);
                    assert(accounts@[q].0@ == s[q].0@);
                }
            }
        },
        None => {
        },
    }
}

} // verus!
