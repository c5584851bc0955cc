use vstd::prelude::*;

verus! {

use crate::FEE_TO_AUTHOR;
use crate::MIN_DEPOSIT;
use crate::alist::find_index;
use crate::alist::lemma_keys_unique_remove;
use crate::alist::lemma_lookup_none_no_match;
use crate::alist::lemma_lookup_push;
use crate::alist::lemma_lookup_remove;
use crate::engine::Engine;
use crate::engine::bal;
use crate::engine::credit;
use crate::engine::debit;
use crate::engine::lemma_bal_le_sum;
use crate::engine::lemma_self_escrow_le_sum;
use crate::engine::lemma_sum_partner_nonneg;
use crate::engine::lemma_sum_self_nonneg;
use crate::engine::lemma_sum_self_push;
use crate::engine::lemma_sum_self_remove;
use crate::engine::same_state;
use crate::errors::PromiseError;
use crate::pda::derive_self_address;
use crate::state::SelfPromise;

/// Parties to the creation of a self promise.
#[derive(Clone, Copy)]
pub struct MakeSelfPromise {
    /// The creator; signs, funds the fee and the deposit.
    pub signer: [u8; 32],
}

/// Parties to the fulfillment of a self promise. The creator is the signer:
/// the record's address is derived from the signer's identity, so nobody else
/// can even name the record.
#[derive(Clone, Copy)]
pub struct FulFillSelfPromise {
    /// The creator, reclaiming the deposit.
    pub signer: [u8; 32],
}

/// Parties to the forfeiture of a self promise.
#[derive(Clone, Copy)]
pub struct BreakSelfPromise {
    /// The claimant; must be the protocol authority.
    pub signer: [u8; 32],
    /// The creator, needed to re-derive the record's address.
    pub creator: [u8; 32],
}

/// Which result creating a self promise returns, checked in this order:
/// the deposit floor, the deadline being strictly in the future, the seed
/// tuple deriving an address at all, that address being free, and the
/// creator covering fee plus deposit.
pub open spec fn make_self_outcome(
    pre: Engine,
    signer: Seq<u8>,
    text: Seq<u8>,
    deadline_secs: u64,
    size: u64,
    now: u64,
) -> Result<(), PromiseError> {
    if size < MIN_DEPOSIT {
        Err(PromiseError::InsufficientDeposit)
    } else if deadline_secs <= now {
        Err(PromiseError::DeadlineNotFuture)
    } else {
        match pre.self_address_of(signer, text, deadline_secs, size) {
            None => Err(PromiseError::RecordNotFound),
            Some(ab) => {
                if pre.occupied(ab.0) {
                    Err(PromiseError::RecordAlreadyExists)
                } else if pre.balance_of(signer) < FEE_TO_AUTHOR + size {
                    Err(PromiseError::InsufficientBalance)
                } else {
                    Ok(())
                }
            },
        }
    }
}

/// What a successful creation does: the creator pays the fee to the authority
/// and moves `size` into escrow behind the new record, which carries the
/// label, the deadline, the escrow amount and the derivation discriminant.
/// No other balance and no other record moves, and no value appears or
/// vanishes.
pub open spec fn make_self_applied(
    pre: Engine,
    post: Engine,
    signer: Seq<u8>,
    text: Seq<u8>,
    deadline_secs: u64,
    size: u64,
) -> bool {
    let ab = pre.self_address_of(signer, text, deadline_secs, size)->Some_0;
    &&& post.program_id == pre.program_id
    &&& post.authority == pre.authority
    &&& forall|a: Seq<u8>|
        #[trigger] post.balance_of(a) as int == (if a == signer && a == pre.authority@ {
            pre.balance_of(a) - size
        } else if a == signer {
            pre.balance_of(a) - FEE_TO_AUTHOR - size
        } else if a == pre.authority@ {
            pre.balance_of(a) + FEE_TO_AUTHOR
        } else {
            pre.balance_of(a) as int
        })
    &&& (post.self_promise_at(ab.0) matches Some(p)
        && p.text@ == text
        && p.unix_seconds == deadline_secs
        && p.size == size
        && p.bump == ab.1)
    &&& forall|a: Seq<u8>| a != ab.0 ==> #[trigger] post.self_promise_at(a) == pre.self_promise_at(a)
    &&& forall|a: Seq<u8>| #[trigger] post.partner_promise_at(a) == pre.partner_promise_at(a)
    &&& post.total_value() == pre.total_value()
}

/// Which result fulfilling a self promise returns: the record must exist at
/// the address derived from the signer's own identity and the call's seed
/// parameters, and the deadline must not have passed; the boundary instant
/// itself still fulfills.
pub open spec fn fulfill_self_outcome(
    pre: Engine,
    signer: Seq<u8>,
    text: Seq<u8>,
    deadline_secs: u64,
    size: u64,
    now: u64,
) -> Result<(), PromiseError> {
    match pre.self_address_of(signer, text, deadline_secs, size) {
        None => Err(PromiseError::RecordNotFound),
        Some(ab) => match pre.self_promise_at(ab.0) {
            None => Err(PromiseError::RecordNotFound),
            Some(p) => {
                if now > p.unix_seconds {
                    Err(PromiseError::DeadlinePassed)
                } else {
                    Ok(())
                }
            },
        },
    }
}

/// What a successful fulfillment does: the whole escrow returns to the
/// creator, the record is gone and nothing backs its address any more.
pub open spec fn fulfill_self_applied(
    pre: Engine,
    post: Engine,
    signer: Seq<u8>,
    text: Seq<u8>,
    deadline_secs: u64,
    size: u64,
) -> bool {
    let addr = pre.self_address_of(signer, text, deadline_secs, size)->Some_0.0;
    let p = pre.self_promise_at(addr)->Some_0;
    &&& post.program_id == pre.program_id
    &&& post.authority == pre.authority
    &&& forall|a: Seq<u8>|
        #[trigger] post.balance_of(a) as int == (if a == signer {
            pre.balance_of(a) + p.size
        } else {
            pre.balance_of(a) as int
        })
    &&& post.self_promise_at(addr) is None
    &&& post.backing_of(addr) == 0
    &&& forall|a: Seq<u8>| a != addr ==> #[trigger] post.self_promise_at(a) == pre.self_promise_at(a)
    &&& forall|a: Seq<u8>| #[trigger] post.partner_promise_at(a) == pre.partner_promise_at(a)
    &&& post.total_value() == pre.total_value()
}

/// Which result breaking a self promise returns: only the protocol authority
/// may break, the record must exist at the address derived from the creator's
/// identity, and the deadline must have been reached.
pub open spec fn break_self_outcome(
    pre: Engine,
    signer: Seq<u8>,
    creator: Seq<u8>,
    text: Seq<u8>,
    deadline_secs: u64,
    size: u64,
    now: u64,
) -> Result<(), PromiseError> {
    if signer != pre.authority@ {
        Err(PromiseError::Unauthorized)
    } else {
        match pre.self_address_of(creator, text, deadline_secs, size) {
            None => Err(PromiseError::RecordNotFound),
            Some(ab) => match pre.self_promise_at(ab.0) {
                None => Err(PromiseError::RecordNotFound),
                Some(p) => {
                    if now < p.unix_seconds {
                        Err(PromiseError::DeadlineNotYetPassed)
                    } else {
                        Ok(())
                    }
                },
            },
        }
    }
}

/// What a successful break does: the whole escrow is forfeited to the
/// authority, the record is gone and nothing backs its address any more.
pub open spec fn break_self_applied(
    pre: Engine,
    post: Engine,
    creator: Seq<u8>,
    text: Seq<u8>,
    deadline_secs: u64,
    size: u64,
) -> bool {
    let addr = pre.self_address_of(creator, text, deadline_secs, size)->Some_0.0;
    let p = pre.self_promise_at(addr)->Some_0;
    &&& post.program_id == pre.program_id
    &&& post.authority == pre.authority
    &&& forall|a: Seq<u8>|
        #[trigger] post.balance_of(a) as int == (if a == pre.authority@ {
            pre.balance_of(a) + p.size
        } else {
            pre.balance_of(a) as int
        })
    &&& post.self_promise_at(addr) is None
    &&& post.backing_of(addr) == 0
    &&& forall|a: Seq<u8>| a != addr ==> #[trigger] post.self_promise_at(a) == pre.self_promise_at(a)
    &&& forall|a: Seq<u8>| #[trigger] post.partner_promise_at(a) == pre.partner_promise_at(a)
    &&& post.total_value() == pre.total_value()
}

impl Engine {
    /// Create a self promise. The deposit must reach the floor, the deadline
    /// must lie strictly in the future, and no record may already sit at the
    /// derived address. On success the creator pays the fixed fee to the
    /// authority and `size` lamports into escrow.
    pub fn make_self_promise(
        &mut self,
        accounts: &MakeSelfPromise,
        text: [u8; 8],
        deadline_secs: u64,
        size: u64,
        now: u64,
    ) -> (r: Result<(), PromiseError>)
        requires
            old(self).wf(),
        ensures
            final(self).wf(),
            r == make_self_outcome(*old(self), accounts.signer@, text@, deadline_secs, size, now),
            r is Ok ==> make_self_applied(
                *old(self),
                *final(self),
                accounts.signer@,
                text@,
                deadline_secs,
                size,
            ),
            r is Err ==> same_state(*old(self), *final(self)),
    {
        if size < MIN_DEPOSIT {
            return Err(PromiseError::InsufficientDeposit);
        }
        if deadline_secs <= now {
            return Err(PromiseError::DeadlineNotFuture);
        }
        let derived = derive_self_address(
            &self.program_id,
            &accounts.signer,
            &text,
            deadline_secs,
            size,
        );
        let (addr, bump) = match derived {
            None => {
                return Err(PromiseError::RecordNotFound);
            },
            Some(p) => p,
        };
        let in_self = self.self_promise(&addr);
        let in_partner = self.partner_promise(&addr);
        if in_self.is_some() || in_partner.is_some() {
            return Err(PromiseError::RecordAlreadyExists);
        }
        let balance = self.balance(&accounts.signer);
        if (balance as u128) < (FEE_TO_AUTHOR as u128) + (size as u128) {
            return Err(PromiseError::InsufficientBalance);
        }
        let ghost pre = *self;
        proof {
            lemma_bal_le_sum(self.accounts@, self.authority@);
            lemma_sum_self_nonneg(self.self_promises@);
            lemma_sum_partner_nonneg(self.partner_promises@);
        }
        debit(&mut self.accounts, &accounts.signer, FEE_TO_AUTHOR);
        let ghost s1 = self.accounts@;
        proof {
            lemma_bal_le_sum(s1, self.authority@);
        }
        credit(&mut self.accounts, &self.authority, FEE_TO_AUTHOR);
        let ghost s2 = self.accounts@;
        debit(&mut self.accounts, &accounts.signer, size);
        let promise = SelfPromise { text, unix_seconds: deadline_secs, size, bump };
        proof {
            lemma_lookup_none_no_match(pre.self_promises@, addr@);
            lemma_sum_self_push(pre.self_promises@, (addr, promise));
        }
        self.self_promises.push((addr, promise));
        proof {
            assert forall|a: Seq<u8>|
                #[trigger] self.balance_of(a) as int == (if a == accounts.signer@ && a
                    == pre.authority@ {
                    pre.balance_of(a) - size
                } else if a == accounts.signer@ {
                    pre.balance_of(a) - FEE_TO_AUTHOR - size
                } else if a == pre.authority@ {
                    pre.balance_of(a) + FEE_TO_AUTHOR
                } else {
                    pre.balance_of(a) as int
                }) by {
                assert(bal(s1, a) == if a == accounts.signer@ {
                    (bal(pre.accounts@, accounts.signer@) - FEE_TO_AUTHOR) as u64
                } else {
                    bal(pre.accounts@, a)
                });
            }
            assert forall|a: Seq<u8>| #[trigger]
                self.self_promise_at(a) == (if a == addr@ {
                    Some(promise)
                } else {
                    pre.self_promise_at(a)
                }) by {
                lemma_lookup_push(pre.self_promises@, a, (addr, promise));
            }
            assert forall|p: int, q: int|
                0 <= p < q < self.self_promises@.len() implies self.self_promises@[p].0@
                != self.self_promises@[q].0@ by {
                if q < pre.self_promises@.len() {
                    assert(pre.self_promises@[p].0@ != pre.self_promises@[q].0@);
                } else {
                    assert(self.self_promises@[q].0@ == addr@);
                    assert(pre.self_promises@[p].0@ != addr@);
                }
            }
            assert forall|a: Seq<u8>| #[trigger]
                self.self_promise_at(a) is Some implies self.partner_promise_at(a) is None by {
                if a == addr@ {
                    assert(pre.partner_promise_at(addr@) is None);
                } else {
                    assert(pre.self_promise_at(a) is Some);
                }
            }
            assert(self.total_value() == pre.total_value());
        }
        Ok(())
    }

    /// Fulfill a self promise: before or at the deadline, the signer (who is
    /// the creator, since the address derives from the signer) reclaims the
    /// whole escrow and the record is closed.
    pub fn fulfill_self_promise(
        &mut self,
        accounts: &FulFillSelfPromise,
        text: [u8; 8],
        deadline_secs: u64,
        size: u64,
        now: u64,
    ) -> (r: Result<(), PromiseError>)
        requires
            old(self).wf(),
        ensures
            final(self).wf(),
            r == fulfill_self_outcome(
                *old(self),
                accounts.signer@,
                text@,
                deadline_secs,
                size,
                now,
            ),
            r is Ok ==> fulfill_self_applied(
                *old(self),
                *final(self),
                accounts.signer@,
                text@,
                deadline_secs,
                size,
            ),
            r is Err ==> same_state(*old(self), *final(self)),
    {
        let derived = derive_self_address(
            &self.program_id,
            &accounts.signer,
            &text,
            deadline_secs,
            size,
        );
        let addr = match derived {
            None => {
                return Err(PromiseError::RecordNotFound);
            },
            Some(p) => p.0,
        };
        let i = match find_index(&self.self_promises, &addr) {
            None => {
                return Err(PromiseError::RecordNotFound);
            },
            Some(i) => i,
        };
        let promise: SelfPromise = self.self_promises[i].1;
        if now > promise.unix_seconds {
            return Err(PromiseError::DeadlinePassed);
        }
        let ghost pre = *self;
        proof {
            lemma_bal_le_sum(self.accounts@, accounts.signer@);
            lemma_self_escrow_le_sum(self.self_promises@, addr@);
            lemma_sum_partner_nonneg(self.partner_promises@);
            lemma_sum_self_remove(pre.self_promises@, i as int);
            lemma_keys_unique_remove(pre.self_promises@, i as int);
            assert(forall|j: int|
                0 <= j < pre.self_promises@.len() && j != i ==> pre.self_promises@[j].0@
                    != pre.self_promises@[i as int].0@);
        }
        let _removed = self.self_promises.remove(i);
        credit(&mut self.accounts, &accounts.signer, promise.size);
        proof {
            assert forall|a: Seq<u8>| #[trigger]
                self.self_promise_at(a) == (if a == addr@ {
                    None::<SelfPromise>
                } else {
                    pre.self_promise_at(a)
                }) by {
                lemma_lookup_remove(pre.self_promises@, a, i as int);
            }
            assert forall|a: Seq<u8>| #[trigger]
                self.self_promise_at(a) is Some implies self.partner_promise_at(a) is None by {
                assert(pre.self_promise_at(a) is Some);
            }
            assert(pre.self_promise_at(addr@) is Some);
            assert(pre.partner_promise_at(addr@) is None);
            assert(self.backing_of(addr@) == 0);
            assert(self.total_value() == pre.total_value());
        }
        Ok(())
    }

    /// Break a self promise: once the deadline has been reached, the protocol
    /// authority (and nobody else) claims the forfeited escrow and the record
    /// is closed.
    pub fn break_self_promise(
        &mut self,
        accounts: &BreakSelfPromise,
        text: [u8; 8],
        deadline_secs: u64,
        size: u64,
        now: u64,
    ) -> (r: Result<(), PromiseError>)
        requires
            old(self).wf(),
        ensures
            final(self).wf(),
            r == break_self_outcome(
                *old(self),
                accounts.signer@,
                accounts.creator@,
                text@,
                deadline_secs,
                size,
                now,
            ),
            r is Ok ==> break_self_applied(
                *old(self),
                *final(self),
                accounts.creator@,
                text@,
                deadline_secs,
                size,
            ),
            r is Err ==> same_state(*old(self), *final(self)),
    {
        let authorized = crate::alist::addr_eq(&accounts.signer, &self.authority);
        if !authorized {
            return Err(PromiseError::Unauthorized);
        }
        let derived = derive_self_address(
            &self.program_id,
            &accounts.creator,
            &text,
            deadline_secs,
            size,
        );
        let addr = match derived {
            None => {
                return Err(PromiseError::RecordNotFound);
            },
            Some(p) => p.0,
        };
        let i = match find_index(&self.self_promises, &addr) {
            None => {
                return Err(PromiseError::RecordNotFound);
            },
            Some(i) => i,
        };
        let promise: SelfPromise = self.self_promises[i].1;
        if now < promise.unix_seconds {
            return Err(PromiseError::DeadlineNotYetPassed);
        }
        let ghost pre = *self;
        proof {
            lemma_bal_le_sum(self.accounts@, accounts.signer@);
            lemma_self_escrow_le_sum(self.self_promises@, addr@);
            lemma_sum_partner_nonneg(self.partner_promises@);
            lemma_sum_self_remove(pre.self_promises@, i as int);
            lemma_keys_unique_remove(pre.self_promises@, i as int);
            assert(forall|j: int|
                0 <= j < pre.self_promises@.len() && j != i ==> pre.self_promises@[j].0@
                    != pre.self_promises@[i as int].0@);
        }
        let _removed = self.self_promises.remove(i);
        credit(&mut self.accounts, &accounts.signer, promise.size);
        proof {
            assert forall|a: Seq<u8>| #[trigger]
                self.self_promise_at(a) == (if a == addr@ {
                    None::<SelfPromise>
                } else {
                    pre.self_promise_at(a)
                }) by {
                lemma_lookup_remove(pre.self_promises@, a, i as int);
            }
            assert forall|a: Seq<u8>| #[trigger]
                self.self_promise_at(a) is Some implies self.partner_promise_at(a) is None by {
                assert(pre.self_promise_at(a) is Some);
            }
            assert(pre.self_promise_at(addr@) is Some);
            assert(pre.partner_promise_at(addr@) is None);
            assert(self.backing_of(addr@) == 0);
            assert(self.total_value() == pre.total_value());
        }
        Ok(())
    }
}

} // verus!
