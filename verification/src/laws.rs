use vstd::prelude::*;

verus! {

use crate::engine::Engine;
use crate::errors::PromiseError;
use crate::self_ixs::break_self_outcome;
use crate::self_ixs::break_self_applied;
use crate::self_ixs::fulfill_self_outcome;
use crate::self_ixs::fulfill_self_applied;
use crate::self_ixs::make_self_outcome;
use crate::self_ixs::make_self_applied;

/// Law: no double creation. Once creating a self promise with a given seed
/// tuple has succeeded, creating it again with the identical tuple is refused
/// because a record already sits at the derived address, whenever the repeat
/// arrives while the deadline still lies in the future.
pub proof fn lemma_no_double_creation(
    pre: Engine,
    mid: Engine,
    signer: Seq<u8>,
    text: Seq<u8>,
    deadline_secs: u64,
    size: u64,
    now: u64,
    now2: u64,
)
    requires
        make_self_outcome(pre, signer, text, deadline_secs, size, now) is Ok,
        make_self_applied(pre, mid, signer, text, deadline_secs, size),
        deadline_secs > now2,
    ensures
        make_self_outcome(mid, signer, text, deadline_secs, size, now2) == Err::<
            (),
            PromiseError,
        >(PromiseError::RecordAlreadyExists),
{
    let ab = pre.self_address_of(signer, text, deadline_secs, size)->Some_0;
    assert(mid.self_address_of(signer, text, deadline_secs, size) == pre.self_address_of(
        signer,
        text,
        deadline_secs,
        size,
    ));
    assert(mid.self_promise_at(ab.0) is Some);
}

/// Law: fulfillment excludes forfeiture. After a self promise has been
/// fulfilled, a break of the same seed tuple, even one signed by the
/// authority, finds no record, at any time.
pub proof fn lemma_fulfill_excludes_break(
    pre: Engine,
    mid: Engine,
    signer: Seq<u8>,
    text: Seq<u8>,
    deadline_secs: u64,
    size: u64,
    now: u64,
    now2: u64,
)
    requires
        fulfill_self_outcome(pre, signer, text, deadline_secs, size, now) is Ok,
        fulfill_self_applied(pre, mid, signer, text, deadline_secs, size),
    ensures
        break_self_outcome(
            mid,
            mid.authority@,
            signer,
            text,
            deadline_secs,
            size,
            now2,
        ) == Err::<(), PromiseError>(PromiseError::RecordNotFound),
{
    let addr = pre.self_address_of(signer, text, deadline_secs, size)->Some_0.0;
    assert(mid.self_address_of(signer, text, deadline_secs, size) == pre.self_address_of(
        signer,
        text,
        deadline_secs,
        size,
    ));
    assert(mid.self_promise_at(addr) is None);
}

/// Law: forfeiture excludes fulfillment. After a self promise has been
/// broken, a fulfillment of the same seed tuple, even one signed by the
/// creator, finds no record, at any time.
pub proof fn lemma_break_excludes_fulfill(
    pre: Engine,
    mid: Engine,
    signer: Seq<u8>,
    creator: Seq<u8>,
    text: Seq<u8>,
    deadline_secs: u64,
    size: u64,
    now: u64,
    now2: u64,
)
    requires
        break_self_outcome(pre, signer, creator, text, deadline_secs, size, now) is Ok,
        break_self_applied(pre, mid, creator, text, deadline_secs, size),
    ensures
        fulfill_self_outcome(mid, creator, text, deadline_secs, size, now2) == Err::<
            (),
            PromiseError,
        >(PromiseError::RecordNotFound),
{
    let addr = pre.self_address_of(creator, text, deadline_secs, size)->Some_0.0;
    assert(mid.self_address_of(creator, text, deadline_secs, size) == pre.self_address_of(
        creator,
        text,
        deadline_secs,
        size,
    ));
    assert(mid.self_promise_at(addr) is None);
}

} // verus!
