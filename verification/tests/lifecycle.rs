use promisesprimitive::engine::Engine;
use promisesprimitive::errors::PromiseError;
use promisesprimitive::partner_ixs::{BreakPartnerPromise, FulFillPartnerPromise, MakePartnerPromise};
use promisesprimitive::self_ixs::{BreakSelfPromise, FulFillSelfPromise, MakeSelfPromise};
use promisesprimitive::{FEE_TO_AUTHOR, MIN_DEPOSIT};

fn id(b: u8) -> [u8; 32] {
    [b; 32]
}

fn engine() -> Engine {
    Engine::new(id(7), id(9))
}

const TAG: [u8; 8] = [1, 2, 3, 4, 5, 6, 7, 8];

#[test]
fn create_below_minimum_is_refused() {
    let mut e = engine();
    let creator = id(1);
    e.fund(&creator, 100_000_000);
    let r = e.make_self_promise(&MakeSelfPromise { signer: creator }, TAG, 2_000, MIN_DEPOSIT - 1, 1_000);
    assert_eq!(r, Err(PromiseError::InsufficientDeposit));
    let r = e.make_self_promise(&MakeSelfPromise { signer: creator }, TAG, 2_000, 0, 1_000);
    assert_eq!(r, Err(PromiseError::InsufficientDeposit));
    assert_eq!(e.balance(&creator), 100_000_000);
}

#[test]
fn create_with_past_or_present_deadline_is_refused() {
    let mut e = engine();
    let creator = id(1);
    e.fund(&creator, 100_000_000);
    let r = e.make_self_promise(&MakeSelfPromise { signer: creator }, TAG, 1_000, MIN_DEPOSIT, 1_000);
    assert_eq!(r, Err(PromiseError::DeadlineNotFuture));
    let r = e.make_self_promise(&MakeSelfPromise { signer: creator }, TAG, 999, MIN_DEPOSIT, 1_000);
    assert_eq!(r, Err(PromiseError::DeadlineNotFuture));
}

#[test]
fn create_with_partner_equal_to_creator_is_refused() {
    let mut e = engine();
    let creator = id(1);
    e.fund(&creator, 100_000_000);
    let accs = MakePartnerPromise { signer: creator, partner: creator };
    let r = e.make_partner_promise(&accs, TAG, 2_000, MIN_DEPOSIT, 1_000);
    assert_eq!(r, Err(PromiseError::InvalidPartner));
}

#[test]
fn create_without_funds_is_refused() {
    let mut e = engine();
    let creator = id(1);
    e.fund(&creator, MIN_DEPOSIT + FEE_TO_AUTHOR - 1);
    let r = e.make_self_promise(&MakeSelfPromise { signer: creator }, TAG, 2_000, MIN_DEPOSIT, 1_000);
    assert_eq!(r, Err(PromiseError::InsufficientBalance));
    let r = e.make_self_promise(&MakeSelfPromise { signer: creator }, TAG, 2_000, MIN_DEPOSIT, 1_000);
    assert_eq!(r, Err(PromiseError::InsufficientBalance));
}

#[test]
fn no_double_creation() {
    let mut e = engine();
    let creator = id(1);
    e.fund(&creator, 100_000_000);
    let accs = MakeSelfPromise { signer: creator };
    let r = e.make_self_promise(&accs, TAG, 2_000, 20_000_000, 1_000);
    assert_eq!(r, Ok(()));
    let r = e.make_self_promise(&accs, TAG, 2_000, 20_000_000, 1_000);
    assert_eq!(r, Err(PromiseError::RecordAlreadyExists));
}

#[test]
fn fulfill_window_is_inclusive_at_the_deadline() {
    let mut e = engine();
    let creator = id(1);
    e.fund(&creator, 100_000_000);
    let r = e.make_self_promise(&MakeSelfPromise { signer: creator }, TAG, 2_000, 20_000_000, 1_000);
    assert_eq!(r, Ok(()));
    // At now == deadline fulfillment must still succeed.
    let r = e.fulfill_self_promise(&FulFillSelfPromise { signer: creator }, TAG, 2_000, 20_000_000, 2_000);
    assert_eq!(r, Ok(()));
}

#[test]
fn fulfill_after_the_deadline_is_refused() {
    let mut e = engine();
    let creator = id(1);
    e.fund(&creator, 100_000_000);
    let r = e.make_self_promise(&MakeSelfPromise { signer: creator }, TAG, 2_000, 20_000_000, 1_000);
    assert_eq!(r, Ok(()));
    let r = e.fulfill_self_promise(&FulFillSelfPromise { signer: creator }, TAG, 2_000, 20_000_000, 2_001);
    assert_eq!(r, Err(PromiseError::DeadlinePassed));
}

#[test]
fn break_before_the_deadline_is_refused() {
    let mut e = engine();
    let creator = id(1);
    let authority = id(9);
    e.fund(&creator, 100_000_000);
    let r = e.make_self_promise(&MakeSelfPromise { signer: creator }, TAG, 2_000, 20_000_000, 1_000);
    assert_eq!(r, Ok(()));
    let accs = BreakSelfPromise { signer: authority, creator };
    let r = e.break_self_promise(&accs, TAG, 2_000, 20_000_000, 1_999);
    assert_eq!(r, Err(PromiseError::DeadlineNotYetPassed));
    // At now == deadline the break is allowed.
    let r = e.break_self_promise(&accs, TAG, 2_000, 20_000_000, 2_000);
    assert_eq!(r, Ok(()));
}

#[test]
fn break_by_anyone_but_the_authority_is_refused() {
    let mut e = engine();
    let creator = id(1);
    let stranger = id(4);
    e.fund(&creator, 100_000_000);
    let r = e.make_self_promise(&MakeSelfPromise { signer: creator }, TAG, 2_000, 20_000_000, 1_000);
    assert_eq!(r, Ok(()));
    let accs = BreakSelfPromise { signer: stranger, creator };
    let r = e.break_self_promise(&accs, TAG, 2_000, 20_000_000, 3_000);
    assert_eq!(r, Err(PromiseError::Unauthorized));
    let accs = BreakSelfPromise { signer: creator, creator };
    let r = e.break_self_promise(&accs, TAG, 2_000, 20_000_000, 3_000);
    assert_eq!(r, Err(PromiseError::Unauthorized));
}

#[test]
fn break_partner_by_anyone_but_the_authority_is_refused() {
    let mut e = engine();
    let creator = id(1);
    let partner = id(2);
    e.fund(&creator, 100_000_000);
    let accs = MakePartnerPromise { signer: creator, partner };
    let r = e.make_partner_promise(&accs, TAG, 2_000, 15_000_000, 1_000);
    assert_eq!(r, Ok(()));
    let accs = BreakPartnerPromise { signer: partner, creator, partner };
    let r = e.break_partner_promise(&accs, TAG, 2_000, 15_000_000, 3_000);
    assert_eq!(r, Err(PromiseError::Unauthorized));
}

#[test]
fn value_moves_exactly_where_it_should() {
    let mut e = engine();
    let creator = id(1);
    let authority = id(9);
    e.fund(&creator, 100_000_000);
    let r = e.make_self_promise(&MakeSelfPromise { signer: creator }, TAG, 2_000, 20_000_000, 1_000);
    assert_eq!(r, Ok(()));
    assert_eq!(e.balance(&creator), 100_000_000 - FEE_TO_AUTHOR - 20_000_000);
    assert_eq!(e.balance(&authority), FEE_TO_AUTHOR);
    let r = e.fulfill_self_promise(&FulFillSelfPromise { signer: creator }, TAG, 2_000, 20_000_000, 1_500);
    assert_eq!(r, Ok(()));
    assert_eq!(e.balance(&creator), 100_000_000 - FEE_TO_AUTHOR);
    assert_eq!(e.balance(&authority), FEE_TO_AUTHOR);
}

#[test]
fn fulfill_and_break_exclude_each_other() {
    let mut e = engine();
    let creator = id(1);
    let authority = id(9);
    e.fund(&creator, 100_000_000);
    let r = e.make_self_promise(&MakeSelfPromise { signer: creator }, TAG, 2_000, 20_000_000, 1_000);
    assert_eq!(r, Ok(()));
    // The fulfillment wins the race at the boundary instant; the break that
    // follows finds nothing.
    let r = e.fulfill_self_promise(&FulFillSelfPromise { signer: creator }, TAG, 2_000, 20_000_000, 2_000);
    assert_eq!(r, Ok(()));
    let accs = BreakSelfPromise { signer: authority, creator };
    let r = e.break_self_promise(&accs, TAG, 2_000, 20_000_000, 2_000);
    assert_eq!(r, Err(PromiseError::RecordNotFound));
}

#[test]
fn scenario_prompt_fulfillment() {
    let mut e = engine();
    let creator = id(1);
    let now = 10_000;
    e.fund(&creator, 100_000_000);
    let r = e.make_self_promise(&MakeSelfPromise { signer: creator }, TAG, now + 3_600, 20_000_000, now);
    assert_eq!(r, Ok(()));
    let r = e.fulfill_self_promise(&FulFillSelfPromise { signer: creator }, TAG, now + 3_600, 20_000_000, now);
    assert_eq!(r, Ok(()));
    // The creator ends with everything but the creation fee.
    assert_eq!(e.balance(&creator), 100_000_000 - FEE_TO_AUTHOR);
}

#[test]
fn scenario_missed_deadline_forfeits_to_the_authority() {
    let mut e = engine();
    let creator = id(1);
    let authority = id(9);
    let now = 10_000;
    e.fund(&creator, 100_000_000);
    let r = e.make_self_promise(&MakeSelfPromise { signer: creator }, TAG, now + 3_600, 20_000_000, now);
    assert_eq!(r, Ok(()));
    let late = now + 3_601;
    let accs = BreakSelfPromise { signer: authority, creator };
    let r = e.break_self_promise(&accs, TAG, now + 3_600, 20_000_000, late);
    assert_eq!(r, Ok(()));
    assert_eq!(e.balance(&authority), FEE_TO_AUTHOR + 20_000_000);
    // The record is gone: a late fulfillment finds nothing.
    let r = e.fulfill_self_promise(&FulFillSelfPromise { signer: creator }, TAG, now + 3_600, 20_000_000, late);
    assert_eq!(r, Err(PromiseError::RecordNotFound));
}

#[test]
fn scenario_partner_confirms_fulfillment() {
    let mut e = engine();
    let creator = id(1);
    let partner = id(2);
    let now = 10_000;
    e.fund(&creator, 100_000_000);
    let accs = MakePartnerPromise { signer: creator, partner };
    let r = e.make_partner_promise(&accs, TAG, now + 10, 15_000_000, now);
    assert_eq!(r, Ok(()));
    let creator_before = e.balance(&creator);
    // The creator cannot confirm in the partner's stead.
    let accs = FulFillPartnerPromise { signer: creator, creator, partner };
    let r = e.fulfill_partner_promise(&accs, TAG, now + 10, 15_000_000, now + 5);
    assert_eq!(r, Err(PromiseError::Unauthorized));
    // The partner can, and the deposit returns to the creator.
    let accs = FulFillPartnerPromise { signer: partner, creator, partner };
    let r = e.fulfill_partner_promise(&accs, TAG, now + 10, 15_000_000, now + 5);
    assert_eq!(r, Ok(()));
    assert_eq!(e.balance(&creator), creator_before + 15_000_000);
    assert_eq!(e.balance(&partner), 0);
}

#[test]
fn fulfilling_with_different_seed_parameters_finds_nothing() {
    let mut e = engine();
    let creator = id(1);
    e.fund(&creator, 100_000_000);
    let r = e.make_self_promise(&MakeSelfPromise { signer: creator }, TAG, 2_000, 20_000_000, 1_000);
    assert_eq!(r, Ok(()));
    // Wrong tag, wrong deadline, wrong amount, wrong signer: each derives a
    // different address, so no record is found.
    let other_tag = [8, 7, 6, 5, 4, 3, 2, 1];
    let f = FulFillSelfPromise { signer: creator };
    assert_eq!(
        e.fulfill_self_promise(&f, other_tag, 2_000, 20_000_000, 1_500),
        Err(PromiseError::RecordNotFound)
    );
    assert_eq!(
        e.fulfill_self_promise(&f, TAG, 2_001, 20_000_000, 1_500),
        Err(PromiseError::RecordNotFound)
    );
    assert_eq!(
        e.fulfill_self_promise(&f, TAG, 2_000, 20_000_001, 1_500),
        Err(PromiseError::RecordNotFound)
    );
    let stranger = FulFillSelfPromise { signer: id(3) };
    assert_eq!(
        e.fulfill_self_promise(&stranger, TAG, 2_000, 20_000_000, 1_500),
        Err(PromiseError::RecordNotFound)
    );
}

#[test]
fn derivation_is_deterministic_and_not_the_input() {
    let program_id = id(7);
    let creator = id(1);
    let a = promisesprimitive::pda::derive_self_address(&program_id, &creator, &TAG, 2_000, 20_000_000);
    let b = promisesprimitive::pda::derive_self_address(&program_id, &creator, &TAG, 2_000, 20_000_000);
    let (addr_a, bump_a) = a.expect("a self promise seed tuple derives an address");
    let (addr_b, bump_b) = b.expect("a self promise seed tuple derives an address");
    assert_eq!(addr_a, addr_b);
    assert_eq!(bump_a, bump_b);
    // The derived address is a digest, not any identity that seeded it.
    assert_ne!(addr_a, creator);
    assert_ne!(addr_a, program_id);
    // A different label lands somewhere else.
    let c = promisesprimitive::pda::derive_self_address(&program_id, &creator, &[0; 8], 2_000, 20_000_000);
    let (addr_c, _) = c.expect("a self promise seed tuple derives an address");
    assert_ne!(addr_a, addr_c);
}

#[test]
fn the_record_stores_what_creation_was_given() {
    let mut e = engine();
    let creator = id(1);
    let partner = id(2);
    e.fund(&creator, 100_000_000);
    let r = e.make_partner_promise(
        &MakePartnerPromise { signer: creator, partner },
        TAG,
        2_000,
        15_000_000,
        1_000,
    );
    assert_eq!(r, Ok(()));
    let derived = promisesprimitive::pda::derive_partner_address(
        &id(7),
        &creator,
        &partner,
        &TAG,
        2_000,
        15_000_000,
    );
    let (addr, bump) = derived.expect("a partner promise seed tuple derives an address");
    let p = e.partner_promise(&addr).expect("the record sits at the derived address");
    assert_eq!(p.partner, partner);
    assert_eq!(p.text, TAG);
    assert_eq!(p.unix_seconds, 2_000);
    assert_eq!(p.size, 15_000_000);
    assert_eq!(p.bump, bump);
}


#[test]
fn partner_fulfill_window_is_inclusive_at_the_deadline() {
    let mut e = engine();
    let creator = id(1);
    let partner = id(2);
    e.fund(&creator, 100_000_000);
    let accs = MakePartnerPromise { signer: creator, partner };
    assert_eq!(e.make_partner_promise(&accs, TAG, 2_000, 15_000_000, 1_000), Ok(()));
    let accs = FulFillPartnerPromise { signer: partner, creator, partner };
    assert_eq!(e.fulfill_partner_promise(&accs, TAG, 2_000, 15_000_000, 2_000), Ok(()));
}

#[test]
fn partner_fulfill_after_the_deadline_is_refused() {
    let mut e = engine();
    let creator = id(1);
    let partner = id(2);
    e.fund(&creator, 100_000_000);
    let accs = MakePartnerPromise { signer: creator, partner };
    assert_eq!(e.make_partner_promise(&accs, TAG, 2_000, 15_000_000, 1_000), Ok(()));
    let accs = FulFillPartnerPromise { signer: partner, creator, partner };
    assert_eq!(
        e.fulfill_partner_promise(&accs, TAG, 2_000, 15_000_000, 2_001),
        Err(PromiseError::DeadlinePassed)
    );
}

#[test]
fn partner_break_window_and_forfeit() {
    let mut e = engine();
    let creator = id(1);
    let partner = id(2);
    let authority = id(9);
    e.fund(&creator, 100_000_000);
    let accs = MakePartnerPromise { signer: creator, partner };
    assert_eq!(e.make_partner_promise(&accs, TAG, 2_000, 15_000_000, 1_000), Ok(()));
    let accs = BreakPartnerPromise { signer: authority, creator, partner };
    assert_eq!(
        e.break_partner_promise(&accs, TAG, 2_000, 15_000_000, 1_999),
        Err(PromiseError::DeadlineNotYetPassed)
    );
    assert_eq!(e.break_partner_promise(&accs, TAG, 2_000, 15_000_000, 2_000), Ok(()));
    assert_eq!(e.balance(&authority), FEE_TO_AUTHOR + 15_000_000);
    // Neither party can recover anything afterwards.
    let accs = FulFillPartnerPromise { signer: partner, creator, partner };
    assert_eq!(
        e.fulfill_partner_promise(&accs, TAG, 2_000, 15_000_000, 2_000),
        Err(PromiseError::RecordNotFound)
    );
}
