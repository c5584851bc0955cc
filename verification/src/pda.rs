use vstd::prelude::*;

verus! {

use crate::seeds::build_partner_seeds;
use crate::seeds::build_self_seeds;
use crate::seeds::partner_seeds;
use crate::seeds::self_seeds;

/// Address and discriminant that program-derived-address search returns for a
/// seed tuple under a program id, when the search finds one.
pub uninterp spec fn pda_of(seeds: Seq<Seq<u8>>, program_id: Seq<u8>) -> Option<(Seq<u8>, u8)>;

/// Relies on Pubkey::try_find_program_address of the Solana SDK: the derived
/// address and bump seed are a deterministic function of the seed tuple and
/// the program id alone, and a failed search comes back as None rather than
/// panicking.
#[verifier::external_body]
fn find_pda(seeds: &Vec<Vec<u8>>, program_id: &[u8; 32]) -> (r: Option<([u8; 32], u8)>)
    ensures
        r is Some <==> pda_of(seeds@.map_values(|s: Vec<u8>| s@), program_id@) is Some,
        r matches Some(p) ==> pda_of(seeds@.map_values(|s: Vec<u8>| s@), program_id@) == Some(
            (p.0@, p.1),
        ),
{
    let refs: Vec<&[u8]> = seeds.iter().map(|s| s.as_slice()).collect();
    let pk = anchor_lang::solana_program::pubkey::Pubkey::new_from_array(*program_id);
    let found = anchor_lang::solana_program::pubkey::Pubkey::try_find_program_address(&refs, &pk);
    found.map(|p| (p.0.to_bytes(), p.1))
}

/// Derived address and discriminant of a self promise's record.
pub fn derive_self_address(
    program_id: &[u8; 32],
    creator: &[u8; 32],
    text: &[u8; 8],
    deadline_secs: u64,
    size: u64,
) -> (r: Option<([u8; 32], u8)>)
    ensures
        r is Some <==> pda_of(self_seeds(creator@, text@, deadline_secs, size), program_id@)
            is Some,
        r matches Some(p) ==> pda_of(self_seeds(creator@, text@, deadline_secs, size), program_id@)
            == Some((p.0@, p.1)),
{
    let seeds = build_self_seeds(creator, text, deadline_secs, size);
    find_pda(&seeds, program_id)
}

/// Derived address and discriminant of a partner promise's record.
pub fn derive_partner_address(
    program_id: &[u8; 32],
    creator: &[u8; 32],
    partner: &[u8; 32],
    text: &[u8; 8],
    deadline_secs: u64,
    size: u64,
) -> (r: Option<([u8; 32], u8)>)
    ensures
        r is Some <==> pda_of(
            partner_seeds(creator@, partner@, text@, deadline_secs, size),
            program_id@,
        ) is Some,
        r matches Some(p) ==> pda_of(
            partner_seeds(creator@, partner@, text@, deadline_secs, size),
            program_id@,
        ) == Some((p.0@, p.1)),
{
    let seeds = build_partner_seeds(creator, partner, text, deadline_secs, size);
    find_pda(&seeds, program_id)
}

} // verus!
