use vstd::prelude::*;

verus! {

use vstd::array::array_as_slice;
use vstd::bytes::spec_u64_to_le_bytes;
use vstd::bytes::u64_to_le_bytes;
use vstd::slice::slice_to_vec;

// A record's address is derived from a seed tuple: a domain separator naming
// the variant, the identities involved, the 8-byte label, and the deadline and
// escrow amount as little-endian bytes. Two records collide only if their
// whole seed tuples do.

/// Domain separator of the self variant: the bytes of "selfpromise".
pub open spec fn self_domain_sep() -> Seq<u8> {
    seq![115u8, 101u8, 108u8, 102u8, 112u8, 114u8, 111u8, 109u8, 105u8, 115u8, 101u8]
}

/// Domain separator of the partner variant: the bytes of "partnerpromise".
pub open spec fn partner_domain_sep() -> Seq<u8> {
    seq![
        112u8,
        97u8,
        114u8,
        116u8,
        110u8,
        101u8,
        114u8,
        112u8,
        114u8,
        111u8,
        109u8,
        105u8,
        115u8,
        101u8,
    ]
}

/// Seed tuple of a self promise.
pub open spec fn self_seeds(creator: Seq<u8>, text: Seq<u8>, deadline_secs: u64, size: u64) -> Seq<
    Seq<u8>,
> {
    seq![
        self_domain_sep(),
        creator,
        text,
        spec_u64_to_le_bytes(deadline_secs),
        spec_u64_to_le_bytes(size),
    ]
}

/// Seed tuple of a partner promise.
pub open spec fn partner_seeds(
    creator: Seq<u8>,
    partner: Seq<u8>,
    text: Seq<u8>,
    deadline_secs: u64,
    size: u64,
) -> Seq<Seq<u8>> {
    seq![
        partner_domain_sep(),
        creator,
        partner,
        text,
        spec_u64_to_le_bytes(deadline_secs),
        spec_u64_to_le_bytes(size),
    ]
}

fn self_domain_sep_bytes() -> (r: Vec<u8>)
    ensures
        r@ == self_domain_sep(),
{
    let r: Vec<u8> = vec![115u8, 101u8, 108u8, 102u8, 112u8, 114u8, 111u8, 109u8, 105u8, 115u8, 101u8];
    proof {
        assert(r@ =~= self_domain_sep());
    }
    r
}

fn partner_domain_sep_bytes() -> (r: Vec<u8>)
    ensures
        r@ == partner_domain_sep(),
{
    let r: Vec<u8> = vec![
        112u8,
        97u8,
        114u8,
        116u8,
        110u8,
        101u8,
        114u8,
        112u8,
        114u8,
        111u8,
        109u8,
        105u8,
        115u8,
        101u8,
    ];
    proof {
        assert(r@ =~= partner_domain_sep());
    }
    r
}

/// Build the seed tuple of a self promise as byte vectors.
pub fn build_self_seeds(creator: &[u8; 32], text: &[u8; 8], deadline_secs: u64, size: u64) -> (r:
    Vec<Vec<u8>>)
    ensures
        r@.map_values(|s: Vec<u8>| s@) == self_seeds(creator@, text@, deadline_secs, size),
{
    let mut r: Vec<Vec<u8>> = Vec::new();
    r.push(self_domain_sep_bytes());
    r.push(slice_to_vec(array_as_slice(creator)));
    r.push(slice_to_vec(array_as_slice(text)));
    r.push(u64_to_le_bytes(deadline_secs));
    r.push(u64_to_le_bytes(size));
    proof {
        assert(r@.map_values(|s: Vec<u8>| s@) =~= self_seeds(creator@, text@, deadline_secs, size));
    }
    r
}

/// Build the seed tuple of a partner promise as byte vectors.
pub fn build_partner_seeds(
    creator: &[u8; 32],
    partner: &[u8; 32],
    text: &[u8; 8],
    deadline_secs: u64,
    size: u64,
) -> (r: Vec<Vec<u8>>)
    ensures
        r@.map_values(|s: Vec<u8>| s@) == partner_seeds(
            creator@,
            partner@,
            text@,
            deadline_secs,
            size,
        ),
{
    let mut r: Vec<Vec<u8>> = Vec::new();
    r.push(partner_domain_sep_bytes());
    r.push(slice_to_vec(array_as_slice(creator)));
    r.push(slice_to_vec(array_as_slice(partner)));
    r.push(slice_to_vec(array_as_slice(text)));
    r.push(u64_to_le_bytes(deadline_secs));
    r.push(u64_to_le_bytes(size));
    proof {
        assert(r@.map_values(|s: Vec<u8>| s@) =~= partner_seeds(
            creator@,
            partner@,
            text@,
            deadline_secs,
            size,
        ));
    }
    r
}

} // verus!
