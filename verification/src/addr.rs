use crate::error::NoteError;
use vstd::prelude::*;

verus! {

/// What `solana_pubkey::Pubkey::create_program_address` returns for the
/// seed list `[tag, owner, id as 8 little-endian bytes, [bump]]` under the
/// given program id: `Some` with the 32 derived bytes when the SHA-256
/// image falls off the ed25519 curve, `None` when it lands on it. The
/// result is a pure function of these inputs, the same in every process
/// and on every machine.
pub uninterp spec fn pda_of(
    tag: Seq<u8>,
    owner: Seq<u8>,
    id: u64,
    bump: u8,
    program: Seq<u8>,
) -> Option<Seq<u8>>;

/// Relies on `solana_pubkey::Pubkey::create_program_address` (the host-side
/// path of solana-address): with every seed within the 32-byte seed limit
/// and four seeds in all, it returns `Ok` with the derived address exactly
/// when the candidate is off the ed25519 curve, and `Err(InvalidSeeds)`
/// otherwise; the result depends on the seeds and the program id alone.
#[verifier::external_body]
fn pda_candidate(tag: &Vec<u8>, owner: &[u8; 32], id: u64, bump: u8, program: &[u8; 32]) -> (r:
    Option<[u8; 32]>)
    requires
        tag@.len() <= 32,
    ensures
        r is Some <==> pda_of(tag@, owner@, id, bump, program@) is Some,
        r is Some ==> r.unwrap()@ == pda_of(tag@, owner@, id, bump, program@).unwrap(),
{
    let id_bytes = id.to_le_bytes();
    let bump_bytes = [bump];
    let seeds: [&[u8]; 4] = [tag.as_slice(), owner.as_slice(), &id_bytes, &bump_bytes];
    let program_id = solana_pubkey::Pubkey::new_from_array(*program);
    match solana_pubkey::Pubkey::create_program_address(&seeds, &program_id) {
        Ok(address) => Some(address.to_bytes()),
        Err(_) => None,
    }
}

/// The address and bump that the derivation search settles on when started
/// at `bump` and probing downward: the first bump, from `bump` to 0, whose
/// candidate address is usable, or `None` when no bump in that range is.
pub open spec fn derived_from(
    tag: Seq<u8>,
    owner: Seq<u8>,
    id: u64,
    program: Seq<u8>,
    bump: u8,
) -> Option<(Seq<u8>, u8)>
    decreases bump,
{
    match pda_of(tag, owner, id, bump, program) {
        Some(address) => Some((address, bump)),
        None => if bump == 0 {
            None
        } else {
            derived_from(tag, owner, id, program, (bump - 1) as u8)
        },
    }
}

/// The address and bump that `derive_address` returns: the full search,
/// started at the maximum bump value.
pub open spec fn spec_derive(tag: Seq<u8>, owner: Seq<u8>, id: u64, program: Seq<u8>) -> Option<
    (Seq<u8>, u8),
> {
    derived_from(tag, owner, id, program, 255)
}

/// Compute the deterministic storage address for a record keyed by
/// `(tag, owner, id)` under the given program id. Bump candidates are
/// probed from 255 downward and the first usable one wins, so equal inputs
/// always yield an equal address and bump. Fails with
/// `DerivationExhausted` exactly when no bump value works.
pub fn derive_address(tag: &Vec<u8>, owner: &[u8; 32], id: u64, program: &[u8; 32]) -> (r: Result<
    ([u8; 32], u8),
    NoteError,
>)
    requires
        tag@.len() <= 32,
    ensures
        match r {
            Ok((address, bump)) => {
                &&& spec_derive(tag@, owner@, id, program@) == Some((address@, bump))
            },
            Err(e) => {
                &&& e == NoteError::DerivationExhausted
                &&& spec_derive(tag@, owner@, id, program@) is None
            },
        },
{
    let mut bump: u8 = 255;
    loop
        invariant
            tag@.len() <= 32,
            spec_derive(tag@, owner@, id, program@) == derived_from(
                tag@,
                owner@,
                id,
                program@,
                bump,
            ),
        decreases bump,
    {
        match pda_candidate(tag, owner, id, bump, program) {
            Some(address) => {
                return Ok((address, bump));
            },
            None => {
                if bump == 0 {
                    return Err(NoteError::DerivationExhausted);
                }
                bump = bump - 1;
            },
        }
    }
}

/// Two derivation searches over the same inputs settle on the same
/// address and bump: the result a caller sees is pinned by the inputs
/// alone, so `derive_address` called twice returns identical values.
pub proof fn lemma_derivation_deterministic(
    tag: Seq<u8>,
    owner: Seq<u8>,
    id: u64,
    program: Seq<u8>,
    r1: Option<(Seq<u8>, u8)>,
    r2: Option<(Seq<u8>, u8)>,
)
    requires
        r1 == spec_derive(tag, owner, id, program),
        r2 == spec_derive(tag, owner, id, program),
    ensures
        r1 == r2,
{
}

/// The namespace tag that keys every note: the bytes of `note`.
pub open spec fn spec_note_tag() -> Seq<u8> {
    seq![110u8, 111u8, 116u8, 101u8]
}

/// The note namespace tag as a byte vector.
pub fn note_tag() -> (r: Vec<u8>)
    ensures
        r@ == spec_note_tag(),
        r@.len() == 4,
{
    let mut v: Vec<u8> = Vec::new();
    v.push(110);
    v.push(111);
    v.push(116);
    v.push(101);
    proof {
        assert(v@ =~= spec_note_tag());
    }
    v
}

} // verus!
