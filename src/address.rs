//! Deterministic program addresses: where a record lives, and the singleton
//! minting authority.

use anchor_lang::prelude::Pubkey;
use vstd::prelude::*;
use vstd::string::*;
use vstd::utf8::encode_utf8;

verus! {

/// The first address found off the curve for `seeds` under `program_id`,
/// searching the bump seeds downwards from 255, with the bump that gave it;
/// `None` where no bump gives one, where a seed is over 32 bytes, or where
/// there are too many seeds.
pub uninterp spec fn program_address(seeds: Seq<Seq<u8>>, program_id: Seq<u8>) -> Option<(Seq<u8>, u8)>;

/// Relies on `Pubkey::try_find_program_address` of solana-program (re-exported
/// by anchor-lang): a pure function of the seeds and the program id, `None`
/// when the bump search is exhausted or the seeds are refused (a seed over 32
/// bytes, too many seeds).
#[verifier::external_body]
fn find_program_address(seeds: &Vec<Vec<u8>>, program_id: &[u8; 32]) -> (r: Option<([u8; 32], u8)>)
    ensures
        match r {
            Some(found) => program_address(seeds.deep_view(), program_id@) == Some((found.0@, found.1)),
            None => program_address(seeds.deep_view(), program_id@) is None,
        },
{
    let slices: Vec<&[u8]> = seeds.iter().map(|s| s.as_slice()).collect();
    Pubkey::try_find_program_address(&slices, &Pubkey::new_from_array(*program_id)).map(
        |(key, bump)| (key.to_bytes(), bump),
    )
}

/// A derived address with the bump seed that proves it is program controlled.
#[derive(Clone, Copy, Debug, PartialEq, Eq)]
pub struct DerivedAddress {
    pub address: [u8; 32],
    pub bump: u8,
}

impl View for DerivedAddress {
    type V = (Seq<u8>, u8);

    open spec fn view(&self) -> (Seq<u8>, u8) {
        (self.address@, self.bump)
    }
}

/// The seed of the minting authority: the bytes of `"mint"`.
pub open spec fn mint_seed() -> Seq<u8> {
    seq![109u8, 105u8, 110u8, 116u8]
}

/// The seeds of a record: the UTF-8 bytes of its name, then its owner.
pub open spec fn record_seeds(name: Seq<char>, owner: Seq<u8>) -> Seq<Seq<u8>> {
    seq![encode_utf8(name), owner]
}

/// Where the record `name` of `owner` lives, if an address can be derived.
pub open spec fn record_address(name: Seq<char>, owner: Seq<u8>, program_id: Seq<u8>) -> Option<(Seq<u8>, u8)> {
    program_address(record_seeds(name, owner), program_id)
}

/// The address of the minting authority, if one can be derived.
pub open spec fn mint_authority_address(program_id: Seq<u8>) -> Option<(Seq<u8>, u8)> {
    program_address(seq![mint_seed()], program_id)
}

/// What a derivation returned, seen as an address and bump seed.
pub open spec fn derived_view(r: Option<DerivedAddress>) -> Option<(Seq<u8>, u8)> {
    match r {
        Some(d) => Some(d@),
        None => None,
    }
}

pub(crate) fn array_to_vec(bytes: &[u8; 32]) -> (v: Vec<u8>)
    ensures
        v@ == bytes@,
{
    let mut v: Vec<u8> = Vec::new();
    let mut i: usize = 0;
    while i < 32
        invariant
            i <= 32,
            v@ == bytes@.subrange(0, i as int),
        decreases 32 - i,
    {
        v.push(bytes[i]);
        i = i + 1;
    }
    assert(v@ =~= bytes@);
    v
}

fn to_derived(r: Option<([u8; 32], u8)>) -> (d: Option<DerivedAddress>)
    ensures
        derived_view(d) == match r {
            Some(found) => Some((found.0@, found.1)),
            None => None::<(Seq<u8>, u8)>,
        },
{
    match r {
        Some(found) => Some(DerivedAddress { address: found.0, bump: found.1 }),
        None => None,
    }
}

/// Derives the address of the record `name` of `owner` under `program_id`.
pub fn derive_record_address(name: &String, owner: &[u8; 32], program_id: &[u8; 32]) -> (r: Option<DerivedAddress>)
    ensures
        derived_view(r) == record_address(name@, owner@, program_id@),
{
    let name_bytes = name.as_str().as_bytes_vec();
    let owner_bytes = array_to_vec(owner);
    let seeds: Vec<Vec<u8>> = vec![name_bytes, owner_bytes];
    assert(seeds.deep_view()[0] =~= encode_utf8(name@));
    assert(seeds.deep_view()[1] =~= owner@);
    assert(seeds.deep_view() =~= record_seeds(name@, owner@));
    to_derived(find_program_address(&seeds, program_id))
}

/// Derives the address of the minting authority under `program_id`; it
/// depends on the program alone.
pub fn derive_mint_authority(program_id: &[u8; 32]) -> (r: Option<DerivedAddress>)
    ensures
        derived_view(r) == mint_authority_address(program_id@),
{
    let seed: Vec<u8> = vec![109u8, 105u8, 110u8, 116u8];
    let seeds: Vec<Vec<u8>> = vec![seed];
    assert(seeds.deep_view()[0] =~= mint_seed());
    assert(seeds.deep_view() =~= seq![mint_seed()]);
    to_derived(find_program_address(&seeds, program_id))
}

/// Deriving twice from the same name and owner gives the same address and
/// the same bump seed.
pub proof fn lemma_derivation_deterministic(
    name: Seq<char>,
    owner: Seq<u8>,
    program_id: Seq<u8>,
    first: Option<DerivedAddress>,
    second: Option<DerivedAddress>,
)
    requires
        derived_view(first) == record_address(name, owner, program_id),
        derived_view(second) == record_address(name, owner, program_id),
    ensures
        derived_view(first) == derived_view(second),
{
}

} // verus!
