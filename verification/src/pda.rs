//! Deterministic address derivation.
//!
//! A counter's storage address is a program-derived address: a pure function
//! of a fixed tag, the authority's 32-byte key, a witness byte ("bump") and
//! the program's own 32-byte id. The derivation itself is done by the
//! `anchor_lang` runtime's key type; its results are named here by
//! uninterpreted spec functions, and everything the library proves about
//! addresses goes through those names.

use vstd::prelude::*;

verus! {

/// The canonical (address, bump) pair that the search over witness bytes
/// finds for the seeds `[tag, authority]` under `program`, if any.
pub uninterp spec fn found_pda(tag: Seq<u8>, authority: Seq<u8>, program: Seq<u8>) -> Option<(Seq<u8>, u8)>;

/// The address derived from the seeds `[tag, authority, [bump]]` under
/// `program`, or `None` where that seed combination yields no usable address.
pub uninterp spec fn pda_at(tag: Seq<u8>, authority: Seq<u8>, bump: u8, program: Seq<u8>) -> Option<Seq<u8>>;

/// Relies on anchor_lang's `Pubkey::try_find_program_address`: searches the
/// witness space in descending order and returns the first usable address
/// with its bump, or `None` when the space is exhausted. The result depends
/// on the arguments alone, and the returned bump re-derives the returned
/// address through `Pubkey::create_program_address`.
#[verifier::external_body]
pub(crate) fn try_find_pda(tag: &[u8], authority: &[u8; 32], program: &[u8; 32]) -> (r: Option<([u8; 32], u8)>)
    ensures
        match r {
            Some(p) => found_pda(tag@, authority@, program@) == Some((p.0@, p.1))
                && pda_at(tag@, authority@, p.1, program@) == Some(p.0@),
            None => found_pda(tag@, authority@, program@) is None,
        },
{
    let program_id = anchor_lang::prelude::Pubkey::new_from_array(*program);
    let found = anchor_lang::prelude::Pubkey::try_find_program_address(
        &[tag, authority.as_slice()],
        &program_id,
    );
    found.map(|(address, bump)| (address.to_bytes(), bump))
}

/// Relies on anchor_lang's `Pubkey::create_program_address`: derives the
/// address for one given witness byte, or fails where the seed combination
/// is rejected. The result depends on the arguments alone.
#[verifier::external_body]
pub(crate) fn derive_pda_with_bump(tag: &[u8], authority: &[u8; 32], bump: u8, program: &[u8; 32]) -> (r: Option<[u8; 32]>)
    ensures
        match r {
            Some(a) => pda_at(tag@, authority@, bump, program@) == Some(a@),
            None => pda_at(tag@, authority@, bump, program@) is None,
        },
{
    let program_id = anchor_lang::prelude::Pubkey::new_from_array(*program);
    let derived = anchor_lang::prelude::Pubkey::create_program_address(
        &[tag, authority.as_slice(), &[bump]],
        &program_id,
    );
    derived.ok().map(|address| address.to_bytes())
}

} // verus!
