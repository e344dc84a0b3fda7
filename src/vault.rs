//! The vault that holds a market's settled funds is a Solana account,
//! named by its public key. The matching logic only carries it along.

use vstd::prelude::*;

verus! {

/// solana_program's `Pubkey`, declared opaque: the library stores and
/// returns a vault key as it was given and assumes nothing of its contents.
#[verifier::external_type_specification]
#[verifier::external_body]
pub struct ExPubkey(solana_program::pubkey::Pubkey);

} // verus!
