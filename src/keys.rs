//! Fresh keypairs from solana_sdk, and one round of the search drawn from them.
use vstd::prelude::*;
use solana_sdk::signature::Keypair;
use solana_sdk::signer::Signer;
use crate::engine::{Hit, SearchState, absorb_all};

verus! {

#[verifier::external_type_specification]
#[verifier::external_body]
pub struct ExKeypair(Keypair);

/// Relies on solana_sdk's `Keypair::new`: a keypair drawn from the operating
/// system's random source. Nothing is known of which one.
#[verifier::external_body]
fn new_keypair() -> Keypair {
    Keypair::new()
}

/// A character of the base58 alphabet: digits but `0`, letters but `O`, `I`, `l`.
pub open spec fn is_base58_char(c: char) -> bool {
    ('1' <= c && c <= '9') || ('A' <= c && c <= 'H') || ('J' <= c && c <= 'N')
        || ('P' <= c && c <= 'Z') || ('a' <= c && c <= 'k') || ('m' <= c && c <= 'z')
}

/// The text of a 32-byte public key in base58: 32 to 44 characters of the
/// base58 alphabet.
pub open spec fn is_base58_key_text(s: Seq<char>) -> bool {
    32 <= s.len() <= 44 && forall|i: int| 0 <= i < s.len() ==> is_base58_char(#[trigger] s[i])
}

/// Relies on `Signer::pubkey` for `Keypair` and on `Pubkey`'s `Display`, which
/// writes the 32 key bytes with five8's `encode_32`: at most 44 characters of
/// its base58 alphabet, and never fewer than 32 for 32 bytes.
#[verifier::external_body]
fn public_id_text(keypair: &Keypair) -> (r: String)
    ensures
        is_base58_key_text(r@),
{
    keypair.pubkey().to_string()
}

/// Draws one candidate: a fresh keypair with its public identifier, the
/// base58 text of its public key.
pub fn generate_candidate() -> (r: Hit<Keypair>)
    ensures
        is_base58_key_text(r.public_id@),
{
    let keypair = new_keypair();
    let public_id = public_id_text(&keypair);
    Hit { public_id, keypair }
}

/// One round of a single worker: draws up to `batch_size` candidates, each
/// counted as an attempt and absorbed in turn, and stops early once the quota
/// is full. Matches already admitted stay, in their order.
pub fn search_round(state: &mut SearchState<Keypair>, batch_size: usize) -> (drawn: usize)
    requires
        old(state).wf(),
        old(state).attempts_spec() + batch_size <= u64::MAX,
    ensures
        final(state).wf(),
        final(state).pattern() == old(state).pattern(),
        final(state).target_spec() == old(state).target_spec(),
        drawn <= batch_size,
        final(state).attempts_spec() == old(state).attempts_spec() + drawn,
        drawn < batch_size ==> final(state).complete(),
        old(state).complete() ==> drawn == 0 && final(state).ids() == old(state).ids(),
        old(state).ids().len() <= final(state).ids().len() <= final(state).target_spec(),
        final(state).ids().subrange(0, old(state).ids().len() as int) == old(state).ids(),
        exists|cs: Seq<Seq<char>>| cs.len() == drawn
            && (forall|k: int| 0 <= k < cs.len() ==> is_base58_key_text(#[trigger] cs[k]))
            && final(state).ids() == absorb_all(old(state).pattern(), old(state).target_spec(), old(state).ids(), cs),
{
    let ghost start = *state;
    let mut drawn: usize = 0;
    let ghost mut cs: Seq<Seq<char>> = Seq::empty();
    while drawn < batch_size && !state.is_complete()
        invariant
            state.wf(),
            state.pattern() == start.pattern(),
            state.target_spec() == start.target_spec(),
            drawn <= batch_size,
            start.attempts_spec() + batch_size <= u64::MAX,
            state.attempts_spec() == start.attempts_spec() + drawn,
            start.complete() ==> drawn == 0 && state.ids() == start.ids(),
            start.ids().len() <= state.ids().len(),
            state.ids().subrange(0, start.ids().len() as int) == start.ids(),
            cs.len() == drawn,
            forall|k: int| 0 <= k < cs.len() ==> is_base58_key_text(#[trigger] cs[k]),
            state.ids() == absorb_all(start.pattern(), start.target_spec(), start.ids(), cs),
        decreases batch_size - drawn,
    {
        let ghost before = *state;
        let hit = generate_candidate();
        let ghost id = hit.public_id@;
        let _ = state.absorb(hit.public_id, hit.keypair);
        proof {
            before.lemma_state_bounds();
            assert(cs.push(id).drop_last() =~= cs);
            cs = cs.push(id);
            if before.admits(hit.public_id@) {
                assert(state.ids().subrange(0, start.ids().len() as int)
                    =~= before.ids().subrange(0, start.ids().len() as int));
            }
        }
        drawn += 1;
    }
    proof {
        state.lemma_state_bounds();
    }
    drawn
}

} // verus!
