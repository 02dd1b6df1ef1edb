use crate::clock::now;
use crate::types::{MintProof, Proof};
use vstd::prelude::*;

verus! {

/// The signature that every sample proof carries: 33 bytes, each of them 2.
pub open spec fn sample_signature() -> Seq<u8> {
    Seq::new(33, |i: int| 2u8)
}

/// Draws a fresh secret with cdk's `Secret::generate`: 32 random bytes,
/// written as 64 hexadecimal digits. The contract claims the length only.
#[verifier::external_body]
fn generate_secret() -> (secret: String)
    ensures
        secret@.len() == 64,
{
    cdk::secret::Secret::generate().to_string()
}

/// A sample proof of `amount` under the keyset `keyset_id`, with a fresh
/// random secret.
pub fn create_sample_proof(keyset_id: Vec<u8>, amount: u64) -> (proof: Proof)
    ensures
        proof@.amount == amount,
        proof@.keyset_id == keyset_id@,
        proof@.secret.len() == 64,
        proof@.c == sample_signature(),
        proof@.witness is None,
        proof@.dleq is None,
        proof@.p2pk_e is None,
{
    let secret = generate_secret();
    let mut c: Vec<u8> = Vec::new();
    while c.len() < 33
        invariant
            c.len() <= 33,
            forall|i: int| 0 <= i < c.len() ==> c[i] == 2u8,
        decreases 33 - c.len(),
    {
        c.push(2u8);
    }
    assert(c@ =~= sample_signature());
    Proof::new(amount, keyset_id, secret, c)
}

/// A sample mint event: a sample proof of `amount`, minted now for the
/// same amount.
pub fn create_sample_mint_proof(keyset_id: Vec<u8>, amount: u64) -> (mint: MintProof)
    ensures
        mint@.amount == amount,
        mint@.proof.amount == amount,
        mint@.proof.keyset_id == keyset_id@,
        mint@.proof.secret.len() == 64,
        mint@.proof.c == sample_signature(),
        mint@.proof.witness is None,
        mint@.proof.dleq is None,
        mint@.proof.p2pk_e is None,
{
    let proof = create_sample_proof(keyset_id, amount);
    MintProof { proof, amount, timestamp: now() }
}

} // verus!
