use crate::types::{
    optional_view, BurnProof, BurnProofView, MintProof, MintProofView, Proof, ProofView, Timestamp,
};
use vstd::bytes::*;
use vstd::prelude::*;
use vstd::slice::*;
use vstd::utf8::*;

verus! {

/// The error of `String::from_utf8`. Nothing is read from it.
#[verifier::external_type_specification]
#[verifier::external_body]
pub struct ExFromUtf8Error(std::string::FromUtf8Error);

/// `String::from_utf8` accepts exactly the byte strings that are UTF-8, and
/// the string it gives holds the characters that they spell.
pub assume_specification[ std::string::String::from_utf8 ](vec: Vec<u8>) -> (result: Result<
    String,
    std::string::FromUtf8Error,
>)
    ensures
        result is Ok <==> valid_utf8(vec@),
        result matches Ok(text) ==> text@ == decode_utf8(vec@),
;

/// A 64-bit number: eight bytes, the lowest first.
pub open spec fn u64_bytes(value: u64) -> Seq<u8> {
    spec_u64_to_le_bytes(value)
}

/// Reads a 64-bit number from the front of `bytes`: the number and what
/// follows it.
pub open spec fn parse_u64(bytes: Seq<u8>) -> Option<(u64, Seq<u8>)> {
    if bytes.len() >= 8 {
        Some((spec_u64_from_le_bytes(bytes.subrange(0, 8)), bytes.skip(8)))
    } else {
        None
    }
}

/// A 32-bit number: four bytes, the lowest first.
pub open spec fn u32_bytes(value: u32) -> Seq<u8> {
    spec_u32_to_le_bytes(value)
}

/// Reads a 32-bit number from the front of `bytes`.
pub open spec fn parse_u32(bytes: Seq<u8>) -> Option<(u32, Seq<u8>)> {
    if bytes.len() >= 4 {
        Some((spec_u32_from_le_bytes(bytes.subrange(0, 4)), bytes.skip(4)))
    } else {
        None
    }
}

/// A signed 64-bit number: its distance from the least one, as a 64-bit
/// number.
pub open spec fn i64_bytes(value: i64) -> Seq<u8> {
    u64_bytes((value + 0x8000_0000_0000_0000) as u64)
}

/// Reads a signed 64-bit number from the front of `bytes`.
pub open spec fn parse_i64(bytes: Seq<u8>) -> Option<(i64, Seq<u8>)> {
    match parse_u64(bytes) {
        Some((raw, rest)) => Some(((raw - 0x8000_0000_0000_0000) as i64, rest)),
        None => None,
    }
}

/// A byte string: its length as a 64-bit number, then the bytes.
pub open spec fn blob_bytes(blob: Seq<u8>) -> Seq<u8> {
    u64_bytes(blob.len() as u64) + blob
}

/// Reads a byte string from the front of `bytes`.
pub open spec fn parse_blob(bytes: Seq<u8>) -> Option<(Seq<u8>, Seq<u8>)> {
    match parse_u64(bytes) {
        Some((len, rest)) => if len <= rest.len() {
            Some((rest.subrange(0, len as int), rest.skip(len as int)))
        } else {
            None
        },
        None => None,
    }
}

/// A byte string that may be absent: one byte that is 0 where it is
/// absent, else one byte that is 1 and then the byte string.
pub open spec fn optional_bytes(blob: Option<Seq<u8>>) -> Seq<u8> {
    match blob {
        Some(blob) => seq![1u8] + blob_bytes(blob),
        None => seq![0u8],
    }
}

/// Reads a byte string that may be absent from the front of `bytes`.
pub open spec fn parse_optional(bytes: Seq<u8>) -> Option<(Option<Seq<u8>>, Seq<u8>)> {
    if bytes.len() == 0 {
        None
    } else if bytes[0] == 0 {
        Some((None, bytes.skip(1)))
    } else if bytes[0] == 1 {
        match parse_blob(bytes.skip(1)) {
            Some((blob, rest)) => Some((Some(blob), rest)),
            None => None,
        }
    } else {
        None
    }
}

/// Whether the length of the byte string, where it is there, can be written
/// as a 64-bit number.
pub open spec fn optional_fits(blob: Option<Seq<u8>>) -> bool {
    blob matches Some(blob) ==> blob.len() <= u64::MAX
}

/// A text: its UTF-8 bytes as a byte string.
pub open spec fn text_bytes(text: Seq<char>) -> Seq<u8> {
    blob_bytes(encode_utf8(text))
}

/// Reads a text from the front of `bytes`.
pub open spec fn parse_text(bytes: Seq<u8>) -> Option<(Seq<char>, Seq<u8>)> {
    match parse_blob(bytes) {
        Some((blob, rest)) => if valid_utf8(blob) {
            Some((decode_utf8(blob), rest))
        } else {
            None
        },
        None => None,
    }
}

/// A 64-bit number is read back from its bytes, whatever follows them.
pub proof fn lemma_parse_u64(value: u64, rest: Seq<u8>)
    ensures
        u64_bytes(value).len() == 8,
        parse_u64(u64_bytes(value) + rest) == Some((value, rest)),
{
    lemma_auto_spec_u64_to_from_le_bytes();
    let bytes = u64_bytes(value) + rest;
    assert(bytes.subrange(0, 8) =~= u64_bytes(value));
    assert(bytes.skip(8) =~= rest);
}

/// A 32-bit number is read back from its bytes, whatever follows them.
pub proof fn lemma_parse_u32(value: u32, rest: Seq<u8>)
    ensures
        u32_bytes(value).len() == 4,
        parse_u32(u32_bytes(value) + rest) == Some((value, rest)),
{
    lemma_auto_spec_u32_to_from_le_bytes();
    let bytes = u32_bytes(value) + rest;
    assert(bytes.subrange(0, 4) =~= u32_bytes(value));
    assert(bytes.skip(4) =~= rest);
}

/// A signed number is read back from its bytes, whatever follows them.
pub proof fn lemma_parse_i64(value: i64, rest: Seq<u8>)
    ensures
        i64_bytes(value).len() == 8,
        parse_i64(i64_bytes(value) + rest) == Some((value, rest)),
{
    lemma_parse_u64((value + 0x8000_0000_0000_0000) as u64, rest);
}

/// A byte string is read back from its bytes, whatever follows them.
pub proof fn lemma_parse_blob(blob: Seq<u8>, rest: Seq<u8>)
    requires
        blob.len() <= u64::MAX,
    ensures
        parse_blob(blob_bytes(blob) + rest) == Some((blob, rest)),
{
    lemma_parse_u64(blob.len() as u64, blob + rest);
    assert(blob_bytes(blob) + rest =~= u64_bytes(blob.len() as u64) + (blob + rest));
    assert((blob + rest).subrange(0, blob.len() as int) =~= blob);
    assert((blob + rest).skip(blob.len() as int) =~= rest);
}

/// A byte string that may be absent is read back from its bytes, whatever
/// follows them.
pub proof fn lemma_parse_optional(blob: Option<Seq<u8>>, rest: Seq<u8>)
    requires
        optional_fits(blob),
    ensures
        parse_optional(optional_bytes(blob) + rest) == Some((blob, rest)),
{
    let bytes = optional_bytes(blob) + rest;
    match blob {
        Some(blob) => {
            lemma_parse_blob(blob, rest);
            assert(bytes.skip(1) =~= blob_bytes(blob) + rest);
        },
        None => {
            assert(bytes.skip(1) =~= rest);
        },
    }
}

/// A text is read back from its bytes, whatever follows them.
pub proof fn lemma_parse_text(text: Seq<char>, rest: Seq<u8>)
    requires
        encode_utf8(text).len() <= u64::MAX,
    ensures
        parse_text(text_bytes(text) + rest) == Some((text, rest)),
{
    lemma_parse_blob(encode_utf8(text), rest);
    encode_utf8_valid_utf8(text);
    encode_utf8_decode_utf8(text);
}

/// Appends a 64-bit number to `out`.
pub fn put_u64(out: &mut Vec<u8>, value: u64)
    ensures
        final(out)@ == old(out)@ + u64_bytes(value),
{
    let mut bytes = u64_to_le_bytes(value);
    out.append(&mut bytes);
}

/// Appends a 32-bit number to `out`.
pub fn put_u32(out: &mut Vec<u8>, value: u32)
    ensures
        final(out)@ == old(out)@ + u32_bytes(value),
{
    let mut bytes = u32_to_le_bytes(value);
    out.append(&mut bytes);
}

/// Appends a signed 64-bit number to `out`.
pub fn put_i64(out: &mut Vec<u8>, value: i64)
    ensures
        final(out)@ == old(out)@ + i64_bytes(value),
{
    let raw: i128 = value as i128 + 0x8000_0000_0000_0000;
    put_u64(out, raw as u64);
}

/// Appends a byte string to `out`.
pub fn put_blob(out: &mut Vec<u8>, blob: &[u8])
    ensures
        final(out)@ == old(out)@ + blob_bytes(blob@),
        blob@.len() <= u64::MAX,
{
    put_u64(out, blob.len() as u64);
    out.extend_from_slice(blob);
}

/// Appends a byte string that may be absent to `out`.
pub fn put_optional(out: &mut Vec<u8>, blob: &Option<Vec<u8>>)
    ensures
        final(out)@ == old(out)@ + optional_bytes(optional_view(*blob)),
        optional_fits(optional_view(*blob)),
{
    match blob {
        Some(blob) => {
            out.push(1u8);
            put_blob(out, blob.as_slice());
            assert(final(out)@ =~= old(out)@ + optional_bytes(Some(blob@)));
        },
        None => {
            out.push(0u8);
            assert(final(out)@ =~= old(out)@ + optional_bytes(None));
        },
    }
}

/// Appends a text to `out`.
pub fn put_text(out: &mut Vec<u8>, text: &str)
    ensures
        final(out)@ == old(out)@ + text_bytes(text@),
        encode_utf8(text@).len() <= u64::MAX,
{
    put_blob(out, text.as_bytes());
}

/// Reads a 64-bit number at `at`: the number and where the next value
/// starts.
pub(crate) fn get_u64(bytes: &[u8], at: usize) -> (read: Option<(u64, usize)>)
    requires
        at <= bytes@.len(),
    ensures
        match parse_u64(bytes@.skip(at as int)) {
            Some((value, rest)) => read matches Some((got, next)) && got == value && at <= next
                <= bytes@.len() && rest == bytes@.skip(next as int),
            None => read is None,
        },
{
    if bytes.len() - at < 8 {
        return None;
    }
    let value = u64_from_le_bytes(slice_subrange(bytes, at, at + 8));
    proof {
        assert(bytes@.skip(at as int).subrange(0, 8) =~= bytes@.subrange(at as int, at + 8));
        assert(bytes@.skip(at as int).skip(8) =~= bytes@.skip(at + 8));
    }
    Some((value, at + 8))
}

/// Reads a 32-bit number at `at`.
pub(crate) fn get_u32(bytes: &[u8], at: usize) -> (read: Option<(u32, usize)>)
    requires
        at <= bytes@.len(),
    ensures
        match parse_u32(bytes@.skip(at as int)) {
            Some((value, rest)) => read matches Some((got, next)) && got == value && at <= next
                <= bytes@.len() && rest == bytes@.skip(next as int),
            None => read is None,
        },
{
    if bytes.len() - at < 4 {
        return None;
    }
    let value = u32_from_le_bytes(slice_subrange(bytes, at, at + 4));
    proof {
        assert(bytes@.skip(at as int).subrange(0, 4) =~= bytes@.subrange(at as int, at + 4));
        assert(bytes@.skip(at as int).skip(4) =~= bytes@.skip(at + 4));
    }
    Some((value, at + 4))
}

/// Reads a signed 64-bit number at `at`.
pub(crate) fn get_i64(bytes: &[u8], at: usize) -> (read: Option<(i64, usize)>)
    requires
        at <= bytes@.len(),
    ensures
        match parse_i64(bytes@.skip(at as int)) {
            Some((value, rest)) => read matches Some((got, next)) && got == value && at <= next
                <= bytes@.len() && rest == bytes@.skip(next as int),
            None => read is None,
        },
{
    match get_u64(bytes, at) {
        Some((raw, next)) => {
            let value: i128 = raw as i128 - 0x8000_0000_0000_0000;
            Some((value as i64, next))
        },
        None => None,
    }
}

/// Reads a byte string at `at`.
pub(crate) fn get_blob(bytes: &[u8], at: usize) -> (read: Option<(Vec<u8>, usize)>)
    requires
        at <= bytes@.len(),
    ensures
        match parse_blob(bytes@.skip(at as int)) {
            Some((value, rest)) => read matches Some((got, next)) && got@ == value && at <= next
                <= bytes@.len() && rest == bytes@.skip(next as int),
            None => read is None,
        },
{
    let (len, start) = match get_u64(bytes, at) {
        Some(read) => read,
        None => {
            return None;
        },
    };
    if len > (bytes.len() - start) as u64 {
        return None;
    }
    let end: usize = start + len as usize;
    let blob = slice_to_vec(slice_subrange(bytes, start, end));
    proof {
        assert(bytes@.skip(start as int).subrange(0, len as int) =~= bytes@.subrange(
            start as int,
            end as int,
        ));
        assert(bytes@.skip(start as int).skip(len as int) =~= bytes@.skip(end as int));
    }
    Some((blob, end))
}

/// Reads a byte string that may be absent at `at`.
pub(crate) fn get_optional(bytes: &[u8], at: usize) -> (read: Option<(Option<Vec<u8>>, usize)>)
    requires
        at <= bytes@.len(),
    ensures
        match parse_optional(bytes@.skip(at as int)) {
            Some((value, rest)) => read matches Some((got, next)) && optional_view(got) == value
                && at <= next <= bytes@.len() && rest == bytes@.skip(next as int),
            None => read is None,
        },
{
    if at == bytes.len() {
        return None;
    }
    let tag = bytes[at];
    assert(bytes@.skip(at as int)[0] == tag);
    assert(bytes@.skip(at as int).skip(1) =~= bytes@.skip(at + 1));
    if tag == 0 {
        Some((None, at + 1))
    } else if tag == 1 {
        match get_blob(bytes, at + 1) {
            Some((blob, next)) => Some((Some(blob), next)),
            None => None,
        }
    } else {
        None
    }
}

/// Reads a text at `at`.
pub(crate) fn get_text(bytes: &[u8], at: usize) -> (read: Option<(String, usize)>)
    requires
        at <= bytes@.len(),
    ensures
        match parse_text(bytes@.skip(at as int)) {
            Some((value, rest)) => read matches Some((got, next)) && got@ == value && at <= next
                <= bytes@.len() && rest == bytes@.skip(next as int),
            None => read is None,
        },
{
    let (blob, next) = match get_blob(bytes, at) {
        Some(read) => read,
        None => {
            return None;
        },
    };
    match String::from_utf8(blob) {
        Ok(text) => Some((text, next)),
        Err(_) => None,
    }
}

/// A time: its seconds, then its nanoseconds.
pub open spec fn timestamp_bytes(time: Timestamp) -> Seq<u8> {
    i64_bytes(time.secs) + u32_bytes(time.nanos)
}

/// Reads a time from the front of `bytes`.
pub open spec fn parse_timestamp(bytes: Seq<u8>) -> Option<(Timestamp, Seq<u8>)> {
    match parse_i64(bytes) {
        Some((secs, rest)) => match parse_u32(rest) {
            Some((nanos, rest)) => Some((Timestamp { secs, nanos }, rest)),
            None => None,
        },
        None => None,
    }
}

/// A proof: its amount, keyset id, secret and signature, then its
/// witness, its proof of discrete-log equality and its ephemeral key.
pub open spec fn proof_bytes(proof: ProofView) -> Seq<u8> {
    u64_bytes(proof.amount) + blob_bytes(proof.keyset_id) + text_bytes(proof.secret) + blob_bytes(
        proof.c,
    ) + optional_bytes(proof.witness) + optional_bytes(proof.dleq) + optional_bytes(proof.p2pk_e)
}

/// Reads a proof from the front of `bytes`.
#[verifier::opaque]
pub open spec fn parse_proof(bytes: Seq<u8>) -> Option<(ProofView, Seq<u8>)> {
    match parse_u64(bytes) {
        Some((amount, rest)) => match parse_blob(rest) {
            Some((keyset_id, rest)) => match parse_text(rest) {
                Some((secret, rest)) => match parse_blob(rest) {
                    Some((c, rest)) => match parse_optional(rest) {
                        Some((witness, rest)) => match parse_optional(rest) {
                            Some((dleq, rest)) => match parse_optional(rest) {
                                Some((p2pk_e, rest)) => Some(
                                    (
                                        ProofView {
                                            amount,
                                            keyset_id,
                                            secret,
                                            c,
                                            witness,
                                            dleq,
                                            p2pk_e,
                                        },
                                        rest,
                                    ),
                                ),
                                None => None,
                            },
                            None => None,
                        },
                        None => None,
                    },
                    None => None,
                },
                None => None,
            },
            None => None,
        },
        None => None,
    }
}

/// A mint event: its proof, amount and time.
pub open spec fn mint_bytes(event: MintProofView) -> Seq<u8> {
    proof_bytes(event.proof) + u64_bytes(event.amount) + timestamp_bytes(event.timestamp)
}

/// Reads a mint event from the front of `bytes`.
pub open spec fn parse_mint(bytes: Seq<u8>) -> Option<(MintProofView, Seq<u8>)> {
    match parse_proof(bytes) {
        Some((proof, rest)) => match parse_u64(rest) {
            Some((amount, rest)) => match parse_timestamp(rest) {
                Some((timestamp, rest)) => Some((MintProofView { proof, amount, timestamp }, rest)),
                None => None,
            },
            None => None,
        },
        None => None,
    }
}

/// A burn event: its secret, amount and time.
pub open spec fn burn_bytes(event: BurnProofView) -> Seq<u8> {
    text_bytes(event.secret) + u64_bytes(event.amount) + timestamp_bytes(event.timestamp)
}

/// Reads a burn event from the front of `bytes`.
pub open spec fn parse_burn(bytes: Seq<u8>) -> Option<(BurnProofView, Seq<u8>)> {
    match parse_text(bytes) {
        Some((secret, rest)) => match parse_u64(rest) {
            Some((amount, rest)) => match parse_timestamp(rest) {
                Some((timestamp, rest)) => Some((BurnProofView { secret, amount, timestamp }, rest)),
                None => None,
            },
            None => None,
        },
        None => None,
    }
}

/// Whether the lengths inside the proof can be written as 64-bit numbers.
pub open spec fn proof_fits(proof: ProofView) -> bool {
    &&& proof.keyset_id.len() <= u64::MAX
    &&& encode_utf8(proof.secret).len() <= u64::MAX
    &&& proof.c.len() <= u64::MAX
    &&& optional_fits(proof.witness)
    &&& optional_fits(proof.dleq)
    &&& optional_fits(proof.p2pk_e)
}

/// Whether the lengths inside the event can be written as 64-bit numbers.
pub open spec fn mint_fits(event: MintProofView) -> bool {
    proof_fits(event.proof)
}

/// Whether the length of the secret can be written as a 64-bit number.
pub open spec fn burn_fits(event: BurnProofView) -> bool {
    encode_utf8(event.secret).len() <= u64::MAX
}

/// A time is read back from its bytes, whatever follows them.
pub proof fn lemma_parse_timestamp(time: Timestamp, rest: Seq<u8>)
    ensures
        parse_timestamp(timestamp_bytes(time) + rest) == Some((time, rest)),
{
    lemma_parse_i64(time.secs, u32_bytes(time.nanos) + rest);
    lemma_parse_u32(time.nanos, rest);
    assert(timestamp_bytes(time) + rest =~= i64_bytes(time.secs) + (u32_bytes(time.nanos) + rest));
}

/// A proof is read back from its bytes, whatever follows them.
pub proof fn lemma_parse_proof(proof: ProofView, rest: Seq<u8>)
    requires
        proof_fits(proof),
    ensures
        parse_proof(proof_bytes(proof) + rest) == Some((proof, rest)),
{
    reveal(parse_proof);
    let amount = u64_bytes(proof.amount);
    let keyset = blob_bytes(proof.keyset_id);
    let secret = text_bytes(proof.secret);
    let c = blob_bytes(proof.c);
    let witness = optional_bytes(proof.witness);
    let dleq = optional_bytes(proof.dleq);
    let key = optional_bytes(proof.p2pk_e);
    let after_dleq = key + rest;
    let after_witness = dleq + after_dleq;
    let after_c = witness + after_witness;
    let after_secret = c + after_c;
    let after_keyset = secret + after_secret;
    let after_amount = keyset + after_keyset;
    assert(proof_bytes(proof) + rest == amount + after_amount) by {
        lemma_joined_bytes(amount + keyset + secret + c + witness + dleq, key, rest);
        lemma_joined_bytes(amount + keyset + secret + c + witness, dleq, after_dleq);
        lemma_joined_bytes(amount + keyset + secret + c, witness, after_witness);
        lemma_joined_bytes(amount + keyset + secret, c, after_c);
        lemma_joined_bytes(amount + keyset, secret, after_secret);
        lemma_joined_bytes(amount, keyset, after_keyset);
    }
    assert(parse_u64(amount + after_amount) == Some((proof.amount, after_amount))) by {
        lemma_parse_u64(proof.amount, after_amount);
    }
    assert(parse_blob(after_amount) == Some((proof.keyset_id, after_keyset))) by {
        lemma_parse_blob(proof.keyset_id, after_keyset);
    }
    assert(parse_text(after_keyset) == Some((proof.secret, after_secret))) by {
        lemma_parse_text(proof.secret, after_secret);
    }
    assert(parse_blob(after_secret) == Some((proof.c, after_c))) by {
        lemma_parse_blob(proof.c, after_c);
    }
    assert(parse_optional(after_c) == Some((proof.witness, after_witness))) by {
        lemma_parse_optional(proof.witness, after_witness);
    }
    assert(parse_optional(after_witness) == Some((proof.dleq, after_dleq))) by {
        lemma_parse_optional(proof.dleq, after_dleq);
    }
    assert(parse_optional(after_dleq) == Some((proof.p2pk_e, rest))) by {
        lemma_parse_optional(proof.p2pk_e, rest);
    }
}

/// Joining byte strings does not depend on where one starts.
pub proof fn lemma_joined_bytes(a: Seq<u8>, b: Seq<u8>, c: Seq<u8>)
    ensures
        (a + b) + c == a + (b + c),
{
    assert((a + b) + c =~= a + (b + c));
}

/// A mint event is read back from its bytes, whatever follows them.
pub proof fn lemma_parse_mint(event: MintProofView, rest: Seq<u8>)
    requires
        mint_fits(event),
    ensures
        parse_mint(mint_bytes(event) + rest) == Some((event, rest)),
{
    let after_amount = timestamp_bytes(event.timestamp) + rest;
    let after_proof = u64_bytes(event.amount) + after_amount;
    lemma_parse_proof(event.proof, after_proof);
    lemma_parse_u64(event.amount, after_amount);
    lemma_parse_timestamp(event.timestamp, rest);
    assert(mint_bytes(event) + rest =~= proof_bytes(event.proof) + after_proof);
}

/// A burn event is read back from its bytes, whatever follows them.
pub proof fn lemma_parse_burn(event: BurnProofView, rest: Seq<u8>)
    requires
        burn_fits(event),
    ensures
        parse_burn(burn_bytes(event) + rest) == Some((event, rest)),
{
    let after_amount = timestamp_bytes(event.timestamp) + rest;
    let after_secret = u64_bytes(event.amount) + after_amount;
    lemma_parse_text(event.secret, after_secret);
    lemma_parse_u64(event.amount, after_amount);
    lemma_parse_timestamp(event.timestamp, rest);
    assert(burn_bytes(event) + rest =~= text_bytes(event.secret) + after_secret);
}

/// Appends a time to `out`.
pub fn put_timestamp(out: &mut Vec<u8>, time: Timestamp)
    ensures
        final(out)@ == old(out)@ + timestamp_bytes(time),
{
    put_i64(out, time.secs);
    put_u32(out, time.nanos);
    assert(final(out)@ =~= old(out)@ + timestamp_bytes(time));
}

/// Appends a proof to `out`.
pub fn put_proof(out: &mut Vec<u8>, proof: &Proof)
    ensures
        final(out)@ == old(out)@ + proof_bytes(proof@),
        proof_fits(proof@),
{
    put_u64(out, proof.amount);
    put_blob(out, proof.keyset_id.as_slice());
    put_text(out, proof.secret.as_str());
    put_blob(out, proof.c.as_slice());
    put_optional(out, &proof.witness);
    put_optional(out, &proof.dleq);
    put_optional(out, &proof.p2pk_e);
    assert(final(out)@ =~= old(out)@ + proof_bytes(proof@));
}

/// Appends a mint event to `out`.
pub fn put_mint(out: &mut Vec<u8>, event: &MintProof)
    ensures
        final(out)@ == old(out)@ + mint_bytes(event@),
        mint_fits(event@),
{
    put_proof(out, &event.proof);
    put_u64(out, event.amount);
    put_timestamp(out, event.timestamp);
    assert(final(out)@ =~= old(out)@ + mint_bytes(event@));
}

/// Appends a burn event to `out`.
pub fn put_burn(out: &mut Vec<u8>, event: &BurnProof)
    ensures
        final(out)@ == old(out)@ + burn_bytes(event@),
        burn_fits(event@),
{
    put_text(out, event.secret.as_str());
    put_u64(out, event.amount);
    put_timestamp(out, event.timestamp);
    assert(final(out)@ =~= old(out)@ + burn_bytes(event@));
}

/// Reads a time at `at`.
pub(crate) fn get_timestamp(bytes: &[u8], at: usize) -> (read: Option<(Timestamp, usize)>)
    requires
        at <= bytes@.len(),
    ensures
        match parse_timestamp(bytes@.skip(at as int)) {
            Some((value, rest)) => read matches Some((got, next)) && got == value && at <= next
                <= bytes@.len() && rest == bytes@.skip(next as int),
            None => read is None,
        },
{
    let (secs, at) = match get_i64(bytes, at) {
        Some(read) => read,
        None => {
            return None;
        },
    };
    let (nanos, at) = match get_u32(bytes, at) {
        Some(read) => read,
        None => {
            return None;
        },
    };
    Some((Timestamp { secs, nanos }, at))
}

/// Reads a proof at `at`.
pub(crate) fn get_proof(bytes: &[u8], at: usize) -> (read: Option<(Proof, usize)>)
    requires
        at <= bytes@.len(),
    ensures
        match parse_proof(bytes@.skip(at as int)) {
            Some((value, rest)) => read matches Some((got, next)) && got@ == value && at <= next
                <= bytes@.len() && rest == bytes@.skip(next as int),
            None => read is None,
        },
{
    reveal(parse_proof);
    let (amount, at) = match get_u64(bytes, at) {
        Some(read) => read,
        None => {
            return None;
        },
    };
    let (keyset_id, at) = match get_blob(bytes, at) {
        Some(read) => read,
        None => {
            return None;
        },
    };
    let (secret, at) = match get_text(bytes, at) {
        Some(read) => read,
        None => {
            return None;
        },
    };
    let (c, at) = match get_blob(bytes, at) {
        Some(read) => read,
        None => {
            return None;
        },
    };
    let (witness, at) = match get_optional(bytes, at) {
        Some(read) => read,
        None => {
            return None;
        },
    };
    let (dleq, at) = match get_optional(bytes, at) {
        Some(read) => read,
        None => {
            return None;
        },
    };
    let (p2pk_e, at) = match get_optional(bytes, at) {
        Some(read) => read,
        None => {
            return None;
        },
    };
    Some((Proof { amount, keyset_id, secret, c, witness, dleq, p2pk_e }, at))
}

/// Reads a mint event at `at`.
pub(crate) fn get_mint(bytes: &[u8], at: usize) -> (read: Option<(MintProof, usize)>)
    requires
        at <= bytes@.len(),
    ensures
        match parse_mint(bytes@.skip(at as int)) {
            Some((value, rest)) => read matches Some((got, next)) && got@ == value && at <= next
                <= bytes@.len() && rest == bytes@.skip(next as int),
            None => read is None,
        },
{
    let (proof, at) = match get_proof(bytes, at) {
        Some(read) => read,
        None => {
            return None;
        },
    };
    let (amount, at) = match get_u64(bytes, at) {
        Some(read) => read,
        None => {
            return None;
        },
    };
    let (timestamp, at) = match get_timestamp(bytes, at) {
        Some(read) => read,
        None => {
            return None;
        },
    };
    Some((MintProof { proof, amount, timestamp }, at))
}

/// Reads a burn event at `at`.
pub(crate) fn get_burn(bytes: &[u8], at: usize) -> (read: Option<(BurnProof, usize)>)
    requires
        at <= bytes@.len(),
    ensures
        match parse_burn(bytes@.skip(at as int)) {
            Some((value, rest)) => read matches Some((got, next)) && got@ == value && at <= next
                <= bytes@.len() && rest == bytes@.skip(next as int),
            None => read is None,
        },
{
    let (secret, at) = match get_text(bytes, at) {
        Some(read) => read,
        None => {
            return None;
        },
    };
    let (amount, at) = match get_u64(bytes, at) {
        Some(read) => read,
        None => {
            return None;
        },
    };
    let (timestamp, at) = match get_timestamp(bytes, at) {
        Some(read) => read,
        None => {
            return None;
        },
    };
    Some((BurnProof { secret, amount, timestamp }, at))
}

} // verus!
