use crate::abi::{
    be_value, inputs_abi, inputs_lengths_fit, journal_abi, lemma_be_value_prefix,
    lemma_inputs_abi_injective, lemma_inputs_abi_lengths_fit, lemma_journal_abi_injective,
    lemma_receipt_abi_injective, receipt_abi, small_word_at, word_at,
};
use alloy_primitives::{Address, Bytes, FixedBytes};
use alloy_sol_types::SolValue;
use vstd::prelude::*;
use vstd::utf8::*;

verus! {

#[verifier::external_type_specification]
#[verifier::external_body]
pub struct ExAbiError(alloy_sol_types::Error);

/// What a proof job is about: who submits it, the theorem, and the proposed
/// solution. Its wire form is the ABI tuple `(address, string, string)`.
pub struct Inputs {
    pub sender: [u8; 20],
    pub theorem: String,
    pub solution: String,
}

/// The journal that the proving program commits: the submitter and the
/// commitment over the solution. Its wire form is `(address, bytes32)`.
pub struct Outputs {
    pub sender: [u8; 20],
    pub solution_hash: [u8; 32],
}

/// A proved job, in the form handed to third parties: the submitter, the
/// commitment, and the proof artifact of the prover. Its wire form is
/// `(address, bytes32, bytes)`.
pub struct Receipt {
    pub sender: [u8; 20],
    pub solution_hash: [u8; 32],
    pub artifact: Vec<u8>,
}

/// Bytes that are not the canonical encoding of any value of the expected
/// wire form: truncated, of the wrong shape, with a non-zero address
/// padding, text that is not UTF-8, or trailing bytes.
#[derive(Debug, PartialEq, Eq, Structural)]
pub enum DecodeError {
    Malformed,
}

impl View for Inputs {
    type V = (Seq<u8>, Seq<char>, Seq<char>);

    open spec fn view(&self) -> (Seq<u8>, Seq<char>, Seq<char>) {
        (self.sender@, self.theorem@, self.solution@)
    }
}

impl View for Outputs {
    type V = (Seq<u8>, Seq<u8>);

    open spec fn view(&self) -> (Seq<u8>, Seq<u8>) {
        (self.sender@, self.solution_hash@)
    }
}

impl View for Receipt {
    type V = (Seq<u8>, Seq<u8>, Seq<u8>);

    open spec fn view(&self) -> (Seq<u8>, Seq<u8>, Seq<u8>) {
        (self.sender@, self.solution_hash@, self.artifact@)
    }
}

/// The wire form of a job's inputs.
pub open spec fn request_bytes(v: (Seq<u8>, Seq<char>, Seq<char>)) -> Seq<u8> {
    inputs_abi(v.0, encode_utf8(v.1), encode_utf8(v.2))
}

/// The wire form of a journal.
pub open spec fn journal_bytes(v: (Seq<u8>, Seq<u8>)) -> Seq<u8> {
    journal_abi(v.0, v.1)
}

/// The wire form of a receipt.
pub open spec fn response_bytes(v: (Seq<u8>, Seq<u8>, Seq<u8>)) -> Seq<u8> {
    receipt_abi(v.0, v.1, v.2)
}

/// Relies on `SolValue::abi_encode` of alloy-sol-types for the tuple
/// `(Address, String, String)`: the standard ABI encoding of one dynamic
/// tuple, with the strings' UTF-8 bytes.
#[verifier::external_body]
fn abi_encode_inputs(sender: &[u8; 20], theorem: &String, solution: &String) -> (r: Vec<u8>)
    ensures
        r@ == inputs_abi(sender@, encode_utf8(theorem@), encode_utf8(solution@)),
{
    (Address::from(*sender), theorem.clone(), solution.clone()).abi_encode()
}

/// Relies on `SolValue::abi_decode` of alloy-sol-types, with validation, for
/// `(Address, String, String)`: it decodes, checks that the address padding
/// is zero and the strings are UTF-8, and fails unless the decoded value
/// encodes back to exactly `data`. The decoder adds each length word it
/// reads to a position, which overflows on a length near `usize::MAX`; so
/// every offset and length it follows must fit within `data`.
#[verifier::external_body]
fn abi_decode_inputs(data: &[u8]) -> (r: Result<([u8; 20], String, String), alloy_sol_types::Error>)
    requires
        inputs_lengths_fit(data@),
    ensures
        match r {
            Ok(x) => inputs_abi(x.0@, encode_utf8(x.1@), encode_utf8(x.2@)) == data@,
            Err(_) => forall|s: Seq<u8>, t: Seq<char>, u: Seq<char>|
                s.len() == 20 ==> #[trigger] inputs_abi(s, encode_utf8(t), encode_utf8(u)) != data@,
        },
{
    <(Address, String, String)>::abi_decode(data, true).map(|(a, t, u)| (a.into_array(), t, u))
}

/// Relies on `SolValue::abi_encode` of alloy-sol-types for the static tuple
/// `(Address, FixedBytes<32>)`: two words in place.
#[verifier::external_body]
fn abi_encode_journal(sender: &[u8; 20], hash: &[u8; 32]) -> (r: Vec<u8>)
    ensures
        r@ == journal_abi(sender@, hash@),
{
    (Address::from(*sender), FixedBytes::<32>::from(*hash)).abi_encode()
}

/// Relies on `SolValue::abi_decode` of alloy-sol-types, with validation, for
/// `(Address, FixedBytes<32>)`: it fails unless the decoded value encodes
/// back to exactly `data`.
#[verifier::external_body]
fn abi_decode_journal(data: &[u8]) -> (r: Result<([u8; 20], [u8; 32]), alloy_sol_types::Error>)
    ensures
        match r {
            Ok(x) => journal_abi(x.0@, x.1@) == data@,
            Err(_) => forall|s: Seq<u8>, h: Seq<u8>|
                s.len() == 20 && h.len() == 32 ==> #[trigger] journal_abi(s, h) != data@,
        },
{
    <(Address, FixedBytes<32>)>::abi_decode(data, true).map(|(a, h)| (a.into_array(), h.0))
}

/// Relies on `SolValue::abi_encode` of alloy-sol-types for the tuple
/// `(Address, FixedBytes<32>, Bytes)`: the standard ABI encoding of one
/// dynamic tuple.
#[verifier::external_body]
fn abi_encode_receipt(sender: &[u8; 20], hash: &[u8; 32], artifact: &Vec<u8>) -> (r: Vec<u8>)
    ensures
        r@ == receipt_abi(sender@, hash@, artifact@),
{
    (Address::from(*sender), FixedBytes::<32>::from(*hash), Bytes::from(artifact.clone())).abi_encode()
}

/// Whether `data` is the wire form of some job's inputs.
pub open spec fn is_request_bytes(data: Seq<u8>) -> bool {
    exists|v: (Seq<u8>, Seq<char>, Seq<char>)| v.0.len() == 20 && #[trigger] request_bytes(v) == data
}

/// Whether `data` is the wire form of some journal.
pub open spec fn is_journal_bytes(data: Seq<u8>) -> bool {
    exists|v: (Seq<u8>, Seq<u8>)|
        v.0.len() == 20 && v.1.len() == 32 && #[trigger] journal_bytes(v) == data
}

/// The number held by the word at `base + off` in `data`, when a whole word
/// starts there and the number does not exceed `data.len()`.
fn small_word(data: &[u8], base: usize, off: usize) -> (r: Option<usize>)
    requires
        base <= data@.len(),
    ensures
        r is Some <==> small_word_at(data@, base + off),
        r matches Some(w) ==> w == word_at(data@, base + off),
{
    let len = data.len();
    if off > len - base || 32 > len - base - off {
        return None;
    }
    let i: usize = base + off;
    let mut acc: u128 = 0;
    let mut k: usize = 0;
    while k < 32
        invariant
            len == data@.len(),
            i == base + off,
            i + 32 <= len,
            k <= 32,
            acc == be_value(data@.subrange(i as int, i + k)),
            acc <= len,
        decreases 32 - k,
    {
        assert(data@.subrange(i as int, i + k + 1).drop_last() =~= data@.subrange(
            i as int,
            i + k,
        ));
        acc = acc * 256 + data[i + k] as u128;
        k = k + 1;
        if acc > len as u128 {
            proof {
                let w = data@.subrange(i as int, i + 32);
                assert(w.subrange(0, k as int) =~= data@.subrange(i as int, i + k));
                lemma_be_value_prefix(w, k as int);
            }
            return None;
        }
    }
    Some(acc as usize)
}

/// Whether the offsets and lengths that decoding a request follows all fit
/// within `data`.
fn request_lengths_fit(data: &[u8]) -> (r: bool)
    ensures
        r == inputs_lengths_fit(data@),
{
    let o = match small_word(data, 0, 0) {
        Some(o) => o,
        None => return false,
    };
    let t = match small_word(data, o, 32) {
        Some(t) => t,
        None => return false,
    };
    let u = match small_word(data, o, 64) {
        Some(u) => u,
        None => return false,
    };
    small_word(data, o, t).is_some() && small_word(data, o, u).is_some()
}

/// Encodes a job's inputs in the form that the proving program reads.
pub fn encode_request(inputs: &Inputs) -> (r: Vec<u8>)
    ensures
        r@ == request_bytes(inputs@),
{
    abi_encode_inputs(&inputs.sender, &inputs.theorem, &inputs.solution)
}

/// Decodes a job's inputs; only a canonical encoding is accepted, and it
/// gives back exactly the inputs it encodes.
pub fn decode_request(data: &[u8]) -> (r: Result<Inputs, DecodeError>)
    ensures
        r is Ok <==> is_request_bytes(data@),
        r matches Ok(x) ==> request_bytes(x@) == data@,
        forall|v: (Seq<u8>, Seq<char>, Seq<char>)|
            v.0.len() == 20 && #[trigger] request_bytes(v) == data@ ==> (r matches Ok(x) && x@ == v),
{
    // The slice's length is a `usize`; so is every length inside it.
    let len: usize = data.len();
    if !request_lengths_fit(data) {
        proof {
            assert forall|v: (Seq<u8>, Seq<char>, Seq<char>)|
                v.0.len() == 20 implies #[trigger] request_bytes(v) != data@ by {
                if request_bytes(v) == data@ {
                    lemma_inputs_abi_lengths_fit(v.0, encode_utf8(v.1), encode_utf8(v.2));
                }
            }
        }
        return Err(DecodeError::Malformed);
    }
    match abi_decode_inputs(data) {
        Ok((sender, theorem, solution)) => {
            let x = Inputs { sender, theorem, solution };
            proof {
                assert(request_bytes(x@).len() == len);
                assert forall|v: (Seq<u8>, Seq<char>, Seq<char>)|
                    v.0.len() == 20 && #[trigger] request_bytes(v) == data@ implies x@ == v by {
                    lemma_inputs_abi_injective(
                        x@.0,
                        encode_utf8(x@.1),
                        encode_utf8(x@.2),
                        v.0,
                        encode_utf8(v.1),
                        encode_utf8(v.2),
                    );
                    encode_utf8_decode_utf8(x@.1);
                    encode_utf8_decode_utf8(v.1);
                    encode_utf8_decode_utf8(x@.2);
                    encode_utf8_decode_utf8(v.2);
                }
            }
            Ok(x)
        },
        Err(_) => Err(DecodeError::Malformed),
    }
}

/// Encodes a journal as the proving program commits it.
pub fn encode_journal(outputs: &Outputs) -> (r: Vec<u8>)
    ensures
        r@ == journal_bytes(outputs@),
{
    abi_encode_journal(&outputs.sender, &outputs.solution_hash)
}

/// Decodes a journal; only a canonical encoding is accepted.
pub fn decode_journal(data: &[u8]) -> (r: Result<Outputs, DecodeError>)
    ensures
        r is Ok <==> is_journal_bytes(data@),
        forall|v: (Seq<u8>, Seq<u8>)|
            v.0.len() == 20 && v.1.len() == 32 ==> (#[trigger] journal_bytes(v) == data@ <==> (
            r matches Ok(x) && x@ == v)),
{
    match abi_decode_journal(data) {
        Ok((sender, solution_hash)) => {
            let x = Outputs { sender, solution_hash };
            proof {
                assert(journal_bytes(x@) == data@);
                assert forall|v: (Seq<u8>, Seq<u8>)|
                    v.0.len() == 20 && v.1.len() == 32 && #[trigger] journal_bytes(v)
                        == data@ implies x@ == v by {
                    lemma_journal_abi_injective(x@.0, x@.1, v.0, v.1);
                }
            }
            Ok(x)
        },
        Err(_) => Err(DecodeError::Malformed),
    }
}

/// Encodes a receipt in the fixed layout read by third parties.
pub fn encode_response(receipt: &Receipt) -> (r: Vec<u8>)
    ensures
        r@ == response_bytes(receipt@),
{
    abi_encode_receipt(&receipt.sender, &receipt.solution_hash, &receipt.artifact)
}

/// Decoding undoes encoding: the wire form of valid inputs is accepted, and
/// no other inputs have the same wire form, so `decode_request` gives back
/// exactly the inputs that `encode_request` was given.
pub proof fn lemma_request_round_trip(
    job: (Seq<u8>, Seq<char>, Seq<char>),
    other: (Seq<u8>, Seq<char>, Seq<char>),
)
    requires
        job.0.len() == 20,
        other.0.len() == 20,
        request_bytes(job).len() <= usize::MAX,
    ensures
        is_request_bytes(request_bytes(job)),
        request_bytes(other) == request_bytes(job) ==> other == job,
{
    if request_bytes(other) == request_bytes(job) {
        lemma_inputs_abi_injective(
            job.0,
            encode_utf8(job.1),
            encode_utf8(job.2),
            other.0,
            encode_utf8(other.1),
            encode_utf8(other.2),
        );
        encode_utf8_decode_utf8(job.1);
        encode_utf8_decode_utf8(other.1);
        encode_utf8_decode_utf8(job.2);
        encode_utf8_decode_utf8(other.2);
    }
}

/// Distinct receipts have distinct wire forms.
pub proof fn lemma_response_injective(a: (Seq<u8>, Seq<u8>, Seq<u8>), b: (Seq<u8>, Seq<u8>, Seq<u8>))
    requires
        a.0.len() == 20,
        b.0.len() == 20,
        a.1.len() == 32,
        b.1.len() == 32,
        response_bytes(a).len() <= usize::MAX,
        response_bytes(a) == response_bytes(b),
    ensures
        a == b,
{
    lemma_receipt_abi_injective(a.0, a.1, a.2, b.0, b.1, b.2);
}

/// Distinct journals have distinct wire forms, and each is accepted.
pub proof fn lemma_journal_round_trip(a: (Seq<u8>, Seq<u8>), b: (Seq<u8>, Seq<u8>))
    requires
        a.0.len() == 20,
        b.0.len() == 20,
        a.1.len() == 32,
        b.1.len() == 32,
    ensures
        is_journal_bytes(journal_bytes(a)),
        journal_bytes(a) == journal_bytes(b) ==> a == b,
{
    if journal_bytes(a) == journal_bytes(b) {
        lemma_journal_abi_injective(a.0, a.1, b.0, b.1);
    }
}

} // verus!
