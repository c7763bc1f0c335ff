use crate::abi::string_abi;
use crate::codec::{decode_request, is_request_bytes, request_bytes, DecodeError, Inputs, Outputs};
use alloy_sol_types::SolValue;
use vstd::prelude::*;
use vstd::string::*;
use vstd::utf8::*;

verus! {

/// The Keccak-256 digest of a byte string.
pub uninterp spec fn keccak256_of(data: Seq<u8>) -> Seq<u8>;

/// Relies on `alloy_primitives::keccak256`: the 32-byte Keccak-256 digest
/// of the bytes, which depends on the bytes alone.
#[verifier::external_body]
fn keccak256(data: &Vec<u8>) -> (r: [u8; 32])
    ensures
        r@ == keccak256_of(data@),
{
    alloy_primitives::keccak256(data).0
}

/// Relies on `SolValue::abi_encode` of alloy-sol-types for `String`: the
/// offset word, the length word, then the UTF-8 bytes padded to a word.
#[verifier::external_body]
fn abi_encode_string(s: &String) -> (r: Vec<u8>)
    ensures
        r@ == string_abi(encode_utf8(s@)),
{
    s.abi_encode()
}

/// The statement that the checker is asked to decide: the theorem, a
/// newline, then the solution, with no other change to either text.
pub open spec fn canonical(theorem: Seq<char>, solution: Seq<char>) -> Seq<char> {
    theorem + seq!['\n'] + solution
}

/// The commitment of a job: the Keccak-256 digest of its solution
/// ABI-encoded as a `string`. It binds the proof text alone; the theorem is
/// part of the statement that the checker decides, not of the commitment.
pub open spec fn commitment(solution: Seq<char>) -> Seq<u8> {
    keccak256_of(string_abi(encode_utf8(solution)))
}

/// Joins a theorem and a solution into the statement that is checked.
pub fn canonical_statement(theorem: &str, solution: &str) -> (r: String)
    ensures
        r@ == canonical(theorem@, solution@),
{
    proof {
        reveal_strlit("\n");
    }
    let s = String::from_str(theorem);
    let s = s.concat("\n");
    s.concat(solution)
}

/// Computes the commitment over a solution.
pub fn commit(solution: &String) -> (r: [u8; 32])
    ensures
        r@ == commitment(solution@),
{
    let encoded = abi_encode_string(solution);
    keccak256(&encoded)
}

/// What the proving program derives from its input before it asks the
/// checker: the statement to check, and the journal to commit once the
/// checker accepts.
pub struct Claim {
    pub statement: String,
    pub outputs: Outputs,
}

/// Derives the claim of a job from the bytes handed to the proving
/// program; bytes that are not a job's inputs are rejected.
pub fn derive_claim(input: &[u8]) -> (r: Result<Claim, DecodeError>)
    ensures
        r is Ok <==> is_request_bytes(input@),
        forall|v: (Seq<u8>, Seq<char>, Seq<char>)|
            v.0.len() == 20 && #[trigger] request_bytes(v) == input@ ==> (r matches Ok(c) && c.statement@
                == canonical(v.1, v.2) && c.outputs.sender@ == v.0 && c.outputs.solution_hash@
                == commitment(v.2)),
{
    match decode_request(input) {
        Ok(inputs) => Ok(claim_of(&inputs)),
        Err(e) => Err(e),
    }
}

/// The claim of given inputs.
pub fn claim_of(inputs: &Inputs) -> (r: Claim)
    ensures
        r.statement@ == canonical(inputs.theorem@, inputs.solution@),
        r.outputs.sender@ == inputs.sender@,
        r.outputs.solution_hash@ == commitment(inputs.solution@),
{
    let statement = canonical_statement(inputs.theorem.as_str(), inputs.solution.as_str());
    let solution_hash = commit(&inputs.solution);
    Claim { statement, outputs: Outputs { sender: inputs.sender, solution_hash } }
}

/// The commitment is a function of the solution alone: equal solutions give
/// equal commitments, whatever the theorem, the process or the machine.
pub proof fn lemma_commit_deterministic(a: Seq<char>, b: Seq<char>)
    requires
        a == b,
    ensures
        commitment(a) == commitment(b),
{
}

} // verus!
