use alloy_sol_types::SolValue;
use lemma_relay::codec::encode_request;
use lemma_relay::codec::Inputs;
use lemma_relay::statement::{canonical_statement, claim_of, commit, derive_claim};

const THEOREM: &str = r#"
                def And (A B: Prop): Prop := (C: Prop) -> (A -> B -> C) -> C

                def and_comm (A B: Prop): (And A B) -> (And B A) := "#;
const SOLUTION: &str =
    "fun (f: And A B) (C: Prop) (bac: B -> A -> C) => f C (fun (a: A) (b: B) => bac b a)";

#[test]
fn statement_is_theorem_newline_solution() {
    assert_eq!(canonical_statement("And A B -> And B A", "proof"), "And A B -> And B A\nproof");
    assert_eq!(canonical_statement("", ""), "\n");
}

#[test]
fn commitment_is_keccak_of_abi_encoded_solution() {
    let expected = alloy_primitives::keccak256(SOLUTION.to_string().abi_encode()).0;
    assert_eq!(commit(&SOLUTION.to_string()), expected);
}

#[test]
fn commitment_of_empty_solution() {
    let mut encoded = vec![0u8; 64];
    encoded[31] = 0x20;
    assert_eq!(commit(&String::new()), alloy_primitives::keccak256(&encoded).0);
}

#[test]
fn commitment_is_deterministic() {
    let s = SOLUTION.to_string();
    assert_eq!(commit(&s), commit(&s.clone()));
}

#[test]
fn commitment_changes_with_one_byte() {
    let a = commit(&"fun (a: A) => a".to_string());
    let b = commit(&"fun (b: A) => a".to_string());
    assert_ne!(a, b);
}

#[test]
fn claim_of_swap_proof() {
    let inputs = Inputs {
        sender: [0u8; 20],
        theorem: THEOREM.to_string(),
        solution: SOLUTION.to_string(),
    };
    let claim = derive_claim(&encode_request(&inputs)).unwrap();
    assert_eq!(claim.statement, format!("{}\n{}", THEOREM, SOLUTION));
    assert_eq!(claim.outputs.sender, [0u8; 20]);
    assert_eq!(claim.outputs.solution_hash, commit(&SOLUTION.to_string()));
    let direct = claim_of(&inputs);
    assert_eq!(direct.statement, claim.statement);
}

#[test]
fn claim_of_empty_solution() {
    let inputs = Inputs { sender: [0u8; 20], theorem: THEOREM.to_string(), solution: String::new() };
    let claim = claim_of(&inputs);
    assert_eq!(claim.statement, format!("{}\n", THEOREM));
    assert_eq!(claim.outputs.solution_hash, commit(&String::new()));
}

#[test]
fn claim_of_garbage_is_rejected() {
    assert!(derive_claim(&[1, 2, 3]).is_err());
}
