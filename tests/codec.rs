use alloy_primitives::{Address, FixedBytes};
use alloy_sol_types::SolValue;
use lemma_relay::codec::{
    decode_journal, decode_request, encode_journal, encode_request, encode_response, DecodeError,
    Inputs, Outputs, Receipt,
};

fn word(n: u8) -> Vec<u8> {
    let mut w = vec![0u8; 32];
    w[31] = n;
    w
}

fn padded(text: &[u8]) -> Vec<u8> {
    let mut w = text.to_vec();
    while w.len() % 32 != 0 {
        w.push(0);
    }
    w
}

fn sample() -> Inputs {
    let mut sender = [0u8; 20];
    sender[0] = 0xaa;
    sender[19] = 0x01;
    Inputs { sender, theorem: "A".to_string(), solution: "B".to_string() }
}

#[test]
fn request_layout_is_the_abi_tuple() {
    let inputs = sample();
    let bytes = encode_request(&inputs);
    let mut expected = word(0x20);
    expected.extend_from_slice(&[0u8; 12]);
    expected.extend_from_slice(&inputs.sender);
    expected.extend(word(0x60));
    expected.extend(word(0xa0));
    expected.extend(word(1));
    expected.extend(padded(b"A"));
    expected.extend(word(1));
    expected.extend(padded(b"B"));
    assert_eq!(bytes.len(), 256);
    assert_eq!(bytes, expected);
}

#[test]
fn request_matches_alloy_tuple_encoding() {
    let inputs = Inputs {
        sender: [7u8; 20],
        theorem: "def and_comm (A B: Prop): (And A B) -> (And B A) := ".to_string(),
        solution: "fun (f: And A B) => f".to_string(),
    };
    let direct = (Address::from([7u8; 20]), inputs.theorem.clone(), inputs.solution.clone()).abi_encode();
    assert_eq!(encode_request(&inputs), direct);
}

#[test]
fn request_round_trip() {
    let inputs = Inputs {
        sender: [3u8; 20],
        theorem: "théorème ∀".to_string(),
        solution: "x".repeat(70),
    };
    let decoded = decode_request(&encode_request(&inputs)).unwrap();
    assert_eq!(decoded.sender, inputs.sender);
    assert_eq!(decoded.theorem, inputs.theorem);
    assert_eq!(decoded.solution, inputs.solution);
}

#[test]
fn request_round_trip_empty_texts() {
    let inputs = Inputs { sender: [0u8; 20], theorem: String::new(), solution: String::new() };
    let bytes = encode_request(&inputs);
    assert_eq!(bytes.len(), 192);
    let decoded = decode_request(&bytes).unwrap();
    assert_eq!(decoded.theorem, "");
    assert_eq!(decoded.solution, "");
}

#[test]
fn truncated_request_is_rejected() {
    let bytes = encode_request(&sample());
    assert_eq!(decode_request(&bytes[..bytes.len() - 1]).err(), Some(DecodeError::Malformed));
    assert_eq!(decode_request(&[]).err(), Some(DecodeError::Malformed));
}

#[test]
fn request_with_trailing_bytes_is_rejected() {
    let mut bytes = encode_request(&sample());
    bytes.extend(word(0));
    assert_eq!(decode_request(&bytes).err(), Some(DecodeError::Malformed));
}

#[test]
fn oversized_identity_is_rejected() {
    let mut bytes = encode_request(&sample());
    bytes[32] = 1;
    assert_eq!(decode_request(&bytes).err(), Some(DecodeError::Malformed));
}

#[test]
fn huge_length_word_is_rejected() {
    let mut bytes = encode_request(&sample());
    for b in &mut bytes[128..152] {
        *b = 0;
    }
    for b in &mut bytes[152..160] {
        *b = 0xff;
    }
    assert_eq!(decode_request(&bytes).err(), Some(DecodeError::Malformed));
    let mut bytes = encode_request(&sample());
    for b in &mut bytes[192..224] {
        *b = 0xff;
    }
    assert_eq!(decode_request(&bytes).err(), Some(DecodeError::Malformed));
}

#[test]
fn length_just_past_the_end_is_rejected() {
    let mut bytes = encode_request(&sample());
    bytes[159] = 0;
    bytes[158] = 1;
    assert_eq!(decode_request(&bytes).err(), Some(DecodeError::Malformed));
}

#[test]
fn huge_offsets_are_rejected() {
    let mut bytes = encode_request(&sample());
    for b in &mut bytes[24..32] {
        *b = 0xff;
    }
    assert_eq!(decode_request(&bytes).err(), Some(DecodeError::Malformed));
    let mut bytes = encode_request(&sample());
    for b in &mut bytes[88..96] {
        *b = 0xff;
    }
    assert_eq!(decode_request(&bytes).err(), Some(DecodeError::Malformed));
    let mut bytes = encode_request(&sample());
    for b in &mut bytes[120..128] {
        *b = 0xff;
    }
    assert_eq!(decode_request(&bytes).err(), Some(DecodeError::Malformed));
}

#[test]
fn request_with_invalid_utf8_is_rejected() {
    let mut bytes = encode_request(&sample());
    bytes[160] = 0xff;
    assert_eq!(decode_request(&bytes).err(), Some(DecodeError::Malformed));
}

#[test]
fn journal_layout_and_round_trip() {
    let outputs = Outputs { sender: [9u8; 20], solution_hash: [5u8; 32] };
    let bytes = encode_journal(&outputs);
    let mut expected = vec![0u8; 12];
    expected.extend_from_slice(&[9u8; 20]);
    expected.extend_from_slice(&[5u8; 32]);
    assert_eq!(bytes, expected);
    let direct = (Address::from([9u8; 20]), FixedBytes::<32>::from([5u8; 32])).abi_encode();
    assert_eq!(bytes, direct);
    let back = decode_journal(&bytes).unwrap();
    assert_eq!(back.sender, outputs.sender);
    assert_eq!(back.solution_hash, outputs.solution_hash);
}

#[test]
fn short_journal_is_rejected() {
    let bytes = encode_journal(&Outputs { sender: [1u8; 20], solution_hash: [2u8; 32] });
    assert_eq!(decode_journal(&bytes[..63]).err(), Some(DecodeError::Malformed));
}

#[test]
fn response_layout() {
    let receipt = Receipt { sender: [4u8; 20], solution_hash: [6u8; 32], artifact: vec![1, 2, 3] };
    let bytes = encode_response(&receipt);
    let mut expected = word(0x20);
    expected.extend_from_slice(&[0u8; 12]);
    expected.extend_from_slice(&[4u8; 20]);
    expected.extend_from_slice(&[6u8; 32]);
    expected.extend(word(0x60));
    expected.extend(word(3));
    expected.extend(padded(&[1, 2, 3]));
    assert_eq!(bytes, expected);
}

#[test]
fn distinct_receipts_encode_differently() {
    let a = Receipt { sender: [4u8; 20], solution_hash: [6u8; 32], artifact: vec![] };
    let b = Receipt { sender: [4u8; 20], solution_hash: [6u8; 32], artifact: vec![0] };
    let c = Receipt { sender: [4u8; 20], solution_hash: [7u8; 32], artifact: vec![] };
    assert_ne!(encode_response(&a), encode_response(&b));
    assert_ne!(encode_response(&a), encode_response(&c));
    assert_eq!(encode_response(&a), encode_response(&a));
}
