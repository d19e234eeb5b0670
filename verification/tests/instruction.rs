use starknet_apdu_generator::apdu::ApduHeader;
use starknet_apdu_generator::builder::ApduError;
use starknet_apdu_generator::instruction::{
    call_apdus, get_pubkey_apdus, get_version_apdus, sign_hash_apdus, sign_tx_apdus,
};
use starknet_apdu_generator::types::{Call, Tx};

const PATH: &str = "m/2645'/1195502025'/1148870696'/0'/0'/0";
const SENDER: &str = "0x07e00d496e324876bbc8531f2d9a82bf154d1a04a50218ee74cdd372f75a551a";
const TOKEN: &str = "0x049d36570d4e46f48e99674bd3fcc84644ddd6b96f7c741b1562b82f9e004dc7";

fn transfer(calldata: Vec<String>) -> Call {
    Call {
        to: String::from(TOKEN),
        entrypoint: String::from("transfer"),
        selector: String::from(
            "0x83afd3f4caedc6eebf44246fe54e38c95e3179a5ec9ea81740eca5b482d12e",
        ),
        calldata,
    }
}

fn transaction(calls: Vec<Call>) -> Tx {
    Tx {
        sender_address: String::from(SENDER),
        max_fee: String::from("1000000000000000"),
        nonce: String::from("1"),
        version: String::from("1"),
        chain_id: String::from("534e5f474f45524c49"),
        calls,
    }
}

fn numbers(n: usize) -> Vec<String> {
    (0..n).map(|i| format!("{}", i)).collect()
}

#[test]
fn version_is_one_empty_frame() {
    let apdus = get_version_apdus(0x80);
    assert_eq!(apdus.len(), 1);
    assert_eq!(apdus[0].header, ApduHeader { cla: 0x80, ins: 0, p1: 0, p2: 0 });
    assert_eq!(apdus[0].len, 0);
    assert_eq!(apdus[0].to_string(), "8000000000");
}

#[test]
fn public_key_is_one_frame_with_the_path() {
    let apdus = get_pubkey_apdus(PATH, 0x80).unwrap();
    assert_eq!(apdus.len(), 1);
    assert_eq!(
        apdus[0].to_string(),
        "800100001880000a55c741e9c9c47a6028800000008000000000000000"
    );
    assert_eq!(get_pubkey_apdus("m/x", 0x80).err(), Some(ApduError::InvalidPathSegment));
    let apdus = get_pubkey_apdus("no path", 0x80).unwrap();
    assert_eq!(apdus[0].to_string(), "8001000000");
}

#[test]
fn public_key_of_a_path_that_overflows_fails_the_builder() {
    let mut path = String::from("m");
    for i in 0..64 {
        path.push_str(&format!("/{}'", i));
    }
    assert_eq!(get_pubkey_apdus(&path, 0x80).err(), Some(ApduError::InternalError));
}

#[test]
fn sign_hash_is_path_then_hash() {
    let hash = "0x55b8f28706a5008d3103bcb2bfa6356e56b95c34fed265c955846670a6bb4ef";
    let apdus = sign_hash_apdus(PATH, hash, 0x80, true).unwrap();
    assert_eq!(apdus.len(), 2);
    assert_eq!(
        apdus[0].to_string(),
        "800200001880000a55c741e9c9c47a6028800000008000000000000000"
    );
    assert_eq!(
        apdus[1].to_string(),
        "800201012055b8f28706a5008d3103bcb2bfa6356e56b95c34fed265c955846670a6bb4ef0"
    );
    let apdus = sign_hash_apdus(PATH, hash, 0x80, false).unwrap();
    assert_eq!(apdus[0].header, ApduHeader { cla: 0x80, ins: 2, p1: 0, p2: 0 });
    assert_eq!(apdus[1].header, ApduHeader { cla: 0x80, ins: 2, p1: 1, p2: 0 });
}

#[test]
fn sign_hash_fails_on_path_or_hash() {
    let hash = "55b8f28706a5008d3103bcb2bfa6356e56b95c34fed265c955846670a6bb4ef";
    assert_eq!(
        sign_hash_apdus("m/1/a", hash, 0x80, true).err(),
        Some(ApduError::InvalidPathSegment)
    );
    assert_eq!(
        sign_hash_apdus(PATH, &format!("{}0", hash), 0x80, true).err(),
        Some(ApduError::HashShapeInvariantViolation)
    );
    assert_eq!(
        sign_hash_apdus(PATH, "hash", 0x80, true).err(),
        Some(ApduError::MalformedNumber)
    );
    assert_eq!(
        sign_hash_apdus("m/q", "hash", 0x80, true).err(),
        Some(ApduError::InvalidPathSegment)
    );
}

#[test]
fn sign_transaction_end_to_end() {
    let tx = transaction(vec![transfer(vec![String::from(SENDER), String::from("1000")])]);
    let apdus = sign_tx_apdus(PATH, &tx, 0x80).unwrap();
    let texts: Vec<String> = apdus.iter().map(|a| a.to_string()).collect();
    assert_eq!(
        texts,
        vec![
            "800300001880000a55c741e9c9c47a6028800000008000000000000000",
            "800303004000000000000000000000000000000000000000000000000000000000000000010000000000000000000000000000000000000000000000000000000000000002",
            "8003040069049d36570d4e46f48e99674bd3fcc84644ddd6b96f7c741b1562b82f9e004dc7087472616e7366657200000000000000000000000000000000000000000000000000000000000000000000000000000000000000000000000000000000000000000000000000000002",
            "800302004007e00d496e324876bbc8531f2d9a82bf154d1a04a50218ee74cdd372f75a551a00000000000000000000000000000000000000000000000000000000000003e8",
            "80030100a007e00d496e324876bbc8531f2d9a82bf154d1a04a50218ee74cdd372f75a551a00000000000000000000000000000000000000000000000000038d7ea4c680000000000000000000000000000000000000000000000000534e5f474f45524c4900000000000000000000000000000000000000000000000000000000000000010000000000000000000000000000000000000000000000000000000000000001",
        ]
    );
}

#[test]
fn sign_transaction_without_calls() {
    let apdus = sign_tx_apdus(PATH, &transaction(vec![]), 0x80).unwrap();
    assert_eq!(apdus.len(), 3);
    let roles: Vec<u8> = apdus.iter().map(|a| a.header.p1).collect();
    assert_eq!(roles, vec![0, 3, 1]);
    assert_eq!(apdus[1].len, 64);
    assert!(apdus[1].data.iter().all(|b| *b == 0));
}

#[test]
fn sign_transaction_keeps_the_order_of_the_calls() {
    let mut first = transfer(numbers(9));
    first.entrypoint = String::from("first");
    let mut second = transfer(numbers(0));
    second.entrypoint = String::from("second");
    let mut third = transfer(numbers(3));
    third.entrypoint = String::from("third");
    let tx = transaction(vec![first, second, third]);
    let apdus = sign_tx_apdus(PATH, &tx, 0xe0).unwrap();
    let heads: Vec<(u8, u8)> = apdus.iter().map(|a| (a.header.p1, a.header.p2)).collect();
    assert_eq!(
        heads,
        vec![(0, 0), (3, 0), (4, 0), (2, 0), (2, 1), (4, 1), (4, 2), (2, 0), (1, 0)]
    );
    assert!(apdus.iter().all(|a| a.header.cla == 0xe0 && a.header.ins == 3));
    assert_eq!(apdus[1].data[31], 3);
    assert_eq!(apdus[1].data[63], 12);
    assert_eq!(&apdus[2].data[33..38], b"first");
    assert_eq!(apdus[2].data[32 + 1 + 5 + 31], 0);
    assert_eq!(apdus[2].data[32 + 1 + 5 + 63], 9);
    assert_eq!(&apdus[5].data[33..39], b"second");
    assert_eq!(apdus[5].data[32 + 1 + 6 + 31], 9);
    assert_eq!(apdus[5].data[32 + 1 + 6 + 63], 0);
    assert_eq!(&apdus[6].data[33..38], b"third");
    assert_eq!(apdus[6].data[32 + 1 + 5 + 31], 9);
    assert_eq!(apdus[6].data[32 + 1 + 5 + 63], 3);
    assert_eq!(apdus[3].len, 224);
    assert_eq!(apdus[4].len, 64);
    assert_eq!(apdus[7].len, 96);
}

#[test]
fn sign_transaction_reports_the_first_failure() {
    let good = transfer(numbers(2));
    let mut bad_target = transfer(numbers(2));
    bad_target.to = String::from("token");
    let mut long_name = transfer(numbers(2));
    long_name.entrypoint = "e".repeat(159);
    let bad_argument = transfer(vec![String::from("1"), String::from("one")]);

    let tx = transaction(vec![good.clone(), bad_target.clone(), long_name.clone()]);
    assert_eq!(sign_tx_apdus(PATH, &tx, 0x80).err(), Some(ApduError::MalformedNumber));
    let tx = transaction(vec![good.clone(), long_name.clone(), bad_target.clone()]);
    assert_eq!(sign_tx_apdus(PATH, &tx, 0x80).err(), Some(ApduError::InternalError));
    let tx = transaction(vec![bad_argument.clone(), long_name.clone()]);
    assert_eq!(sign_tx_apdus(PATH, &tx, 0x80).err(), Some(ApduError::MalformedNumber));
    let tx = transaction(vec![long_name.clone()]);
    assert_eq!(sign_tx_apdus("m/bad", &tx, 0x80).err(), Some(ApduError::InvalidPathSegment));
    let mut tx = transaction(vec![good.clone()]);
    tx.max_fee = String::from("0x10");
    assert_eq!(sign_tx_apdus(PATH, &tx, 0x80).err(), Some(ApduError::MalformedNumber));
    let mut tx = transaction(vec![long_name]);
    tx.max_fee = String::from("0x10");
    assert_eq!(sign_tx_apdus(PATH, &tx, 0x80).err(), Some(ApduError::InternalError));
}

#[test]
fn sign_transaction_takes_256_calls() {
    let calls: Vec<Call> = (0..256).map(|_| transfer(numbers(1))).collect();
    let apdus = sign_tx_apdus(PATH, &transaction(calls), 0x80).unwrap();
    assert_eq!(apdus.len(), 2 + 2 * 256 + 1);
    assert_eq!(apdus[2 + 2 * 255].header, ApduHeader { cla: 0x80, ins: 3, p1: 4, p2: 255 });
    assert_eq!(apdus[2 + 2 * 255].data[32 + 1 + 8 + 31], 255);
    let calls: Vec<Call> = (0..257).map(|_| transfer(numbers(1))).collect();
    assert_eq!(
        sign_tx_apdus(PATH, &transaction(calls), 0x80).err(),
        Some(ApduError::InternalError)
    );
}

#[test]
fn frames_of_one_call() {
    let apdus = call_apdus(&transfer(numbers(8)), 5, 40, 0x80).unwrap();
    assert_eq!(apdus.len(), 3);
    assert_eq!(apdus[0].header, ApduHeader { cla: 0x80, ins: 3, p1: 4, p2: 5 });
    assert_eq!(apdus[0].data[32 + 1 + 8 + 31], 40);
    assert_eq!(apdus[0].data[32 + 1 + 8 + 63], 8);
    assert_eq!(apdus[1].header, ApduHeader { cla: 0x80, ins: 3, p1: 2, p2: 0 });
    assert_eq!(apdus[2].header, ApduHeader { cla: 0x80, ins: 3, p1: 2, p2: 1 });
    assert_eq!(
        call_apdus(&transfer(numbers(8)), 256, 40, 0x80).err(),
        Some(ApduError::InternalError)
    );
}
