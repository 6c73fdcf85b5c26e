use blockchain_unleashed::blockchain::{
    now_timestamp, timestamp_from_secs, block_file_name, block_json, calculate_hash, Block, Blockchain, ChainCheck, ChainInfo, CheckStep,
};
use sha2::{Digest, Sha256};
use std::collections::HashMap;

fn sha_hex(text: &str) -> String {
    let mut hasher = Sha256::new();
    hasher.update(text.as_bytes());
    hex::encode(hasher.finalize())
}

fn block(id: &str, prev: &str, timestamp: i64, data: &str) -> Block {
    Block {
        id: id.to_string(),
        prev: prev.to_string(),
        timestamp,
        data: data.to_string(),
    }
}

/// Runs the check over a store of blocks by hash, as the caller's loop does.
fn run(check: &mut ChainCheck, store: &HashMap<String, Block>) -> Option<bool> {
    loop {
        match check.next_step() {
            CheckStep::Finished(v) => return Some(v),
            CheckStep::Fetch(h) => {
                let b = store.get(&h)?;
                let verdict = check.accept(b);
                if let Some(v) = verdict.outcome {
                    return Some(v);
                }
            }
        }
    }
}

#[test]
fn test_blockchain_basic_functionality() {
    // A new chain starts with its first block and passes the check.
    let (chain, first) = Blockchain::new("./test_blockchain", None).ok().unwrap();
    let (genesis, hash) = first.unwrap();
    assert_eq!(chain.tail_hash(), hash);
    let mut store = HashMap::new();
    store.insert(hash.clone(), genesis);
    assert_eq!(run(&mut chain.start_check(None), &store), Some(true));

    // Adding a block gives it id 1.
    let (mut chain, genesis, ghash) = Blockchain::genesis_at("./test_blockchain2", 1_700_000_000);
    let mut store = HashMap::new();
    store.insert(ghash.clone(), genesis);
    let before = chain.tail_hash().to_string();
    let (id, hash, b) = chain.add_block("{\"test\":\"data\"}".to_string()).ok().unwrap();
    assert_eq!(id, 1);
    assert!(!hash.is_empty());
    store.insert(hash.clone(), b);

    // Reading the block back by its hash gives the block with id "1".
    let read = store.get(&hash).unwrap();
    assert_eq!(read.id, "1");
    assert_eq!(read.prev, ghash);
    assert_eq!(before, ghash);
    assert_eq!(chain.tail_hash(), hash);
    assert_eq!(chain.next_id(), 2);
    assert_eq!(run(&mut chain.start_check(None), &store), Some(true));
    assert_eq!(calculate_hash(read), hash);
}

#[test]
fn block_json_matches_serde_layout() {
    let b = block("1", "abc", 5, "{\"test\":\"data\"}");
    assert_eq!(
        block_json(&b),
        "{\"id\":\"1\",\"prev\":\"abc\",\"timestamp\":5,\"data\":{\"test\":\"data\"}}"
    );
    let neg = block("q\"\\\n\u{1}", "", -42, "null");
    assert_eq!(
        block_json(&neg),
        "{\"id\":\"q\\\"\\\\\\n\\u0001\",\"prev\":\"\",\"timestamp\":-42,\"data\":null}"
    );
    let min = block("0", "0", i64::MIN, "{}");
    assert_eq!(
        block_json(&min),
        "{\"id\":\"0\",\"prev\":\"0\",\"timestamp\":-9223372036854775808,\"data\":{}}"
    );
}

#[test]
fn calculate_hash_is_hex_sha256_of_json() {
    let b = block("1", "abc", 5, "{\"test\":\"data\"}");
    let expected = sha_hex("{\"id\":\"1\",\"prev\":\"abc\",\"timestamp\":5,\"data\":{\"test\":\"data\"}}");
    let h = calculate_hash(&b);
    assert_eq!(h, expected);
    assert_eq!(h.len(), 64);
    assert!(h.chars().all(|c| c.is_ascii_hexdigit() && !c.is_ascii_uppercase()));
    // Another block: a different hash.
    let b2 = block("2", "abc", 5, "{\"test\":\"data\"}");
    assert_ne!(calculate_hash(&b2), h);
}

#[test]
fn genesis_block_and_state() {
    let (chain, b, h) = Blockchain::genesis_at("dir", 1234);
    assert_eq!(b.id, "0");
    assert_eq!(b.prev, "0");
    assert_eq!(b.timestamp, 1234);
    assert_eq!(b.data, "{}");
    assert_eq!(h, sha_hex("{\"id\":\"0\",\"prev\":\"0\",\"timestamp\":1234,\"data\":{}}"));
    assert_eq!(chain.tail_hash(), h);
    assert_eq!(chain.next_id(), 1);
    assert_eq!(chain.path(), "dir");
    let info = chain.info();
    assert_eq!(info.tail_hash, h);
    assert_eq!(info.next_id, 1);
}

#[test]
fn new_continues_from_chain_file() {
    let info = ChainInfo { tail_hash: "abcd".to_string(), next_id: 7 };
    let (chain, first) = Blockchain::new("dir", Some(info)).ok().unwrap();
    assert!(first.is_none());
    assert_eq!(chain.tail_hash(), "abcd");
    assert_eq!(chain.next_id(), 7);
    assert_eq!(chain.path(), "dir");
}

#[test]
fn add_block_links_to_tail() {
    let (mut chain, _, g) = Blockchain::genesis_at("dir", 10);
    let (id1, h1, b1) = chain.add_block_at("[1,2]".to_string(), 11);
    assert_eq!(id1, 1);
    assert_eq!(b1.id, "1");
    assert_eq!(b1.prev, g);
    assert_eq!(b1.timestamp, 11);
    assert_eq!(b1.data, "[1,2]");
    assert_eq!(h1, calculate_hash(&b1));
    assert_eq!(chain.tail_hash(), h1);
    assert_eq!(chain.next_id(), 2);
    let (id2, h2, b2) = chain.add_block_at("\"x\"".to_string(), 12);
    assert_eq!(id2, 2);
    assert_eq!(b2.id, "2");
    assert_eq!(b2.prev, h1);
    assert_eq!(chain.tail_hash(), h2);
    assert_eq!(chain.next_id(), 3);
}

#[test]
fn block_file_name_appends_json() {
    assert_eq!(block_file_name("abc"), "abc.json");
    assert_eq!(block_file_name(""), ".json");
}

fn build_chain(n: usize) -> (Blockchain, HashMap<String, Block>, Vec<String>) {
    let (mut chain, g, gh) = Blockchain::genesis_at("dir", 100);
    let mut store = HashMap::new();
    let mut hashes = vec![gh.clone()];
    store.insert(gh, g);
    for i in 0..n {
        let (_, h, b) = chain.add_block_at(format!("{{\"n\":{}}}", i), 101 + i as i64);
        store.insert(h.clone(), b);
        hashes.push(h);
    }
    (chain, store, hashes)
}

#[test]
fn stored_chain_passes_check() {
    let (chain, store, _) = build_chain(5);
    assert_eq!(run(&mut chain.start_check(None), &store), Some(true));
    let mut check = chain.start_check(None);
    assert_eq!(run(&mut check, &store), Some(true));
    assert_eq!(check.count(), 6);
    let mut limited = chain.start_check(Some(3));
    assert_eq!(run(&mut limited, &store), Some(true));
    assert_eq!(limited.count(), 3);
    // A limit of 0 still checks one block.
    let mut zero = chain.start_check(Some(0));
    assert_eq!(run(&mut zero, &store), Some(true));
    assert_eq!(zero.count(), 1);
}

#[test]
fn tampered_chain_fails_check() {
    let (chain, mut store, hashes) = build_chain(5);
    let victim = hashes[2].clone();
    let mut b = store.get(&victim).unwrap().clone();
    b.data = "{\"n\":999}".to_string();
    store.insert(victim.clone(), b);
    let mut check = chain.start_check(None);
    assert_eq!(run(&mut check, &store), Some(false));
    // Blocks 5, 4, 3 were accepted before block 2 failed.
    assert_eq!(check.count(), 3);
    // A limit that stops above the tampered block still passes.
    assert_eq!(run(&mut chain.start_check(Some(2)), &store), Some(true));
}

#[test]
fn check_verdict_reports_hashes() {
    let (chain, store, hashes) = build_chain(1);
    let mut check = chain.start_check(None);
    match check.next_step() {
        CheckStep::Fetch(h) => assert_eq!(h, hashes[1]),
        CheckStep::Finished(_) => panic!("expected a fetch"),
    }
    let v = check.accept(store.get(&hashes[1]).unwrap());
    assert!(v.valid);
    assert_eq!(v.expected_hash, hashes[1]);
    assert_eq!(v.outcome, None);
    let v0 = check.accept(store.get(&hashes[0]).unwrap());
    assert!(v0.valid);
    assert_eq!(v0.outcome, Some(true));
    // A wrong block for a hash is reported with its own hash.
    let mut check2 = chain.start_check(None);
    let wrong = store.get(&hashes[0]).unwrap();
    let v2 = check2.accept(wrong);
    assert!(!v2.valid);
    assert_eq!(v2.expected_hash, hashes[0]);
    assert_eq!(v2.outcome, Some(false));
    assert_eq!(check2.count(), 0);
}

#[test]
fn empty_or_root_tail_needs_nothing() {
    let (chain, _) = Blockchain::new("d", Some(ChainInfo { tail_hash: String::new(), next_id: 0 })).ok().unwrap();
    assert!(matches!(chain.start_check(None).next_step(), CheckStep::Finished(true)));
    let (chain, _) = Blockchain::new("d", Some(ChainInfo { tail_hash: "0".to_string(), next_id: 1 })).ok().unwrap();
    assert!(matches!(chain.start_check(None).next_step(), CheckStep::Finished(true)));
    let (chain, _) = Blockchain::new("d", Some(ChainInfo { tail_hash: "00".to_string(), next_id: 1 })).ok().unwrap();
    assert!(matches!(chain.start_check(None).next_step(), CheckStep::Fetch(_)));
}

#[test]
fn check_monotonic_in_limit() {
    let (chain, mut store, hashes) = build_chain(6);
    // Tamper with the block at position 2: limits that stop before it
    // succeed, larger ones and no limit fail.
    let mut b = store.get(&hashes[2]).unwrap().clone();
    b.timestamp += 1;
    store.insert(hashes[2].clone(), b);
    let results: Vec<Option<bool>> =
        (0..10).map(|l| run(&mut chain.start_check(Some(l)), &store)).collect();
    assert_eq!(results[0..5], [Some(true); 5]);
    assert_eq!(results[5..10], [Some(false); 5]);
    assert_eq!(run(&mut chain.start_check(None), &store), Some(false));
}

#[test]
fn append_keeps_passing_chain_passing() {
    let (mut chain, mut store, _) = build_chain(2);
    assert_eq!(run(&mut chain.start_check(None), &store), Some(true));
    for i in 0..3 {
        let (_, h, b) = chain.add_block_at(format!("[{}]", i), 500 + i);
        store.insert(h, b);
        assert_eq!(run(&mut chain.start_check(None), &store), Some(true));
    }
}

#[test]
fn hashes_are_lowercase_hex() {
    let (_, _, h) = Blockchain::genesis_at("x", -5);
    assert_eq!(h.len(), 64);
    assert!(h.chars().all(|c| matches!(c, '0'..='9' | 'a'..='f')));
}

#[test]
fn clock_readings_as_timestamps() {
    assert!(matches!(timestamp_from_secs(Some(1_700_000_000)), Ok(1_700_000_000)));
    assert!(matches!(timestamp_from_secs(Some(i64::MAX as u64)), Ok(i64::MAX)));
    assert!(timestamp_from_secs(Some(i64::MAX as u64 + 1)).is_err());
    assert!(timestamp_from_secs(None).is_err());
    match now_timestamp() {
        Ok(t) => assert!(t > 1_600_000_000),
        Err(_) => panic!("the clock should be readable"),
    }
}

#[test]
fn consecutive_appends_chain_ids_and_hashes() {
    let (mut chain, _, _) = Blockchain::genesis_at("dir", 1);
    let (n, h1, _) = chain.add_block("1".to_string()).ok().unwrap();
    let (id2, h2, b2) = chain.add_block("2".to_string()).ok().unwrap();
    assert_eq!(id2, n + 1);
    assert_eq!(b2.id, (n + 1).to_string());
    assert_eq!(b2.prev, h1);
    assert_eq!(chain.tail_hash(), h2);
}
