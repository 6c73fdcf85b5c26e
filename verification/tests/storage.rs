use blockchain_unleashed::blockchain::{calculate_hash, Block, Blockchain};
use blockchain_unleashed::contracts::{after_procedure, ContractStep};
use blockchain_unleashed::storage::{
    anchor_data, entry_file_name, sealed_record, AnchorFields, Keys, SavePlan, Storage, StorageEntry,
    StorageError,
};
use sha2::{Digest, Sha256};

fn sha_hex(text: &str) -> String {
    let mut hasher = Sha256::new();
    hasher.update(text.as_bytes());
    hex::encode(hasher.finalize())
}

/// The fields the caller reads from an anchor block's JSON data.
fn fields_of(block: &Block) -> AnchorFields {
    let value: serde_json::Value = serde_json::from_str(&block.data).unwrap();
    let object = value.as_object();
    AnchorFields {
        id: object.and_then(|o| o.get("id")).and_then(|v| v.as_u64()),
        hash: object.and_then(|o| o.get("hash")).and_then(|v| v.as_str()).map(|s| s.to_string()),
    }
}

fn storage() -> Storage {
    let (chain, _, _) = Blockchain::genesis_at("./test_blockchain3", 1000);
    Storage::new("./test_storage", chain, Keys::new("pub".to_string(), "priv".to_string()))
}

fn load(storage: &Storage, id: u64, plan: &SavePlan) -> serde_json::Value {
    let fields = fields_of(&plan.block);
    let entry = StorageEntry {
        data: plan.entry.data.clone(),
        encrypted: plan.entry.encrypted,
        timestamp: plan.entry.timestamp,
        block: plan.entry.block.clone(),
    };
    match storage.load_data(id, Some(entry), Some((&plan.block, &fields))) {
        Ok(Some(e)) => serde_json::from_str(&e.data).unwrap(),
        _ => panic!("record should load"),
    }
}

#[test]
fn test_storage_and_contracts() {
    let storage = storage();
    // A record saved now loads back unchanged.
    let record = "{\"message\":\"Hello, Blockchain!\",\"value\":42}".to_string();
    let plan = match storage.save_data(1, record.clone(), false) {
        Ok(p) => p,
        Err(_) => panic!("the clock should be readable"),
    };
    assert_eq!(plan.block.timestamp, plan.entry.timestamp);
    let loaded = load(&storage, 1, &plan);
    assert_eq!(loaded.to_string(), record);
    assert_eq!(loaded["value"].as_i64(), Some(42));

    // The contract doubles the value; its result is saved under the id it
    // was called with, and loads back as 84.
    let updated = format!(
        "{{\"message\":{},\"value\":{}}}",
        loaded["message"],
        loaded["value"].as_i64().unwrap() * 2
    );
    let step = after_procedure(true, Some(1));
    let id = match step {
        ContractStep::SaveResult(id) => id,
        _ => panic!("a successful procedure with an id saves its result"),
    };
    let plan2 = match storage.save_data(id, updated, false) {
        Ok(p) => p,
        Err(_) => panic!("the clock should be readable"),
    };
    let reloaded = load(&storage, id, &plan2);
    assert_eq!(reloaded["value"].as_i64(), Some(84));
    assert_eq!(reloaded["message"], "Hello, Blockchain!");
}

#[test]
fn contract_steps() {
    assert!(matches!(after_procedure(true, Some(7)), ContractStep::SaveResult(7)));
    assert!(matches!(after_procedure(true, None), ContractStep::ReturnResult));
    assert!(matches!(after_procedure(false, Some(7)), ContractStep::RecordFailure));
    assert!(matches!(after_procedure(false, None), ContractStep::RecordFailure));
}

#[test]
fn save_builds_anchor_block_and_entry() {
    let storage = storage();
    let record = "[1,2,3]".to_string();
    let plan = storage.save_data_at(100, record.clone(), false, 5000);
    let record_hash = sha_hex("{\"id\":\"100\",\"prev\":\"\",\"timestamp\":5000,\"data\":[1,2,3]}");
    assert_eq!(Storage::record_hash(100, "[1,2,3]", 5000), record_hash);
    assert_eq!(plan.block.data, format!("{{\"hash\":\"{}\",\"id\":100}}", record_hash));
    assert_eq!(plan.block.id, "1");
    assert_eq!(plan.block.prev, storage.chain.tail_hash());
    assert_eq!(plan.block.timestamp, 5000);
    assert_eq!(plan.block_id, 1);
    assert_eq!(plan.block_hash, calculate_hash(&plan.block));
    assert_eq!(plan.chain.tail_hash(), plan.block_hash);
    assert_eq!(plan.chain.next_id(), 2);
    // The store's own chain is left as it was.
    assert_eq!(storage.chain.next_id(), 1);
    assert_eq!(plan.entry.data, record);
    assert!(!plan.entry.encrypted);
    assert_eq!(plan.entry.timestamp, 5000);
    assert_eq!(plan.entry.block, plan.block_hash);
    // The anchor block's data is what serde_json writes for that object.
    let mut map = serde_json::Map::new();
    map.insert("id".to_string(), serde_json::Value::from(100u64));
    map.insert("hash".to_string(), serde_json::Value::String(record_hash.clone()));
    assert_eq!(serde_json::Value::Object(map).to_string(), plan.block.data);
}

#[test]
fn saved_record_validates_against_its_block() {
    let storage = storage();
    let plan = storage.save_data_at(7, "true".to_string(), false, 5000);
    let fields = fields_of(&plan.block);
    assert!(storage.validate(7, "true", Some((&plan.block, &fields))));
    // The same block checked for another time stamp fails.
    let mut moved = plan.block.clone();
    moved.timestamp = 5001;
    assert!(!storage.validate(7, "true", Some((&moved, &fields))));
}

#[test]
fn validation_failures() {
    let storage = storage();
    let plan = storage.save_data_at(3, "{\"a\":1}".to_string(), false, 10);
    let fields = fields_of(&plan.block);
    // No block could be read.
    assert!(!storage.validate(3, "{\"a\":1}", None));
    // Another id.
    assert!(!storage.validate(4, "{\"a\":1}", Some((&plan.block, &fields))));
    // Other data.
    assert!(!storage.validate(3, "{\"a\":2}", Some((&plan.block, &fields))));
    // Missing fields.
    let missing = AnchorFields { id: Some(3), hash: None };
    assert!(!storage.validate(3, "{\"a\":1}", Some((&plan.block, &missing))));
    let missing_id = AnchorFields { id: None, hash: fields.hash.clone() };
    assert!(!storage.validate(3, "{\"a\":1}", Some((&plan.block, &missing_id))));
    // The error for an invalid record names it.
    let entry = StorageEntry {
        data: "{\"a\":2}".to_string(),
        encrypted: false,
        timestamp: 10,
        block: plan.block_hash.clone(),
    };
    match storage.load_data(3, Some(entry), Some((&plan.block, &fields))) {
        Err(StorageError::InvalidRecord(id)) => assert_eq!(id, 3),
        _ => panic!("expected an invalid record"),
    }
    // No entry: nothing to load.
    assert!(matches!(storage.load_data(3, None, None), Ok(None)));
}

#[test]
fn names_and_encodings() {
    assert_eq!(entry_file_name(101), "101.json");
    assert_eq!(entry_file_name(0), "0.json");
    assert_eq!(sealed_record("ab\"c"), "\"ab\\\"c\"");
    assert_eq!(anchor_data(5, "h"), "{\"hash\":\"h\",\"id\":5}");
    assert_eq!(anchor_data(u64::MAX, ""), "{\"hash\":\"\",\"id\":18446744073709551615}");
}

#[test]
fn storage_accessors_and_clone() {
    let s = storage();
    assert_eq!(s.base_path(), "./test_storage");
    assert_eq!(s.keys().public_key, "pub");
    assert_eq!(s.keys().private_key, "priv");
    let c = s.clone();
    assert_eq!(c.base_path(), "./test_storage");
    assert_eq!(c.chain.tail_hash(), s.chain.tail_hash());
}

#[test]
fn anchor_data_reads_back_as_its_fields() {
    for (id, hash) in [(0u64, "abc"), (42, "q\"\\\n"), (u64::MAX, "")] {
        let text = anchor_data(id, hash);
        let b = Block { id: "1".to_string(), prev: "p".to_string(), timestamp: 0, data: text };
        let f = fields_of(&b);
        assert_eq!(f.id, Some(id));
        assert_eq!(f.hash.as_deref(), Some(hash));
    }
}

#[test]
fn saves_append_at_the_same_place() {
    let storage = storage();
    let p1 = storage.save_data_at(1, "1".to_string(), false, 10);
    let p2 = storage.save_data_at(2, "[2]".to_string(), false, 20);
    assert_eq!(p1.block_id, p2.block_id);
    assert_eq!(p1.block.id, p2.block.id);
    assert_eq!(p1.block.prev, p2.block.prev);
    assert_eq!(p1.block.prev, storage.chain().tail_hash());
    assert_eq!(p1.chain.next_id(), 2);
    assert_eq!(p2.chain.next_id(), 2);
    assert_eq!(storage.chain().next_id(), 1);
}
