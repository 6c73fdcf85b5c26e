//! Records kept beside the chain: each saved record is anchored by a block
//! that names the record's id and the hash of the record's own block text,
//! and a record is only given back when that anchor still matches.

use vstd::prelude::*;

use crate::blockchain::{
    after_append, block_hash, calculate_hash, hash_shaped, next_block, now_timestamp, Block, ClockError,
    BlockView, Blockchain, ChainState,
};
use crate::digest::{json_quote, json_quote_text, json_string_value, lemma_json_quote_reads_back};
use crate::text::{
    decimal, digits_value, is_numeral, lemma_decimal_reads_back, push_char, write_decimal,
};

verus! {

/// A key pair in PEM text.
pub struct Keys {
    pub public_key: String,
    pub private_key: String,
}

impl Keys {
    pub fn new(public_key: String, private_key: String) -> (r: Keys)
        ensures
            r.public_key@ == public_key@,
            r.private_key@ == private_key@,
    {
        Keys { public_key, private_key }
    }
}

impl Clone for Keys {
    fn clone(&self) -> (r: Self)
        ensures
            r.public_key@ == self.public_key@,
            r.private_key@ == self.private_key@,
    {
        Keys { public_key: self.public_key.clone(), private_key: self.private_key.clone() }
    }
}

/// What the record file of one id holds: the record as JSON text (for an
/// encrypted record, a JSON string with the ciphertext), whether it is
/// encrypted, when it was saved and the hash of the block that anchors it.
pub struct StorageEntry {
    pub data: String,
    pub encrypted: bool,
    pub timestamp: i64,
    pub block: String,
}

/// What an anchor block's data holds, read as a JSON object: its field
/// `id` as an unsigned integer and its field `hash` as a string (each
/// `None` when absent, of another kind, or when the data is no object).
pub struct AnchorFields {
    pub id: Option<u64>,
    pub hash: Option<String>,
}

/// A record store: the directory of its record files, the keys that
/// encrypted records use, and the chain its anchors are written to.
pub struct Storage {
    base_path: String,
    keys: Keys,
    pub chain: Blockchain,
}

/// The mathematical value of a record store.
pub struct StorageState {
    pub base_path: Seq<char>,
    pub public_key: Seq<char>,
    pub private_key: Seq<char>,
    pub chain: ChainState,
}

impl View for Storage {
    type V = StorageState;

    closed spec fn view(&self) -> StorageState {
        StorageState {
            base_path: self.base_path@,
            public_key: self.keys.public_key@,
            private_key: self.keys.private_key@,
            chain: self.chain@,
        }
    }
}

impl Clone for Storage {
    fn clone(&self) -> (r: Self)
        ensures
            r@ == self@,
    {
        Storage {
            base_path: self.base_path.clone(),
            keys: self.keys.clone(),
            chain: self.chain.clone(),
        }
    }
}

/// Everything one save produces: the chain state after the anchor block
/// was appended (to be recorded in the chain file), the anchor block with
/// its id and hash (to be stored under that hash), and the record entry.
pub struct SavePlan {
    pub chain: Blockchain,
    pub block_id: u64,
    pub block_hash: String,
    pub block: Block,
    pub entry: StorageEntry,
}

/// The block text whose hash identifies a record: the record's id, an
/// empty prev, the time and the record.
pub open spec fn record_block(id: u64, data: Seq<char>, timestamp: i64) -> BlockView {
    BlockView { id: decimal(id as nat), prev: Seq::empty(), timestamp, data }
}

/// The data of the block that anchors a record: the JSON object
/// `{"hash":<hash>,"id":<id>}` (keys in sorted order).
pub open spec fn anchor_json(id: u64, hash: Seq<char>) -> Seq<char> {
    seq!['{', '"', 'h', 'a', 's', 'h', '"', ':'] + json_quote(hash) + seq![',', '"', 'i', 'd', '"', ':']
        + decimal(id as nat) + seq!['}']
}

/// The name of the record file of `id`: its decimal id followed by `.json`.
pub open spec fn spec_entry_file_name(id: u64) -> Seq<char> {
    decimal(id as nat) + seq!['.', 'j', 's', 'o', 'n']
}

/// Whether a record with `id` and `data` is anchored by what was fetched
/// for its anchor hash: the block (or nothing, when it could not be read)
/// and that block's anchor fields. The block must name `id` and the hash of
/// the record's block text made at the block's own time.
pub open spec fn anchored(
    id: u64,
    data: Seq<char>,
    fetched: Option<(BlockView, Option<u64>, Option<Seq<char>>)>,
) -> bool {
    match fetched {
        None => false,
        Some((b, field_id, field_hash)) => field_id == Some(id) && field_hash == Some(
            block_hash(record_block(id, data, b.timestamp)),
        ),
    }
}

/// The view of what was fetched for an anchor hash.
pub open spec fn fetched_view(fetched: Option<(&Block, &AnchorFields)>) -> Option<
    (BlockView, Option<u64>, Option<Seq<char>>),
> {
    match fetched {
        None => None,
        Some((b, f)) => Some(
            (
                b@,
                f.id,
                match f.hash {
                    None => None,
                    Some(h) => Some(h@),
                },
            ),
        ),
    }
}

/// The result of loading a record.
pub enum StorageError {
    /// The record's anchor does not match it.
    InvalidRecord(u64),
}

/// What a save of record `id` with `record` at `timestamp` produces from a
/// chain in state `chain`: the anchor block the chain appends (the chain's
/// next id, its tail as prev, the anchor data naming `id` and the record
/// hash), that block's hash, the chain after the append, and the entry.
pub open spec fn saved_as(
    chain: ChainState,
    id: u64,
    record: Seq<char>,
    encrypted: bool,
    timestamp: i64,
    r: SavePlan,
) -> bool {
    &&& r.block_id == chain.next_id
    &&& r.block@ == next_block(
        chain,
        anchor_json(id, block_hash(record_block(id, record, timestamp))),
        timestamp,
    )
    &&& r.block_hash@ == block_hash(r.block@)
    &&& hash_shaped(r.block_hash@)
    &&& r.chain@ == after_append(chain, r.block_hash@)
    &&& r.entry.data@ == record
    &&& r.entry.encrypted == encrypted
    &&& r.entry.timestamp == timestamp
    &&& r.entry.block@ == r.block_hash@
}

/// The name of the record file of `id`.
pub fn entry_file_name(id: u64) -> (r: String)
    ensures
        r@ == spec_entry_file_name(id),
{
    let mut s = String::new();
    write_decimal(&mut s, id);
    push_char(&mut s, '.');
    push_char(&mut s, 'j');
    push_char(&mut s, 's');
    push_char(&mut s, 'o');
    push_char(&mut s, 'n');
    assert(s@ =~= spec_entry_file_name(id));
    s
}

/// The JSON text of an encrypted record: the ciphertext as a JSON string.
pub fn sealed_record(ciphertext: &str) -> (r: String)
    ensures
        r@ == json_quote(ciphertext@),
{
    json_quote_text(ciphertext)
}

/// The data of the block that anchors record `id` with record hash `hash`.
pub fn anchor_data(id: u64, hash: &str) -> (r: String)
    ensures
        r@ == anchor_json(id, hash@),
{
    let mut s = String::new();
    push_char(&mut s, '{');
    push_char(&mut s, '"');
    push_char(&mut s, 'h');
    push_char(&mut s, 'a');
    push_char(&mut s, 's');
    push_char(&mut s, 'h');
    push_char(&mut s, '"');
    push_char(&mut s, ':');
    let quoted = json_quote_text(hash);
    s.append(quoted.as_str());
    push_char(&mut s, ',');
    push_char(&mut s, '"');
    push_char(&mut s, 'i');
    push_char(&mut s, 'd');
    push_char(&mut s, '"');
    push_char(&mut s, ':');
    write_decimal(&mut s, id);
    push_char(&mut s, '}');
    assert(s@ =~= anchor_json(id, hash@));
    s
}

impl Storage {
    /// A record store under `base_path` that anchors its records in `chain`.
    pub fn new(base_path: &str, chain: Blockchain, keys: Keys) -> (r: Storage)
        ensures
            r@ == (StorageState {
                base_path: base_path@,
                public_key: keys.public_key@,
                private_key: keys.private_key@,
                chain: chain@,
            }),
    {
        Storage { base_path: String::from_str(base_path), keys, chain }
    }

    /// The directory of the record files.
    pub fn base_path(&self) -> (r: &str)
        ensures
            r@ == self@.base_path,
    {
        self.base_path.as_str()
    }

    /// The chain the store anchors its records in.
    pub fn chain(&self) -> (r: &Blockchain)
        ensures
            r@ == self@.chain,
    {
        &self.chain
    }

    /// The store's keys.
    pub fn keys(&self) -> (r: &Keys)
        ensures
            r.public_key@ == self@.public_key,
            r.private_key@ == self@.private_key,
    {
        &self.keys
    }

    /// The hash of the block text that identifies record `id` with `data`
    /// at `timestamp`.
    pub fn record_hash(id: u64, data: &str, timestamp: i64) -> (r: String)
        ensures
            r@ == block_hash(record_block(id, data@, timestamp)),
            hash_shaped(r@),
    {
        let block = Block {
            id: crate::text::u64_to_decimal(id),
            prev: String::new(),
            timestamp,
            data: String::from_str(data),
        };
        assert(block@ == record_block(id, data@, timestamp));
        calculate_hash(&block)
    }

    /// Saves record `id` with JSON text `record` at `timestamp`: a copy of
    /// the store's chain appends, at the same time, the block that anchors
    /// the record (its id and record hash); the store's own chain is left as
    /// it was. The anchor block, read back with the fields its data names,
    /// validates the record.
    pub fn save_data_at(&self, id: u64, record: String, encrypted: bool, timestamp: i64) -> (r:
        SavePlan)
        requires
            self@.chain.next_id < u64::MAX,
        ensures
            saved_as(self@.chain, id, record@, encrypted, timestamp, r),
            r.block.timestamp == r.entry.timestamp,
            anchored(
                id,
                r.entry.data@,
                Some((r.block@, Some(id), Some(block_hash(record_block(id, record@, timestamp))))),
            ),
    {
        let hash = Storage::record_hash(id, record.as_str(), timestamp);
        let mut chain = self.chain.clone();
        let anchor = anchor_data(id, hash.as_str());
        let (block_id, block_hash, block) = chain.add_block_at(anchor, timestamp);
        let entry = StorageEntry { data: record, encrypted, timestamp, block: block_hash.clone() };
        SavePlan { chain, block_id, block_hash, block, entry }
    }

    /// Saves record `id` now: as `save_data_at` with one reading of the
    /// clock, which stamps both the record and its anchor block. When the
    /// clock cannot be read, nothing is saved and `ClockError` is returned.
    pub fn save_data(&self, id: u64, record: String, encrypted: bool) -> (r: Result<
        SavePlan,
        ClockError,
    >)
        requires
            self@.chain.next_id < u64::MAX,
        ensures
            r matches Ok(plan) ==> {
                &&& saved_as(self@.chain, id, record@, encrypted, plan.entry.timestamp, plan)
                &&& plan.block.timestamp == plan.entry.timestamp
                &&& plan.entry.timestamp >= 0
                &&& anchored(
                    id,
                    plan.entry.data@,
                    Some(
                        (
                            plan.block@,
                            Some(id),
                            Some(block_hash(record_block(id, record@, plan.entry.timestamp))),
                        ),
                    ),
                )
            },
    {
        let timestamp = now_timestamp()?;
        Ok(self.save_data_at(id, record, encrypted, timestamp))
    }

    /// Whether record `id` with JSON text `data` is anchored by what was
    /// fetched for its anchor hash (`None` when the block could not be read).
    pub fn validate(&self, id: u64, data: &str, fetched: Option<(&Block, &AnchorFields)>) -> (r:
        bool)
        ensures
            r == anchored(id, data@, fetched_view(fetched)),
    {
        match fetched {
            None => false,
            Some((block, fields)) => {
                let expected = Storage::record_hash(id, data, block.timestamp);
                match (fields.id, &fields.hash) {
                    (Some(field_id), Some(field_hash)) => field_id == id && *field_hash == expected,
                    _ => false,
                }
            },
        }
    }

    /// Loads record `id`: `Ok(None)` when there is no entry, the entry when
    /// its anchor matches, and the error `InvalidRecord(id)` when it does
    /// not.
    pub fn load_data(
        &self,
        id: u64,
        entry: Option<StorageEntry>,
        fetched: Option<(&Block, &AnchorFields)>,
    ) -> (r: Result<Option<StorageEntry>, StorageError>)
        ensures
            match entry {
                None => r matches Ok(None),
                Some(e) => if anchored(id, e.data@, fetched_view(fetched)) {
                    r matches Ok(Some(got)) && got == e
                } else {
                    r matches Err(StorageError::InvalidRecord(bad)) && bad == id
                },
            },
    {
        match entry {
            None => Ok(None),
            Some(e) => {
                if self.validate(id, e.data.as_str(), fetched) {
                    Ok(Some(e))
                } else {
                    Err(StorageError::InvalidRecord(id))
                }
            },
        }
    }
}

/// What a save stores reads back: the record entry of a save, with the
/// anchor block the save appended and the fields that block's data names
/// (the record's id and the record hash), loads as that entry.
pub proof fn lemma_saved_record_loads(
    chain: ChainState,
    id: u64,
    record: Seq<char>,
    encrypted: bool,
    timestamp: i64,
    plan: SavePlan,
)
    requires
        saved_as(chain, id, record, encrypted, timestamp, plan),
    ensures
        anchored(
            id,
            plan.entry.data@,
            Some((plan.block@, Some(id), Some(block_hash(record_block(id, record, timestamp))))),
        ),
{
}

/// Saves from the same store all append at the same place: the store's
/// own chain is not moved by a save, so two saves (whatever their records)
/// make anchor blocks with the same id and the same prev, and both leave
/// the chain file at the next id after the store's.
pub proof fn lemma_saves_share_position(
    chain: ChainState,
    id1: u64,
    record1: Seq<char>,
    encrypted1: bool,
    timestamp1: i64,
    plan1: SavePlan,
    id2: u64,
    record2: Seq<char>,
    encrypted2: bool,
    timestamp2: i64,
    plan2: SavePlan,
)
    requires
        chain.next_id < u64::MAX,
        saved_as(chain, id1, record1, encrypted1, timestamp1, plan1),
        saved_as(chain, id2, record2, encrypted2, timestamp2, plan2),
    ensures
        plan1.block_id == plan2.block_id,
        plan1.block@.id == plan2.block@.id,
        plan1.block@.id == decimal(chain.next_id as nat),
        plan1.block@.prev == plan2.block@.prev,
        plan1.block@.prev == chain.tail_hash,
        plan1.chain@.next_id == plan2.chain@.next_id,
        plan2.chain@.next_id == chain.next_id + 1,
{
}

/// The anchor data reads back as the object `{"hash":..,"id":..}` whose
/// `hash` is a JSON string literal standing for the record hash and whose
/// `id` is the canonical decimal numeral of the record's id.
pub proof fn lemma_anchor_json_reads_back(id: u64, hash: Seq<char>)
    ensures
        exists|q: Seq<char>, n: Seq<char>|
            #[trigger] anchor_object_text(q, n) == anchor_json(id, hash) && json_string_value(q)
                == Some(hash) && is_numeral(n) && digits_value(n) == id,
{
    lemma_json_quote_reads_back(hash);
    lemma_decimal_reads_back(id as nat);
    assert(anchor_object_text(json_quote(hash), decimal(id as nat)) =~= anchor_json(id, hash));
}

/// A JSON object text with the fields `hash` and `id`, in that order,
/// whose values are written as the texts given.
pub open spec fn anchor_object_text(hash: Seq<char>, id: Seq<char>) -> Seq<char> {
    seq!['{', '"', 'h', 'a', 's', 'h', '"', ':'] + hash + seq![',', '"', 'i', 'd', '"', ':'] + id
        + seq!['}']
}

} // verus!
