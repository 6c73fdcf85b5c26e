//! Blocks, their hashes, the chain's state and the walk that checks a chain
//! from its tail back to its first block.

use vstd::prelude::*;

use crate::digest::{
    hex_encode, hex_lower, hex_reads_as, is_lower_hex, json_quote, json_string_value, lemma_hex_lower_digits, lemma_hex_lower_reads_back, lemma_json_quote_reads_back, json_quote_text, lemma_hex_lower_len, sha256,
    sha256_digest,
};
use crate::text::{
    decimal, is_signed_numeral, lemma_signed_decimal_reads_back, push_char, signed_decimal, signed_value,
    u64_to_decimal, write_signed_decimal,
};
use vstd::utf8::encode_utf8;

verus! {

/// One block: its id (decimal text), the hash of the block before it
/// (`"0"` for the first block), the time it was made (seconds since the
/// epoch) and its data as compact JSON text.
pub struct Block {
    pub id: String,
    pub prev: String,
    pub timestamp: i64,
    pub data: String,
}

/// The mathematical value of a block.
pub struct BlockView {
    pub id: Seq<char>,
    pub prev: Seq<char>,
    pub timestamp: i64,
    pub data: Seq<char>,
}

impl View for Block {
    type V = BlockView;

    open spec fn view(&self) -> BlockView {
        BlockView { id: self.id@, prev: self.prev@, timestamp: self.timestamp, data: self.data@ }
    }
}

impl Clone for Block {
    fn clone(&self) -> (r: Self)
        ensures
            r@ == self@,
    {
        Block {
            id: self.id.clone(),
            prev: self.prev.clone(),
            timestamp: self.timestamp,
            data: self.data.clone(),
        }
    }
}

/// The marker that stands as `prev` of the first block.
pub open spec fn root_marker() -> Seq<char> {
    seq!['0']
}

/// The compact JSON text of a block: an object with the fields `id`,
/// `prev`, `timestamp` and `data`, in that order.
pub open spec fn spec_block_json(b: BlockView) -> Seq<char> {
    seq!['{', '"', 'i', 'd', '"', ':'] + json_quote(b.id) + seq![',', '"', 'p', 'r', 'e', 'v', '"', ':']
        + json_quote(b.prev) + seq![
        ',',
        '"',
        't',
        'i',
        'm',
        'e',
        's',
        't',
        'a',
        'm',
        'p',
        '"',
        ':',
    ] + signed_decimal(b.timestamp as int) + seq![',', '"', 'd', 'a', 't', 'a', '"', ':'] + b.data
        + seq!['}']
}

/// The hash of a block: lowercase hex of the SHA-256 digest of the UTF-8
/// bytes of its JSON text.
pub open spec fn block_hash(b: BlockView) -> Seq<char> {
    hex_lower(sha256_digest(encode_utf8(spec_block_json(b))))
}

/// The shape of every hash the library computes: 64 lowercase hex digits
/// (32 bytes).
pub open spec fn hash_shaped(h: Seq<char>) -> bool {
    &&& h.len() == 64
    &&& forall|i: int| 0 <= i < h.len() ==> is_lower_hex(#[trigger] h[i])
}

fn push_all(s: &mut String, cs: &[char])
    ensures
        final(s)@ == old(s)@ + cs@,
{
    let mut i: usize = 0;
    while i < cs.len()
        invariant
            i <= cs.len(),
            s@ == old(s)@ + cs@.take(i as int),
        decreases cs.len() - i,
    {
        push_char(s, cs[i]);
        i = i + 1;
        assert(cs@.take(i as int) =~= cs@.take((i - 1) as int).push(cs@[i - 1]));
    }
    assert(cs@.take(cs.len() as int) =~= cs@);
}

/// The JSON text of a block, as `serde_json::to_string` writes it.
pub fn block_json(block: &Block) -> (r: String)
    ensures
        r@ == spec_block_json(block@),
{
    let mut s = String::new();
    push_all(&mut s, &['{', '"', 'i', 'd', '"', ':']);
    let id = json_quote_text(block.id.as_str());
    s.append(id.as_str());
    push_all(&mut s, &[',', '"', 'p', 'r', 'e', 'v', '"', ':']);
    let prev = json_quote_text(block.prev.as_str());
    s.append(prev.as_str());
    push_all(&mut s, &[',', '"', 't', 'i', 'm', 'e', 's', 't', 'a', 'm', 'p', '"', ':']);
    write_signed_decimal(&mut s, block.timestamp);
    push_all(&mut s, &[',', '"', 'd', 'a', 't', 'a', '"', ':']);
    s.append(block.data.as_str());
    push_char(&mut s, '}');
    assert(s@ =~= spec_block_json(block@));
    s
}

/// The hash that names a block: hex of SHA-256 over its JSON text.
pub fn calculate_hash(block: &Block) -> (r: String)
    ensures
        r@ == block_hash(block@),
        hash_shaped(r@),
{
    let text = block_json(block);
    let digest = sha256(text.as_str().as_bytes());
    let r = hex_encode(digest.as_slice());
    proof {
        lemma_hex_lower_len(digest@);
        lemma_hex_lower_digits(digest@);
    }
    r
}

} // verus!

verus! {

/// What the chain file holds: the hash of the newest block and the id the
/// next block gets.
pub struct ChainInfo {
    pub tail_hash: String,
    pub next_id: u64,
}

/// The chain's state: the directory its files live in, the hash of its
/// newest block and the id the next block gets.
pub struct Blockchain {
    path: String,
    tail_hash: String,
    next_id: u64,
}

/// The mathematical value of a chain's state.
pub struct ChainState {
    pub path: Seq<char>,
    pub tail_hash: Seq<char>,
    pub next_id: u64,
}

impl View for Blockchain {
    type V = ChainState;

    closed spec fn view(&self) -> ChainState {
        ChainState { path: self.path@, tail_hash: self.tail_hash@, next_id: self.next_id }
    }
}

impl Clone for Blockchain {
    fn clone(&self) -> (r: Self)
        ensures
            r@ == self@,
    {
        Blockchain {
            path: self.path.clone(),
            tail_hash: self.tail_hash.clone(),
            next_id: self.next_id,
        }
    }
}

/// The first block of every chain: id `"0"`, prev `"0"`, an empty JSON
/// object as data.
pub open spec fn genesis_block(timestamp: i64) -> BlockView {
    BlockView { id: decimal(0), prev: root_marker(), timestamp, data: seq!['{', '}'] }
}

/// The block that the chain in state `c` appends for `data` at `timestamp`.
pub open spec fn next_block(c: ChainState, data: Seq<char>, timestamp: i64) -> BlockView {
    BlockView { id: decimal(c.next_id as nat), prev: c.tail_hash, timestamp, data }
}

/// The chain's state after it appended a block with hash `hash`.
pub open spec fn after_append(c: ChainState, hash: Seq<char>) -> ChainState {
    ChainState { path: c.path, tail_hash: hash, next_id: (c.next_id + 1) as u64 }
}

/// The clock cannot be read as seconds since the Unix epoch that fit an
/// `i64`: it reads before the epoch, or too far after it.
pub enum ClockError {
    OutOfRange,
}

/// `std::time::SystemTime::now().duration_since(UNIX_EPOCH)`, in whole
/// seconds: `None` when the system clock reads before the epoch (the
/// call's error). Nothing is stated of the value: it is whatever the clock
/// says.
#[verifier::external_body]
fn seconds_since_epoch() -> Option<u64> {
    match std::time::SystemTime::now().duration_since(std::time::UNIX_EPOCH) {
        Ok(elapsed) => Some(elapsed.as_secs()),
        Err(_) => None,
    }
}

/// A clock reading as a timestamp: its seconds since the epoch when they
/// fit an `i64`; `OutOfRange` when they do not, or when the clock read
/// before the epoch (`None`).
pub fn timestamp_from_secs(secs: Option<u64>) -> (r: Result<i64, ClockError>)
    ensures
        match secs {
            Some(s) => {
                &&& s <= i64::MAX ==> r == Ok::<i64, ClockError>(s as i64)
                &&& s > i64::MAX ==> r is Err
            },
            None => r is Err,
        },
{
    match secs {
        Some(s) => {
            if s <= i64::MAX as u64 {
                Ok(s as i64)
            } else {
                Err(ClockError::OutOfRange)
            }
        },
        None => Err(ClockError::OutOfRange),
    }
}

/// The current time in seconds since the Unix epoch, when the clock reads
/// a time at or after the epoch whose seconds fit an `i64`: the reading,
/// taken as `timestamp_from_secs` says; never negative.
pub fn now_timestamp() -> (r: Result<i64, ClockError>)
    ensures
        r matches Ok(t) ==> t >= 0,
{
    timestamp_from_secs(seconds_since_epoch())
}

impl Blockchain {
    /// The directory the chain's files live in.
    pub fn path(&self) -> (r: &str)
        ensures
            r@ == self@.path,
    {
        self.path.as_str()
    }

    /// The hash of the newest block.
    pub fn tail_hash(&self) -> (r: &str)
        ensures
            r@ == self@.tail_hash,
    {
        self.tail_hash.as_str()
    }

    /// The id the next block gets.
    pub fn next_id(&self) -> (r: u64)
        ensures
            r == self@.next_id,
    {
        self.next_id
    }

    /// A chain that starts with the first block made at `timestamp`:
    /// returns the chain, that block and its hash, which is the chain's tail.
    pub fn genesis_at(base_path: &str, timestamp: i64) -> (r: (Blockchain, Block, String))
        ensures
            r.1@ == genesis_block(timestamp),
            r.2@ == block_hash(r.1@),
            hash_shaped(r.2@),
            r.0@ == (ChainState { path: base_path@, tail_hash: r.2@, next_id: 1 }),
    {
        let mut prev = String::new();
        push_char(&mut prev, '0');
        let mut data = String::new();
        push_char(&mut data, '{');
        push_char(&mut data, '}');
        let block = Block { id: u64_to_decimal(0), prev, timestamp, data };
        assert(block@.data =~= seq!['{', '}']);
        assert(block@.prev =~= root_marker());
        let hash = calculate_hash(&block);
        let chain = Blockchain {
            path: String::from_str(base_path),
            tail_hash: hash.clone(),
            next_id: 1,
        };
        (chain, block, hash)
    }

    /// Opens the chain kept under `base_path`. `existing` is what its chain
    /// file holds, if there is one: the chain continues from it. Without
    /// one, a new chain starts with a first block made now, which is
    /// returned with its hash to be stored; that needs the clock, and fails
    /// when it cannot be read (`ClockError`).
    pub fn new(base_path: &str, existing: Option<ChainInfo>) -> (r: Result<
        (Blockchain, Option<(Block, String)>),
        ClockError,
    >)
        ensures
            match existing {
                Some(info) => r matches Ok((chain, first)) && first is None && chain@ == (ChainState {
                    path: base_path@,
                    tail_hash: info.tail_hash@,
                    next_id: info.next_id,
                }),
                None => match r {
                    Ok((chain, first)) => {
                        &&& first matches Some((block, hash))
                        &&& block@ == genesis_block(block.timestamp)
                        &&& block.timestamp >= 0
                        &&& hash@ == block_hash(block@)
                        &&& hash_shaped(hash@)
                        &&& chain@ == (ChainState { path: base_path@, tail_hash: hash@, next_id: 1 })
                    },
                    Err(_) => true,
                },
            },
    {
        match existing {
            Some(info) => {
                let chain = Blockchain {
                    path: String::from_str(base_path),
                    tail_hash: info.tail_hash,
                    next_id: info.next_id,
                };
                Ok((chain, None))
            },
            None => {
                let timestamp = now_timestamp()?;
                let (chain, block, hash) = Blockchain::genesis_at(base_path, timestamp);
                Ok((chain, Some((block, hash))))
            },
        }
    }

    /// What the chain file records of this chain.
    pub fn info(&self) -> (r: ChainInfo)
        ensures
            r.tail_hash@ == self@.tail_hash,
            r.next_id == self@.next_id,
    {
        ChainInfo { tail_hash: self.tail_hash.clone(), next_id: self.next_id }
    }

    /// Appends a block with `data` made at `timestamp`: its id is the
    /// chain's next id and its prev the chain's tail. Returns the id, the
    /// block's hash, which becomes the tail, and the block to be stored.
    pub fn add_block_at(&mut self, data: String, timestamp: i64) -> (r: (u64, String, Block))
        requires
            old(self)@.next_id < u64::MAX,
        ensures
            r.0 == old(self)@.next_id,
            r.2@ == next_block(old(self)@, data@, timestamp),
            r.1@ == block_hash(r.2@),
            hash_shaped(r.1@),
            final(self)@ == after_append(old(self)@, r.1@),
    {
        let id = self.next_id;
        let block = Block {
            id: u64_to_decimal(id),
            prev: self.tail_hash.clone(),
            timestamp,
            data,
        };
        let hash = calculate_hash(&block);
        self.next_id = self.next_id + 1;
        self.tail_hash = hash.clone();
        (id, hash, block)
    }

    /// Appends a block with `data`, made now; as `add_block_at` with the
    /// clock's time. When the clock cannot be read, the chain is left as it
    /// was and `ClockError` is returned.
    pub fn add_block(&mut self, data: String) -> (r: Result<(u64, String, Block), ClockError>)
        requires
            old(self)@.next_id < u64::MAX,
        ensures
            match r {
                Ok((id, hash, block)) => {
                    &&& id == old(self)@.next_id
                    &&& block@ == next_block(old(self)@, data@, block.timestamp)
                    &&& block.timestamp >= 0
                    &&& hash@ == block_hash(block@)
                    &&& hash_shaped(hash@)
                    &&& final(self)@ == after_append(old(self)@, hash@)
                },
                Err(_) => final(self)@ == old(self)@,
            },
    {
        let timestamp = now_timestamp()?;
        Ok(self.add_block_at(data, timestamp))
    }
}

/// The name of the file that holds the block with hash `hash`.
pub open spec fn spec_block_file_name(hash: Seq<char>) -> Seq<char> {
    hash + seq!['.', 'j', 's', 'o', 'n']
}

/// The name of the file that holds the block with hash `hash`:
/// the hash followed by `.json`.
pub fn block_file_name(hash: &str) -> (r: String)
    ensures
        r@ == spec_block_file_name(hash@),
{
    let mut s = String::from_str(hash);
    push_all(&mut s, &['.', 'j', 's', 'o', 'n']);
    s
}

} // verus!

verus! {

/// The walk that checks a chain: from the tail back block by block, each
/// block must hash to the name it was fetched by. `count` is the number of
/// blocks accepted so far; `limit`, if any, ends the walk after that many.
pub struct ChainCheck {
    current: String,
    count: usize,
    limit: Option<usize>,
}

/// The mathematical value of a walk in progress.
pub struct CheckState {
    pub current: Seq<char>,
    pub count: nat,
    pub limit: Option<usize>,
}

impl View for ChainCheck {
    type V = CheckState;

    closed spec fn view(&self) -> CheckState {
        CheckState { current: self.current@, count: self.count as nat, limit: self.limit }
    }
}

/// What the walk asks for next.
pub enum CheckStep {
    /// The block stored under this hash.
    Fetch(String),
    /// Nothing more: the walk ended with this result.
    Finished(bool),
}

/// What the walk made of one block.
pub struct BlockVerdict {
    /// Whether the block hashes to the name it was fetched by.
    pub valid: bool,
    /// The block's hash.
    pub expected_hash: String,
    /// The walk's result, if it ended with this block.
    pub outcome: Option<bool>,
}

/// A walk that starts at `tail`.
pub open spec fn start_check(tail: Seq<char>, limit: Option<usize>) -> CheckState {
    CheckState { current: tail, count: 0, limit }
}

/// The walk needs a block while its current hash is neither empty nor the
/// root marker.
pub open spec fn needs_block(c: CheckState) -> bool {
    c.current.len() > 0 && c.current != root_marker()
}

/// How the walk ends, if it does, with block `b` fetched for its current
/// hash: on a mismatch it fails; it succeeds when the limit is reached or
/// when `b` is the first block of its chain.
pub open spec fn check_outcome(c: CheckState, b: BlockView) -> Option<bool> {
    if c.current != block_hash(b) {
        Some(false)
    } else if c.limit matches Some(l) && c.count + 1 >= l {
        Some(true)
    } else if b.prev == root_marker() {
        Some(true)
    } else {
        None
    }
}

/// The walk after block `b`: on a mismatch it stays as it was; otherwise
/// one more block is counted, and, if the walk goes on, it moves to `b`'s
/// predecessor.
pub open spec fn check_after(c: CheckState, b: BlockView) -> CheckState {
    if c.current != block_hash(b) {
        c
    } else if check_outcome(c, b) is Some {
        CheckState { current: c.current, count: c.count + 1, limit: c.limit }
    } else {
        CheckState { current: b.prev, count: c.count + 1, limit: c.limit }
    }
}

/// The result of a whole walk over `store` (blocks by the hash they are
/// stored under), taking at most `fuel` blocks; `None` when a needed block
/// is not in the store or the fuel ran out.
pub open spec fn run_check(c: CheckState, store: Map<Seq<char>, BlockView>, fuel: nat) -> Option<
    bool,
>
    decreases fuel,
{
    if !needs_block(c) {
        Some(true)
    } else if fuel == 0 || !store.contains_key(c.current) {
        None
    } else {
        let b = store[c.current];
        match check_outcome(c, b) {
            Some(r) => Some(r),
            None => run_check(check_after(c, b), store, (fuel - 1) as nat),
        }
    }
}

fn is_root_marker(s: &str) -> (r: bool)
    ensures
        r == (s@ == root_marker()),
{
    let r = s.unicode_len() == 1 && s.get_char(0) == '0';
    assert(r ==> s@ =~= root_marker());
    r
}

impl Blockchain {
    /// Starts the walk that checks this chain from its tail; with a limit,
    /// at most that many blocks are checked (at least one).
    pub fn start_check(&self, limit: Option<usize>) -> (r: ChainCheck)
        ensures
            r@ == start_check(self@.tail_hash, limit),
    {
        ChainCheck { current: self.tail_hash.clone(), count: 0, limit }
    }
}

impl ChainCheck {
    /// The number of blocks accepted so far.
    pub fn count(&self) -> (r: usize)
        ensures
            r == self@.count,
    {
        self.count
    }

    /// What the walk needs next: the block under its current hash, or
    /// nothing, when that hash is empty or the root marker, and the walk
    /// has succeeded.
    pub fn next_step(&self) -> (r: CheckStep)
        ensures
            match r {
                CheckStep::Fetch(h) => needs_block(self@) && h@ == self@.current,
                CheckStep::Finished(v) => !needs_block(self@) && v,
            },
    {
        if self.current.as_str().is_empty() || is_root_marker(self.current.as_str()) {
            CheckStep::Finished(true)
        } else {
            CheckStep::Fetch(self.current.clone())
        }
    }

    /// Takes the block fetched for the current hash and checks it.
    pub fn accept(&mut self, block: &Block) -> (r: BlockVerdict)
        requires
            needs_block(old(self)@),
            old(self)@.count < usize::MAX,
        ensures
            r.expected_hash@ == block_hash(block@),
            r.valid == (old(self)@.current == block_hash(block@)),
            r.outcome == check_outcome(old(self)@, block@),
            final(self)@ == check_after(old(self)@, block@),
    {
        let expected_hash = calculate_hash(block);
        let valid = self.current == expected_hash;
        if !valid {
            return BlockVerdict { valid, expected_hash, outcome: Some(false) };
        }
        self.count = self.count + 1;
        if let Some(limit_val) = self.limit {
            if self.count >= limit_val {
                return BlockVerdict { valid, expected_hash, outcome: Some(true) };
            }
        }
        if is_root_marker(block.prev.as_str()) {
            return BlockVerdict { valid, expected_hash, outcome: Some(true) };
        }
        self.current = block.prev.clone();
        BlockVerdict { valid, expected_hash, outcome: None }
    }
}

/// The blocks of a chain, oldest first, are linked: the first names the
/// root marker as its predecessor, each other one the hash of the block
/// before it, and every hash has the shape computed hashes have.
pub open spec fn linked(blocks: Seq<BlockView>) -> bool {
    &&& blocks.len() > 0
    &&& blocks[0].prev == root_marker()
    &&& forall|i: int| 0 < i < blocks.len() ==> #[trigger] blocks[i].prev == block_hash(blocks[i - 1])
    &&& forall|i: int| 0 <= i < blocks.len() ==> hash_shaped(#[trigger] block_hash(blocks[i]))
}

/// Every block of `blocks` is in `store` under its own hash.
pub open spec fn stored(store: Map<Seq<char>, BlockView>, blocks: Seq<BlockView>) -> bool {
    forall|i: int|
        0 <= i < blocks.len() ==> #[trigger] store.contains_key(block_hash(blocks[i]))
            && store[block_hash(blocks[i])] == blocks[i]
}

proof fn lemma_shaped_needs_block(h: Seq<char>, count: nat, limit: Option<usize>)
    requires
        hash_shaped(h),
    ensures
        needs_block(CheckState { current: h, count, limit }),
{
    assert(h.len() != root_marker().len());
}

proof fn lemma_walk_from(
    blocks: Seq<BlockView>,
    store: Map<Seq<char>, BlockView>,
    k: int,
    count: nat,
    limit: Option<usize>,
)
    requires
        linked(blocks),
        stored(store, blocks),
        0 <= k < blocks.len(),
    ensures
        run_check(
            CheckState { current: block_hash(blocks[k]), count, limit },
            store,
            (k + 1) as nat,
        ) == Some(true),
    decreases k,
{
    let c = CheckState { current: block_hash(blocks[k]), count, limit };
    lemma_shaped_needs_block(block_hash(blocks[k]), count, limit);
    assert(store.contains_key(block_hash(blocks[k])));
    let b = store[c.current];
    assert(b == blocks[k]);
    if check_outcome(c, b) is None {
        assert(k > 0) by {
            if k == 0 {
                assert(blocks[0].prev == root_marker());
            }
        }
        assert(blocks[k].prev == block_hash(blocks[k - 1]));
        lemma_walk_from(blocks, store, k - 1, count + 1, limit);
        assert(check_after(c, b) == CheckState {
            current: block_hash(blocks[k - 1]),
            count: count + 1,
            limit,
        });
    }
}

/// A linked chain whose blocks are all stored under their own hashes passes
/// the check from its newest block, whatever the limit: the walk ends with
/// `true` within as many steps as the chain has blocks.
pub proof fn lemma_stored_chain_checks(
    blocks: Seq<BlockView>,
    store: Map<Seq<char>, BlockView>,
    limit: Option<usize>,
)
    requires
        linked(blocks),
        stored(store, blocks),
    ensures
        run_check(start_check(block_hash(blocks.last()), limit), store, blocks.len()) == Some(true),
{
    lemma_walk_from(blocks, store, blocks.len() - 1, 0, limit);
}

proof fn lemma_walk_to_tampered(
    blocks: Seq<BlockView>,
    store: Map<Seq<char>, BlockView>,
    j: int,
    k: int,
    count: nat,
)
    requires
        linked(blocks),
        0 <= j <= k < blocks.len(),
        forall|i: int|
            j < i < blocks.len() ==> #[trigger] store.contains_key(block_hash(blocks[i]))
                && store[block_hash(blocks[i])] == blocks[i],
        store.contains_key(block_hash(blocks[j])),
        block_hash(store[block_hash(blocks[j])]) != block_hash(blocks[j]),
    ensures
        run_check(
            CheckState { current: block_hash(blocks[k]), count, limit: None },
            store,
            (k + 1) as nat,
        ) == Some(false),
    decreases k,
{
    let c = CheckState { current: block_hash(blocks[k]), count, limit: None };
    lemma_shaped_needs_block(block_hash(blocks[k]), count, None);
    if k > j {
        assert(store.contains_key(block_hash(blocks[k])));
        let b = store[c.current];
        assert(b == blocks[k]);
        assert(blocks[k].prev == block_hash(blocks[k - 1]));
        assert(b.prev != root_marker()) by {
            assert(hash_shaped(block_hash(blocks[k - 1])));
        }
        lemma_walk_to_tampered(blocks, store, j, k - 1, count + 1);
        assert(check_after(c, b).current == block_hash(blocks[k - 1]));
    }
}

/// A linked chain in which the block stored under one of its hashes does
/// not hash to that name, all newer blocks being stored intact, fails the
/// unlimited check from its newest block.
pub proof fn lemma_tampered_chain_fails(
    blocks: Seq<BlockView>,
    store: Map<Seq<char>, BlockView>,
    j: int,
)
    requires
        linked(blocks),
        0 <= j < blocks.len(),
        forall|i: int|
            j < i < blocks.len() ==> #[trigger] store.contains_key(block_hash(blocks[i]))
                && store[block_hash(blocks[i])] == blocks[i],
        store.contains_key(block_hash(blocks[j])),
        block_hash(store[block_hash(blocks[j])]) != block_hash(blocks[j]),
    ensures
        run_check(start_check(block_hash(blocks.last()), None), store, blocks.len()) == Some(false),
{
    lemma_walk_to_tampered(blocks, store, j, blocks.len() - 1, 0);
}

/// The first block of a chain makes a linked chain of one block.
pub proof fn lemma_genesis_linked(timestamp: i64)
    requires
        hash_shaped(block_hash(genesis_block(timestamp))),
    ensures
        linked(seq![genesis_block(timestamp)]),
{
    let blocks = seq![genesis_block(timestamp)];
    assert(blocks[0].prev == root_marker());
}

/// Appending keeps a chain linked: the block the chain appends after its
/// tail extends the chain's blocks, and the new tail is that block's hash.
pub proof fn lemma_append_keeps_linked(
    blocks: Seq<BlockView>,
    chain: ChainState,
    data: Seq<char>,
    timestamp: i64,
)
    requires
        linked(blocks),
        chain.tail_hash == block_hash(blocks.last()),
        hash_shaped(block_hash(next_block(chain, data, timestamp))),
    ensures
        linked(blocks.push(next_block(chain, data, timestamp))),
        after_append(chain, block_hash(next_block(chain, data, timestamp))).tail_hash == block_hash(
            blocks.push(next_block(chain, data, timestamp)).last(),
        ),
{
    let nb = next_block(chain, data, timestamp);
    let nbs = blocks.push(nb);
    assert forall|i: int| 0 < i < nbs.len() implies #[trigger] nbs[i].prev == block_hash(
        nbs[i - 1],
    ) by {
        if i < blocks.len() {
            assert(nbs[i] == blocks[i]);
            assert(blocks[i].prev == block_hash(blocks[i - 1]));
        }
    }
    assert forall|i: int| 0 <= i < nbs.len() implies hash_shaped(#[trigger] block_hash(nbs[i])) by {
        if i < blocks.len() {
            assert(nbs[i] == blocks[i]);
            assert(hash_shaped(block_hash(blocks[i])));
        }
    }
}

} // verus!

verus! {

/// A new chain passes the check: with its first block stored under that
/// block's hash, the walk from the chain's tail ends with `true` after one
/// block, whatever the limit.
pub proof fn lemma_new_chain_checks(
    timestamp: i64,
    store: Map<Seq<char>, BlockView>,
    limit: Option<usize>,
)
    requires
        hash_shaped(block_hash(genesis_block(timestamp))),
        store.contains_key(block_hash(genesis_block(timestamp))),
        store[block_hash(genesis_block(timestamp))] == genesis_block(timestamp),
    ensures
        run_check(start_check(block_hash(genesis_block(timestamp)), limit), store, 1) == Some(true),
{
    let blocks = seq![genesis_block(timestamp)];
    lemma_genesis_linked(timestamp);
    assert(stored(store, blocks));
    lemma_stored_chain_checks(blocks, store, limit);
    assert(blocks.last() == genesis_block(timestamp));
}

} // verus!

verus! {

/// `lim` stops a walk no earlier than the limit `l`: no limit, or a limit
/// at least `l`.
pub open spec fn limit_at_least(lim: Option<usize>, l: usize) -> bool {
    match lim {
        None => true,
        Some(l2) => l2 >= l,
    }
}

proof fn lemma_monotonic_from(
    current: Seq<char>,
    count: nat,
    l1: usize,
    lim2: Option<usize>,
    store: Map<Seq<char>, BlockView>,
    fuel: nat,
)
    requires
        limit_at_least(lim2, l1),
    ensures
        run_check(CheckState { current, count, limit: lim2 }, store, fuel) == Some(true)
            ==> run_check(CheckState { current, count, limit: Some(l1) }, store, fuel) == Some(true),
        run_check(CheckState { current, count, limit: Some(l1) }, store, fuel) == Some(false)
            ==> run_check(CheckState { current, count, limit: lim2 }, store, fuel) == Some(false),
    decreases fuel,
{
    let c1 = CheckState { current, count, limit: Some(l1) };
    let c2 = CheckState { current, count, limit: lim2 };
    if needs_block(c1) && fuel > 0 && store.contains_key(current) {
        let b = store[current];
        if current == block_hash(b) && !(count + 1 >= l1) && b.prev != root_marker() {
            assert(check_outcome(c1, b) is None);
            assert(check_outcome(c2, b) is None);
            lemma_monotonic_from(b.prev, count + 1, l1, lim2, store, (fuel - 1) as nat);
            assert(check_after(c1, b) == CheckState { current: b.prev, count: count + 1, limit: Some(l1) });
            assert(check_after(c2, b) == CheckState { current: b.prev, count: count + 1, limit: lim2 });
        }
    }
}

/// The check is monotonic in its limit, over the same store and steps: if
/// a walk with a larger limit (or none) succeeds, one with the limit `l1`
/// succeeds too; if a walk with the limit `l1` fails, one with a larger
/// limit (or none) fails too.
pub proof fn lemma_check_monotonic_in_limit(
    tail: Seq<char>,
    l1: usize,
    lim2: Option<usize>,
    store: Map<Seq<char>, BlockView>,
    fuel: nat,
)
    requires
        limit_at_least(lim2, l1),
    ensures
        run_check(start_check(tail, lim2), store, fuel) == Some(true) ==> run_check(
            start_check(tail, Some(l1)),
            store,
            fuel,
        ) == Some(true),
        run_check(start_check(tail, Some(l1)), store, fuel) == Some(false) ==> run_check(
            start_check(tail, lim2),
            store,
            fuel,
        ) == Some(false),
{
    lemma_monotonic_from(tail, 0, l1, lim2, store, fuel);
}

proof fn lemma_unlimited_count_irrelevant(
    current: Seq<char>,
    n1: nat,
    n2: nat,
    store: Map<Seq<char>, BlockView>,
    fuel: nat,
)
    ensures
        run_check(CheckState { current, count: n1, limit: None }, store, fuel) == run_check(
            CheckState { current, count: n2, limit: None },
            store,
            fuel,
        ),
    decreases fuel,
{
    let c1 = CheckState { current, count: n1, limit: None };
    let c2 = CheckState { current, count: n2, limit: None };
    if needs_block(c1) && fuel > 0 && store.contains_key(current) {
        let b = store[current];
        lemma_unlimited_count_irrelevant(b.prev, n1 + 1, n2 + 1, store, (fuel - 1) as nat);
        if check_outcome(c1, b) is None {
            assert(check_after(c1, b) == CheckState { current: b.prev, count: n1 + 1, limit: None });
            assert(check_after(c2, b) == CheckState { current: b.prev, count: n2 + 1, limit: None });
        }
    }
}

proof fn lemma_success_survives_insert(
    c: CheckState,
    store: Map<Seq<char>, BlockView>,
    fuel: nat,
    h: Seq<char>,
    b: BlockView,
)
    requires
        run_check(c, store, fuel) == Some(true),
        store.contains_key(h) ==> block_hash(store[h]) != h,
    ensures
        run_check(c, store.insert(h, b), fuel) == Some(true),
    decreases fuel,
{
    if needs_block(c) {
        assert(store.contains_key(c.current));
        assert(c.current != h) by {
            if c.current == h {
                assert(check_outcome(c, store[h]) == Some(false));
            }
        }
        assert(store.insert(h, b)[c.current] == store[c.current]);
        let blk = store[c.current];
        if check_outcome(c, blk) is None {
            lemma_success_survives_insert(check_after(c, blk), store, (fuel - 1) as nat, h, b);
        }
    }
}

/// Appending keeps a chain that passes the check passing: if the unlimited
/// walk from the chain's tail succeeds over `store`, then after the chain
/// appends a block, with that block stored under its hash, the unlimited
/// walk from the new tail succeeds within one more step. Whatever the store
/// held under that hash before is replaced; only another block with the
/// same hash (a SHA-256 collision) is ruled out.
pub proof fn lemma_append_keeps_passing(
    chain: ChainState,
    data: Seq<char>,
    timestamp: i64,
    store: Map<Seq<char>, BlockView>,
    fuel: nat,
)
    requires
        run_check(start_check(chain.tail_hash, None), store, fuel) == Some(true),
        hash_shaped(block_hash(next_block(chain, data, timestamp))),
        store.contains_key(block_hash(next_block(chain, data, timestamp))) ==> (store[block_hash(
            next_block(chain, data, timestamp),
        )] == next_block(chain, data, timestamp) || block_hash(
            store[block_hash(next_block(chain, data, timestamp))],
        ) != block_hash(next_block(chain, data, timestamp))),
    ensures
        ({
            let nb = next_block(chain, data, timestamp);
            let h = block_hash(nb);
            run_check(
                start_check(after_append(chain, h).tail_hash, None),
                store.insert(h, nb),
                fuel + 1,
            ) == Some(true)
        }),
{
    let nb = next_block(chain, data, timestamp);
    let h = block_hash(nb);
    let s2 = store.insert(h, nb);
    lemma_shaped_needs_block(h, 0, None);
    assert(s2.contains_key(h) && s2[h] == nb);
    let c = start_check(h, None);
    if check_outcome(c, nb) is None {
        assert(check_after(c, nb) == CheckState { current: chain.tail_hash, count: 1, limit: None });
        if store.contains_key(h) && store[h] == nb {
            assert(s2 =~= store);
        } else {
            lemma_success_survives_insert(start_check(chain.tail_hash, None), store, fuel, h, nb);
        }
        lemma_unlimited_count_irrelevant(chain.tail_hash, 0, 1, s2, fuel);
    }
}

/// Two appends in a row: the second block gets the next id and names the
/// first block's hash as its predecessor.
pub proof fn lemma_consecutive_appends(
    chain: ChainState,
    d1: Seq<char>,
    t1: i64,
    d2: Seq<char>,
    t2: i64,
)
    requires
        chain.next_id < u64::MAX,
    ensures
        ({
            let h1 = block_hash(next_block(chain, d1, t1));
            let after = after_append(chain, h1);
            &&& after.next_id == chain.next_id + 1
            &&& next_block(after, d2, t2).id == decimal((chain.next_id + 1) as nat)
            &&& next_block(after, d2, t2).prev == h1
        }),
{
}

/// A JSON object text with the fields `id`, `prev`, `timestamp` and
/// `data`, in that order, whose values are written as the texts given.
pub open spec fn block_object_text(
    id: Seq<char>,
    prev: Seq<char>,
    timestamp: Seq<char>,
    data: Seq<char>,
) -> Seq<char> {
    seq!['{', '"', 'i', 'd', '"', ':'] + id + seq![',', '"', 'p', 'r', 'e', 'v', '"', ':'] + prev
        + seq![',', '"', 't', 'i', 'm', 'e', 's', 't', 'a', 'm', 'p', '"', ':'] + timestamp + seq![
        ',',
        '"',
        'd',
        'a',
        't',
        'a',
        '"',
        ':',
    ] + data + seq!['}']
}

/// A block's JSON text reads back as the block: it is an object with the
/// fields `id`, `prev`, `timestamp` and `data` in that order, where `id`
/// and `prev` are JSON string literals that stand for the block's id and
/// prev, `timestamp` is the canonical decimal numeral of the block's
/// timestamp (all of its digits), and `data` is the block's data text.
pub proof fn lemma_block_json_reads_back(b: BlockView)
    ensures
        exists|qi: Seq<char>, qp: Seq<char>, t: Seq<char>|
            #[trigger] block_object_text(qi, qp, t, b.data) == spec_block_json(b)
                && json_string_value(qi) == Some(b.id) && json_string_value(qp) == Some(b.prev)
                && is_signed_numeral(t) && signed_value(t) == b.timestamp,
{
    let qi = json_quote(b.id);
    let qp = json_quote(b.prev);
    let t = signed_decimal(b.timestamp as int);
    lemma_json_quote_reads_back(b.id);
    lemma_json_quote_reads_back(b.prev);
    lemma_signed_decimal_reads_back(b.timestamp as int);
    assert(block_object_text(qi, qp, t, b.data) =~= spec_block_json(b));
}

/// A block's hash reads back as the SHA-256 digest of the UTF-8 bytes of
/// its JSON text: 64 lowercase hex digits, two per digest byte, high
/// nibble first.
pub proof fn lemma_block_hash_reads_back(b: BlockView)
    ensures
        hex_reads_as(block_hash(b), sha256_digest(encode_utf8(spec_block_json(b)))),
        forall|i: int| 0 <= i < block_hash(b).len() ==> is_lower_hex(#[trigger] block_hash(b)[i]),
{
    lemma_hex_lower_reads_back(sha256_digest(encode_utf8(spec_block_json(b))));
    lemma_hex_lower_digits(sha256_digest(encode_utf8(spec_block_json(b))));
}

proof fn lemma_limit_stops_above(
    blocks: Seq<BlockView>,
    store: Map<Seq<char>, BlockView>,
    j: int,
    k: int,
    count: nat,
    l: usize,
)
    requires
        linked(blocks),
        0 <= j < k < blocks.len(),
        forall|i: int|
            j < i < blocks.len() ==> #[trigger] store.contains_key(block_hash(blocks[i]))
                && store[block_hash(blocks[i])] == blocks[i],
        l <= count + (k - j),
    ensures
        run_check(
            CheckState { current: block_hash(blocks[k]), count, limit: Some(l) },
            store,
            (k + 1) as nat,
        ) == Some(true),
    decreases k,
{
    let c = CheckState { current: block_hash(blocks[k]), count, limit: Some(l) };
    lemma_shaped_needs_block(block_hash(blocks[k]), count, Some(l));
    assert(store.contains_key(block_hash(blocks[k])));
    let b = store[c.current];
    assert(b == blocks[k]);
    if !(count + 1 >= l) {
        assert(blocks[k].prev == block_hash(blocks[k - 1]));
        assert(b.prev != root_marker()) by {
            assert(hash_shaped(block_hash(blocks[k - 1])));
        }
        lemma_limit_stops_above(blocks, store, j, k - 1, count + 1, l);
        assert(check_after(c, b) == CheckState {
            current: block_hash(blocks[k - 1]),
            count: count + 1,
            limit: Some(l),
        });
    }
}

/// The limit bounds how far back the check looks: with a limit `l` of at
/// least one, a chain passes when its newest `l` blocks are stored intact,
/// whatever is stored (or not) under the hashes of older blocks.
pub proof fn lemma_limit_bounds_the_check(
    blocks: Seq<BlockView>,
    store: Map<Seq<char>, BlockView>,
    l: usize,
)
    requires
        linked(blocks),
        1 <= l <= blocks.len(),
        forall|i: int|
            blocks.len() - l <= i < blocks.len() ==> #[trigger] store.contains_key(
                block_hash(blocks[i]),
            ) && store[block_hash(blocks[i])] == blocks[i],
    ensures
        run_check(start_check(block_hash(blocks.last()), Some(l)), store, blocks.len()) == Some(
            true,
        ),
{
    let n = blocks.len() as int;
    if l == n {
        // All blocks are intact: the whole chain passes.
        assert(stored(store, blocks));
        lemma_stored_chain_checks(blocks, store, Some(l));
    } else {
        lemma_limit_stops_above(blocks, store, n - 1 - l, n - 1, 0, l);
    }
}

} // verus!
