//! Blocks: a batch of transactions under a proof-of-work seal.

use crate::clock::unix_seconds;
use crate::digest::{hash_hex, sha256_hex};
use crate::encoding::{decimal, has_leading_zeros, meets_difficulty, push_decimal, push_text, utf8};
use crate::transaction::{transaction_views, Transaction, TransactionView};
use vstd::prelude::*;

verus! {

/// The stored hashes of the transactions, one after the other.
pub open spec fn joined_hashes(transactions: Seq<TransactionView>) -> Seq<u8>
    decreases transactions.len(),
{
    if transactions.len() == 0 {
        Seq::empty()
    } else {
        joined_hashes(transactions.drop_last()) + utf8(transactions.last().hash)
    }
}

/// The part of a block's preimage that the nonce search leaves alone: number
/// and timestamp in decimal, the transactions' hashes, the previous hash.
pub open spec fn block_header(
    number: u64,
    timestamp: u64,
    transactions: Seq<TransactionView>,
    previous_hash: Seq<char>,
) -> Seq<u8> {
    decimal(number as nat) + decimal(timestamp as nat) + joined_hashes(transactions) + utf8(
        previous_hash,
    )
}

/// The hash that a block of this content has under `nonce`: the header and
/// the nonce in decimal, hashed.
pub open spec fn block_hash(
    number: u64,
    timestamp: u64,
    transactions: Seq<TransactionView>,
    previous_hash: Seq<char>,
    nonce: u64,
) -> Seq<char> {
    hash_hex(block_header(number, timestamp, transactions, previous_hash) + decimal(nonce as nat))
}

/// Whether `nonce` seals a block of this content at `difficulty`.
pub open spec fn seals(
    number: u64,
    timestamp: u64,
    transactions: Seq<TransactionView>,
    previous_hash: Seq<char>,
    difficulty: u32,
    nonce: u64,
) -> bool {
    meets_difficulty(block_hash(number, timestamp, transactions, previous_hash, nonce), difficulty)
}

/// Whether no nonce at all seals a block of this content at `difficulty`.
pub open spec fn unsealable(
    number: u64,
    timestamp: u64,
    transactions: Seq<TransactionView>,
    previous_hash: Seq<char>,
    difficulty: u32,
) -> bool {
    forall|n: u64| !seals(number, timestamp, transactions, previous_hash, difficulty, n)
}

/// A numbered batch of transactions, linked to its predecessor by
/// `previous_hash` and sealed by `nonce`.
#[derive(Debug)]
pub struct Block {
    pub number: u64,
    pub timestamp: u64,
    pub transactions: Vec<Transaction>,
    pub previous_hash: String,
    pub hash: String,
    pub nonce: u64,
    pub difficulty: u32,
    pub miner: String,
}

/// What a block is, mathematically.
pub struct BlockView {
    pub number: u64,
    pub timestamp: u64,
    pub transactions: Seq<TransactionView>,
    pub previous_hash: Seq<char>,
    pub hash: Seq<char>,
    pub nonce: u64,
    pub difficulty: u32,
    pub miner: Seq<char>,
}

impl BlockView {
    /// The hash that the content and the nonce call for.
    pub open spec fn digest(self) -> Seq<char> {
        block_hash(self.number, self.timestamp, self.transactions, self.previous_hash, self.nonce)
    }

    /// A block is valid when its stored hash meets the difficulty and is the
    /// hash of the block as it stands.
    pub open spec fn is_valid(self) -> bool {
        &&& meets_difficulty(self.hash, self.difficulty)
        &&& self.hash == self.digest()
    }

    /// Whether `nonce` would seal a block of this content.
    pub open spec fn sealed_by(self, nonce: u64) -> bool {
        seals(
            self.number,
            self.timestamp,
            self.transactions,
            self.previous_hash,
            self.difficulty,
            nonce,
        )
    }

    /// Whether `other` has the same content: every field but nonce and hash.
    pub open spec fn same_content(self, other: BlockView) -> bool {
        &&& self.number == other.number
        &&& self.timestamp == other.timestamp
        &&& self.transactions == other.transactions
        &&& self.previous_hash == other.previous_hash
        &&& self.difficulty == other.difficulty
        &&& self.miner == other.miner
    }
}

impl View for Block {
    type V = BlockView;

    open spec fn view(&self) -> BlockView {
        BlockView {
            number: self.number,
            timestamp: self.timestamp,
            transactions: transaction_views(self.transactions@),
            previous_hash: self.previous_hash@,
            hash: self.hash@,
            nonce: self.nonce,
            difficulty: self.difficulty,
            miner: self.miner@,
        }
    }
}

/// The mathematical content of a list of blocks.
pub open spec fn block_views(blocks: Seq<Block>) -> Seq<BlockView> {
    blocks.map_values(|block: Block| block@)
}

impl Clone for Block {
    fn clone(&self) -> (copy: Self)
        ensures
            copy@ == self@,
    {
        let transactions = self.transactions.clone();
        assert(transaction_views(transactions@) =~= transaction_views(self.transactions@));
        Block {
            number: self.number,
            timestamp: self.timestamp,
            transactions,
            previous_hash: self.previous_hash.clone(),
            hash: self.hash.clone(),
            nonce: self.nonce,
            difficulty: self.difficulty,
            miner: self.miner.clone(),
        }
    }
}

impl Block {
    fn header(&self) -> (bytes: Vec<u8>)
        ensures
            bytes@ == block_header(
                self.number,
                self.timestamp,
                self@.transactions,
                self.previous_hash@,
            ),
    {
        let mut bytes: Vec<u8> = Vec::new();
        push_decimal(&mut bytes, self.number);
        push_decimal(&mut bytes, self.timestamp);
        let ghost front = bytes@;
        let ghost all = self@.transactions;
        let mut i: usize = 0;
        while i < self.transactions.len()
            invariant
                all == transaction_views(self.transactions@),
                i <= self.transactions@.len(),
                bytes@ == front + joined_hashes(all.take(i as int)),
            decreases self.transactions@.len() - i,
        {
            push_text(&mut bytes, self.transactions[i].hash.as_str());
            proof {
                let next = all.take(i + 1);
                assert(next.drop_last() =~= all.take(i as int));
            }
            i += 1;
        }
        assert(all.take(i as int) =~= all);
        push_text(&mut bytes, self.previous_hash.as_str());
        bytes
    }

    /// Computes the hash of the content and nonce anew, whatever `hash` holds.
    pub fn calculate_hash(&self) -> (hash: String)
        ensures
            hash@ == self@.digest(),
            hash@.len() == 64,
    {
        let mut data = self.header();
        push_decimal(&mut data, self.nonce);
        sha256_hex(data.as_slice())
    }

    /// Searches the nonces in rising order, from the block's own, for the
    /// first that seals it, and leaves nonce and hash at the last one tried.
    /// Says whether the block is sealed now; if it is not, no nonce from the
    /// starting one up to `u64::MAX` seals it.
    pub fn mine(&mut self) -> (sealed: bool)
        ensures
            old(self)@.same_content(final(self)@),
            final(self).hash@ == final(self)@.digest(),
            final(self).hash@.len() == 64,
            final(self).nonce >= old(self).nonce,
            sealed == final(self)@.is_valid(),
            !sealed ==> final(self).nonce == u64::MAX,
            forall|n: u64|
                old(self).nonce <= n && (n < final(self).nonce || !sealed) ==> !old(
                    self,
                )@.sealed_by(n),
    {
        let header = self.header();
        let ghost start = self.nonce;
        loop
            invariant
                old(self)@.same_content(self@),
                start == old(self).nonce,
                start <= self.nonce,
                header@ == block_header(
                    self.number,
                    self.timestamp,
                    self@.transactions,
                    self.previous_hash@,
                ),
                forall|n: u64| start <= n < self.nonce ==> !old(self)@.sealed_by(n),
            decreases u64::MAX - self.nonce,
        {
            let mut data = header.clone();
            push_decimal(&mut data, self.nonce);
            self.hash = sha256_hex(data.as_slice());
            if has_leading_zeros(self.hash.as_str(), self.difficulty) {
                return true;
            }
            if self.nonce == u64::MAX {
                return false;
            }
            self.nonce = self.nonce + 1;
        }
    }

    /// Builds the block that holds this content at this time and seals it with
    /// the least nonce that meets `difficulty`. There is no block where no
    /// nonce does.
    pub fn new_at(
        number: u64,
        timestamp: u64,
        transactions: Vec<Transaction>,
        previous_hash: String,
        difficulty: u32,
        miner: String,
    ) -> (mined: Option<Block>)
        ensures
            match mined {
                Some(block) => {
                    &&& block.number == number
                    &&& block.timestamp == timestamp
                    &&& block@.transactions == transaction_views(transactions@)
                    &&& block.previous_hash@ == previous_hash@
                    &&& block.difficulty == difficulty
                    &&& block.miner@ == miner@
                    &&& block@.is_valid()
                    &&& block@.hash.len() == 64
                    &&& forall|n: u64| n < block.nonce ==> !block@.sealed_by(n)
                },
                None => unsealable(
                    number,
                    timestamp,
                    transaction_views(transactions@),
                    previous_hash@,
                    difficulty,
                ),
            },
    {
        let mut block = Block {
            number,
            timestamp,
            transactions,
            previous_hash,
            hash: String::new(),
            nonce: 0,
            difficulty,
            miner,
        };
        let ghost content = block@;
        if block.mine() {
            assert forall|n: u64| n < block.nonce implies !block@.sealed_by(n) by {
                assert(!content.sealed_by(n));
            }
            Some(block)
        } else {
            assert forall|n: u64|
                !seals(
                    number,
                    timestamp,
                    transaction_views(transactions@),
                    previous_hash@,
                    difficulty,
                    n,
                ) by {
                assert(!content.sealed_by(n));
            }
            None
        }
    }

    /// Builds a block of this content, stamped with the current time, and
    /// searches for its seal: see [`Block::new_at`], which does the work once
    /// the clock has been read.
    pub fn new(
        number: u64,
        transactions: Vec<Transaction>,
        previous_hash: String,
        difficulty: u32,
        miner: String,
    ) -> (mined: Option<Block>)
        ensures
            match mined {
                Some(block) => {
                    &&& block.number == number
                    &&& block@.transactions == transaction_views(transactions@)
                    &&& block.previous_hash@ == previous_hash@
                    &&& block.difficulty == difficulty
                    &&& block.miner@ == miner@
                    &&& block@.is_valid()
                    &&& block@.hash.len() == 64
                    &&& forall|n: u64| n < block.nonce ==> !block@.sealed_by(n)
                },
                None => exists|timestamp: u64|
                    unsealable(
                        number,
                        timestamp,
                        transaction_views(transactions@),
                        previous_hash@,
                        difficulty,
                    ),
            },
    {
        let timestamp = unix_seconds();
        Block::new_at(number, timestamp, transactions, previous_hash, difficulty, miner)
    }

    /// Checks the seal: the stored hash meets the difficulty and is the hash
    /// of the block as it stands.
    pub fn validate(&self) -> (valid: bool)
        ensures
            valid == self@.is_valid(),
    {
        if !has_leading_zeros(self.hash.as_str(), self.difficulty) {
            return false;
        }
        let expected = self.calculate_hash();
        self.hash == expected
    }
}

/// The joined hashes depend on nothing of the transactions but their stored
/// hashes.
pub proof fn lemma_joined_hashes_read_hashes_only(a: Seq<TransactionView>, b: Seq<TransactionView>)
    requires
        a.len() == b.len(),
        forall|i: int| 0 <= i < a.len() ==> (#[trigger] a[i]).hash == b[i].hash,
    ensures
        joined_hashes(a) == joined_hashes(b),
    decreases a.len(),
{
    if a.len() > 0 {
        lemma_joined_hashes_read_hashes_only(a.drop_last(), b.drop_last());
    }
}

/// The seal covers the transactions by their stored hashes: two blocks that
/// differ in their transactions only, hash for hash the same, are both valid
/// or both not. What else a transaction holds, its value among them, is covered
/// by the transaction's own hash and not by the block's.
pub proof fn lemma_seal_covers_stored_hashes(a: BlockView, b: BlockView)
    requires
        a.transactions.len() == b.transactions.len(),
        forall|i: int|
            0 <= i < a.transactions.len() ==> (#[trigger] a.transactions[i]).hash
                == b.transactions[i].hash,
        b == (BlockView { transactions: b.transactions, ..a }),
    ensures
        a.digest() == b.digest(),
        a.is_valid() == b.is_valid(),
{
    lemma_joined_hashes_read_hashes_only(a.transactions, b.transactions);
}

} // verus!
