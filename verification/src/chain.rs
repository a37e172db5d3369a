//! The blockchain: the committed state, the queue of pending transactions and
//! the chain of mined blocks.

use crate::block::{block_views, unsealable, Block, BlockView};
use crate::clock::unix_seconds;
use crate::error::Error;
use crate::state::{
    balance_of, created, distinct, has_room, lemma_total_bounds_transfers,
    lemma_transfer_effect, nonce_of, refusal, total_balance, transfer_fits, transferred,
    AccountView, WorldState,
};
use crate::transaction::{transaction_hash, transaction_views, Transaction, TransactionView};
use vstd::prelude::*;

verus! {

/// A transaction that was dropped when it was applied, and why.
#[derive(Debug)]
pub struct Rejection {
    /// The hash of the transaction.
    pub hash: String,
    /// Why its transfer was refused.
    pub reason: Error,
}

/// What a rejection is, mathematically.
pub struct RejectionView {
    pub hash: Seq<char>,
    pub reason: Error,
}

impl View for Rejection {
    type V = RejectionView;

    open spec fn view(&self) -> RejectionView {
        RejectionView { hash: self.hash@, reason: self.reason }
    }
}

/// The mathematical content of a list of rejections.
pub open spec fn rejection_views(rejections: Seq<Rejection>) -> Seq<RejectionView> {
    rejections.map_values(|r: Rejection| r@)
}

/// What replaying a queue of transactions leaves behind.
pub struct Replay {
    /// The state after the transfers that went through.
    pub state: Seq<AccountView>,
    /// The transactions whose transfer went through, in the queue's order.
    pub accepted: Seq<TransactionView>,
    /// The transactions whose transfer was refused, in the queue's order.
    pub rejected: Seq<RejectionView>,
}

/// Replays `queue` on `state`, first in first out: each transaction's transfer
/// is applied to the state that its predecessors left; one that is refused is
/// dropped and changes nothing.
pub open spec fn replay(state: Seq<AccountView>, queue: Seq<TransactionView>) -> Replay
    decreases queue.len(),
{
    if queue.len() == 0 {
        Replay { state, accepted: Seq::empty(), rejected: Seq::empty() }
    } else {
        let before = replay(state, queue.drop_last());
        let tx = queue.last();
        match refusal(before.state, tx.from, tx.value as nat) {
            None => Replay {
                state: transferred(before.state, tx.from, tx.to, tx.value as nat),
                accepted: before.accepted.push(tx),
                rejected: before.rejected,
            },
            Some(reason) => Replay {
                state: before.state,
                accepted: before.accepted,
                rejected: before.rejected.push(RejectionView { hash: tx.hash, reason }),
            },
        }
    }
}

/// Whether every transfer of the replay stays within `u64`.
pub open spec fn replay_fits(state: Seq<AccountView>, queue: Seq<TransactionView>) -> bool
    decreases queue.len(),
{
    queue.len() > 0 ==> {
        let tx = queue.last();
        &&& replay_fits(state, queue.drop_last())
        &&& transfer_fits(
            replay(state, queue.drop_last()).state,
            tx.from,
            tx.to,
            tx.value as nat,
        )
    }
}

/// Every block after the first is valid and names the hash of the block
/// before it. The first block is taken as it is.
pub open spec fn chain_valid(chain: Seq<BlockView>) -> bool {
    forall|i: int|
        1 <= i < chain.len() ==> (#[trigger] chain[i]).is_valid() && chain[i].previous_hash
            == chain[i - 1].hash
}

/// What the caller of a mining function gets, with the block as its view.
pub open spec fn outcome(result: Result<Block, Error>) -> Result<BlockView, Error> {
    match result {
        Ok(block) => Ok(block@),
        Err(e) => Err(e),
    }
}

/// The accounts that every new blockchain starts with.
pub open spec fn seeded_state() -> Seq<AccountView> {
    created(
        created(created(Seq::empty(), "Alice"@, 1000), "Bob"@, 1000),
        "Charlie"@,
        1000,
    )
}

/// A chain of blocks, the state that they have led to, and the transactions
/// that wait for the next block.
#[derive(Debug)]
pub struct Blockchain {
    pub chain: Vec<Block>,
    pub pending_transactions: Vec<Transaction>,
    pub state: WorldState,
    pub difficulty: u32,
}

/// What a blockchain is, mathematically.
pub struct BlockchainView {
    pub chain: Seq<BlockView>,
    pub pending: Seq<TransactionView>,
    pub state: Seq<AccountView>,
    pub difficulty: u32,
}

impl View for Blockchain {
    type V = BlockchainView;

    open spec fn view(&self) -> BlockchainView {
        BlockchainView {
            chain: block_views(self.chain@),
            pending: transaction_views(self.pending_transactions@),
            state: self.state@,
            difficulty: self.difficulty,
        }
    }
}

impl BlockchainView {
    /// Whether `genesis` is the first block of a chain started at `timestamp`:
    /// number 0, no transactions, previous hash `"0"`, sealed at the chain's
    /// difficulty with the least nonce that does.
    pub open spec fn starts_with(self, genesis: BlockView, timestamp: u64) -> bool {
        &&& genesis.number == 0
        &&& genesis.timestamp == timestamp
        &&& genesis.transactions == Seq::<TransactionView>::empty()
        &&& genesis.previous_hash == "0"@
        &&& genesis.difficulty == self.difficulty
        &&& genesis.miner == "genesis"@
        &&& genesis.is_valid()
        &&& forall|n: u64| n < genesis.nonce ==> !genesis.sealed_by(n)
    }

    /// Whether `self` is a blockchain freshly started at `timestamp`.
    pub open spec fn is_fresh(self, difficulty: u32, timestamp: u64) -> bool {
        &&& self.difficulty == difficulty
        &&& self.chain.len() == 1
        &&& self.starts_with(self.chain[0], timestamp)
        &&& self.pending == Seq::<TransactionView>::empty()
        &&& self.state == seeded_state()
    }

    /// Whether the pending transactions can be mined: the chain holds its
    /// genesis block and the replay stays within `u64`.
    pub open spec fn can_mine(self) -> bool {
        &&& self.pending.len() > 0 ==> self.chain.len() > 0
        &&& replay_fits(self.state, self.pending)
    }

    /// Whether `block` is what mining at `timestamp` for `miner` puts on top
    /// of this chain when `accepted` are the transactions that went through.
    pub open spec fn is_next_block(
        self,
        block: BlockView,
        accepted: Seq<TransactionView>,
        miner: Seq<char>,
        timestamp: u64,
    ) -> bool {
        &&& block.number == self.chain.len()
        &&& block.timestamp == timestamp
        &&& block.transactions == accepted
        &&& block.previous_hash == self.chain.last().hash
        &&& block.difficulty == self.difficulty
        &&& block.miner == miner
        &&& block.is_valid()
        &&& forall|n: u64| n < block.nonce ==> !block.sealed_by(n)
    }

    /// What mining the pending transactions at `timestamp` does: `self` is the
    /// blockchain before, `after` the blockchain afterwards, `result` what the
    /// caller gets.
    ///
    /// With nothing pending, nothing happens. Otherwise the queue is replayed
    /// on the state and emptied, whatever comes next. If no transaction went
    /// through, or if no nonce seals the block, the chain stays as it is;
    /// else the new block is appended and returned.
    pub open spec fn mined(
        self,
        miner: Seq<char>,
        timestamp: u64,
        after: BlockchainView,
        result: Result<BlockView, Error>,
    ) -> bool {
        let replayed = replay(self.state, self.pending);
        if self.pending.len() == 0 {
            after == self && result == Err::<BlockView, Error>(Error::EmptyQueue)
        } else {
            &&& after.difficulty == self.difficulty
            &&& after.pending == Seq::<TransactionView>::empty()
            &&& after.state == replayed.state
            &&& if replayed.accepted.len() == 0 {
                after.chain == self.chain && result == Err::<BlockView, Error>(
                    Error::AllTransactionsInvalid,
                )
            } else {
                match result {
                    Ok(block) => {
                        &&& after.chain == self.chain.push(block)
                        &&& self.is_next_block(block, replayed.accepted, miner, timestamp)
                    },
                    Err(e) => {
                        &&& e == Error::NonceSpaceExhausted
                        &&& after.chain == self.chain
                        &&& unsealable(
                            self.chain.len() as u64,
                            timestamp,
                            replayed.accepted,
                            self.chain.last().hash,
                            self.difficulty,
                        )
                    },
                }
            }
        }
    }
}

impl Blockchain {
    /// Starts a blockchain at the current time: see [`Blockchain::new_at`],
    /// which does the work once the clock has been read.
    pub fn new(difficulty: u32) -> (made: Option<Self>)
        ensures
            match made {
                Some(blockchain) => {
                    &&& exists|timestamp: u64| #[trigger]
                        blockchain@.is_fresh(difficulty, timestamp)
                    &&& chain_valid(blockchain@.chain)
                },
                None => exists|timestamp: u64| #[trigger]
                    unsealable(0, timestamp, Seq::empty(), "0"@, difficulty),
            },
    {
        let timestamp = unix_seconds();
        Blockchain::new_at(difficulty, timestamp)
    }

    /// Starts a blockchain at `timestamp`: mines the genesis block at
    /// `difficulty` and seeds the three founding accounts with 1000 each.
    /// There is no blockchain where no nonce seals the genesis block.
    pub fn new_at(difficulty: u32, timestamp: u64) -> (made: Option<Self>)
        ensures
            match made {
                Some(blockchain) => {
                    &&& blockchain@.is_fresh(difficulty, timestamp)
                    &&& chain_valid(blockchain@.chain)
                },
                None => unsealable(0, timestamp, Seq::empty(), "0"@, difficulty),
            },
    {
        let mut blockchain = Blockchain {
            chain: Vec::new(),
            pending_transactions: Vec::new(),
            state: WorldState::new(),
            difficulty,
        };
        if blockchain.create_genesis_block(timestamp) {
            Some(blockchain)
        } else {
            None
        }
    }

    /// Mines the genesis block, puts it first in the chain and seeds the
    /// founding accounts. Does nothing, and says so, where no nonce seals it.
    fn create_genesis_block(&mut self, timestamp: u64) -> (done: bool)
        requires
            old(self)@.chain.len() == 0,
            old(self)@.pending.len() == 0,
            old(self)@.state.len() == 0,
        ensures
            done ==> final(self)@.is_fresh(old(self).difficulty, timestamp),
            !done ==> unsealable(0, timestamp, Seq::empty(), "0"@, old(self).difficulty),
    {
        let mined = Block::new_at(
            0,
            timestamp,
            Vec::new(),
            "0".to_owned(),
            self.difficulty,
            "genesis".to_owned(),
        );
        assert(transaction_views(Seq::<Transaction>::empty()) =~= Seq::<TransactionView>::empty());
        match mined {
            None => false,
            Some(genesis) => {
                self.chain.push(genesis);
                assert(self@.state =~= Seq::<AccountView>::empty());
                self.state.create_account("Alice".to_owned(), 1000);
                self.state.create_account("Bob".to_owned(), 1000);
                self.state.create_account("Charlie".to_owned(), 1000);
                assert(self@.pending =~= Seq::<TransactionView>::empty());
                true
            },
        }
    }

    /// Queues a transfer of `value` from `from` to `to`, under the sender's
    /// committed nonce, and returns the hash of the new transaction. The only
    /// test is against the sender's committed balance: what else is pending
    /// does not count. A sender whose balance is less than `value` is refused
    /// and nothing changes.
    pub fn add_transaction(&mut self, from: String, to: String, value: u64) -> (result: Result<
        String,
        Error,
    >)
        ensures
            ({
                let before = old(self)@;
                let balance = balance_of(before.state, from@);
                let nonce = nonce_of(before.state, from@) as u64;
                let hash = transaction_hash(from@, to@, value, nonce);
                match result {
                    Ok(text) => {
                        &&& balance >= value
                        &&& text@ == hash
                        &&& text@.len() == 64
                        &&& final(self)@ == (BlockchainView {
                            pending: before.pending.push(
                                TransactionView { from: from@, to: to@, value, nonce, hash },
                            ),
                            ..before
                        })
                    },
                    Err(e) => {
                        &&& balance < value
                        &&& e == (Error::InsufficientBalance { balance: balance as u64, needed: value })
                        &&& final(self)@ == before
                    },
                }
            }),
    {
        let balance = self.state.get_balance(from.as_str());
        if balance < value {
            return Err(Error::InsufficientBalance { balance, needed: value });
        }
        let nonce = self.state.get_nonce(from.as_str());
        let tx = Transaction::new(from, to, value, nonce);
        let hash = tx.hash.clone();
        self.pending_transactions.push(tx);
        assert(self@.pending =~= old(self)@.pending.push(tx@));
        Ok(hash)
    }

    /// Mines the pending transactions into a block stamped with the current
    /// time: see [`Blockchain::mine_pending_transactions_at`], which does the
    /// work once the clock has been read, and which also reports the
    /// transactions that were dropped.
    pub fn mine_pending_transactions(&mut self, miner: String) -> (result: Result<Block, Error>)
        requires
            old(self)@.can_mine(),
        ensures
            exists|timestamp: u64| #[trigger]
                old(self)@.mined(
                    miner@,
                    timestamp,
                    final(self)@,
                    outcome(result),
                ),
            chain_valid(old(self)@.chain) ==> chain_valid(final(self)@.chain),
            total_balance(final(self)@.state) == total_balance(old(self)@.state),
    {
        let timestamp = unix_seconds();
        let (result, _) = self.mine_pending_transactions_at(miner, timestamp);
        assert(old(self)@.mined(miner@, timestamp, self@, outcome(result)));
        result
    }

    /// Mines the pending transactions into a block stamped `timestamp`.
    ///
    /// Refuses with `EmptyQueue` if nothing is pending. Otherwise the queue
    /// is emptied and replayed on the state in its order; a transaction whose
    /// transfer is refused is dropped, and the transfers made before and
    /// after it stand. If none went through, the result is
    /// `AllTransactionsInvalid`. Otherwise the accepted transactions go into
    /// a new block on top of the chain, sealed at the chain's difficulty; the
    /// block is appended and a copy of it returned. Where no nonce seals the
    /// block the result is `NonceSpaceExhausted` and the chain stays as it
    /// is. [`BlockchainView::mined`] says all of this exactly.
    ///
    /// Beside the result stand the transactions that were dropped, each with
    /// the reason, in the order of the queue.
    ///
    /// The chain must hold its genesis block, and the replay must stay within
    /// `u64` (see [`lemma_limits_suffice`] for when it is sure to).
    pub fn mine_pending_transactions_at(&mut self, miner: String, timestamp: u64) -> (report: (
        Result<Block, Error>,
        Vec<Rejection>,
    ))
        requires
            old(self)@.can_mine(),
        ensures
            old(self)@.mined(miner@, timestamp, final(self)@, outcome(report.0)),
            rejection_views(report.1@) == replay(old(self)@.state, old(self)@.pending).rejected,
            chain_valid(old(self)@.chain) ==> chain_valid(final(self)@.chain),
            total_balance(final(self)@.state) == total_balance(old(self)@.state),
    {
        proof {
            use_type_invariant(&self.state);
            lemma_replay_conserves(self@.state, self@.pending);
        }
        let mut rejected: Vec<Rejection> = Vec::new();
        if self.pending_transactions.len() == 0 {
            return (Err(Error::EmptyQueue), rejected);
        }
        let previous_hash = self.chain[self.chain.len() - 1].hash.clone();
        let block_number = self.chain.len() as u64;

        let mut queue: Vec<Transaction> = Vec::new();
        std::mem::swap(&mut queue, &mut self.pending_transactions);
        let ghost start = old(self)@.state;
        let ghost pending = old(self)@.pending;

        let mut valid_transactions: Vec<Transaction> = Vec::new();
        let mut i: usize = 0;
        while i < queue.len()
            invariant
                i <= queue@.len(),
                pending == transaction_views(queue@),
                replay_fits(start, pending),
                self.state@ == replay(start, pending.take(i as int)).state,
                transaction_views(valid_transactions@) == replay(
                    start,
                    pending.take(i as int),
                ).accepted,
                rejection_views(rejected@) == replay(start, pending.take(i as int)).rejected,
                self.chain == old(self).chain,
                self.difficulty == old(self).difficulty,
                self.pending_transactions@.len() == 0,
            decreases queue@.len() - i,
        {
            let tx = &queue[i];
            proof {
                let upto = pending.take(i + 1);
                assert(upto.drop_last() =~= pending.take(i as int));
                lemma_replay_fits_prefix(start, pending, i + 1);
            }
            match self.state.transfer(tx.from.as_str(), tx.to.as_str(), tx.value) {
                Ok(_) => {
                    valid_transactions.push(tx.clone());
                    assert(transaction_views(valid_transactions@) =~= replay(
                        start,
                        pending.take(i + 1),
                    ).accepted);
                },
                Err(reason) => {
                    rejected.push(Rejection { hash: tx.hash.clone(), reason });
                    assert(rejection_views(rejected@) =~= replay(
                        start,
                        pending.take(i + 1),
                    ).rejected);
                },
            }
            i += 1;
        }
        assert(pending.take(i as int) =~= pending);
        assert(self@.pending =~= Seq::<TransactionView>::empty());

        if valid_transactions.len() == 0 {
            return (Err(Error::AllTransactionsInvalid), rejected);
        }
        let mined = Block::new_at(
            block_number,
            timestamp,
            valid_transactions,
            previous_hash,
            self.difficulty,
            miner,
        );
        match mined {
            None => (Err(Error::NonceSpaceExhausted), rejected),
            Some(block) => {
                self.chain.push(block.clone());
                proof {
                    assert(self@.chain =~= old(self)@.chain.push(block@));
                    if chain_valid(old(self)@.chain) {
                        lemma_extension_is_valid(old(self)@.chain, block@);
                    }
                }
                (Ok(block), rejected)
            },
        }
    }

    /// A test that is enough for mining: the chain is not empty, the total of
    /// all balances fits in `u64`, and every nonce has room for as many steps
    /// as there are pending transactions.
    pub fn has_room_to_mine(&self) -> (ok: bool)
        ensures
            ok == (self@.chain.len() > 0 && has_room(self@.state, self@.pending.len())),
            ok ==> self@.can_mine(),
    {
        let ok = self.chain.len() > 0 && self.state.has_room_for(self.pending_transactions.len());
        proof {
            if ok {
                use_type_invariant(&self.state);
                lemma_room_suffices(self@.state, self@.pending);
            }
        }
        ok
    }

    /// Checks every block after the first: it must be valid and name the hash
    /// of the block before it.
    pub fn validate_chain(&self) -> (valid: bool)
        ensures
            valid == chain_valid(self@.chain),
    {
        let mut i: usize = 1;
        while i < self.chain.len()
            invariant
                1 <= i,
                forall|k: int|
                    1 <= k < i && k < self@.chain.len() ==> (#[trigger] self@.chain[k]).is_valid()
                        && self@.chain[k].previous_hash == self@.chain[k - 1].hash,
            decreases self.chain@.len() - i,
        {
            let current_block = &self.chain[i];
            let previous_block = &self.chain[i - 1];
            assert(current_block@ == self@.chain[i as int]);
            if !current_block.validate() {
                return false;
            }
            if current_block.previous_hash != previous_block.hash {
                return false;
            }
            i += 1;
        }
        true
    }

    /// The block with this number, if the chain is that long.
    pub fn get_block(&self, number: u64) -> (block: Option<&Block>)
        ensures
            match block {
                Some(b) => number < self.chain@.len() && *b == self.chain@[number as int],
                None => number >= self.chain@.len(),
            },
    {
        if number < self.chain.len() as u64 {
            Some(&self.chain[number as usize])
        } else {
            None
        }
    }

    /// The number of blocks, the genesis block included.
    pub fn get_chain_length(&self) -> (length: usize)
        ensures
            length == self@.chain.len(),
    {
        self.chain.len()
    }
}

/// Replaying a queue keeps the addresses distinct and the total of all
/// balances what it was, and moves no nonce on by more than the length of
/// the queue; every transaction of the queue is either accepted or rejected.
pub proof fn lemma_replay_conserves(state: Seq<AccountView>, queue: Seq<TransactionView>)
    requires
        distinct(state),
    ensures
        distinct(replay(state, queue).state),
        total_balance(replay(state, queue).state) == total_balance(state),
        replay(state, queue).accepted.len() + replay(state, queue).rejected.len() == queue.len(),
        forall|a: Seq<char>| #[trigger]
            nonce_of(replay(state, queue).state, a) <= nonce_of(state, a) + queue.len(),
    decreases queue.len(),
{
    if queue.len() > 0 {
        let before = replay(state, queue.drop_last());
        let tx = queue.last();
        lemma_replay_conserves(state, queue.drop_last());
        if refusal(before.state, tx.from, tx.value as nat) is None {
            lemma_transfer_effect(before.state, tx.from, tx.to, tx.value as nat);
        }
    }
}

/// A replay stays within `u64` whenever the total of all balances does and
/// every nonce has room for as many steps as the queue is long.
pub proof fn lemma_limits_suffice(state: Seq<AccountView>, queue: Seq<TransactionView>)
    requires
        distinct(state),
        total_balance(state) <= u64::MAX,
        forall|a: Seq<char>| #[trigger] nonce_of(state, a) + queue.len() <= u64::MAX,
    ensures
        replay_fits(state, queue),
    decreases queue.len(),
{
    if queue.len() > 0 {
        let rest = queue.drop_last();
        let tx = queue.last();
        lemma_limits_suffice(state, rest);
        lemma_replay_conserves(state, rest);
        let before = replay(state, rest).state;
        lemma_total_bounds_transfers(before, tx.from, tx.to, tx.value as nat);
    }
}

/// A state with room for as many steps as the queue is long replays it within
/// `u64`.
pub proof fn lemma_room_suffices(state: Seq<AccountView>, queue: Seq<TransactionView>)
    requires
        distinct(state),
        has_room(state, queue.len()),
    ensures
        replay_fits(state, queue),
{
    lemma_limits_suffice(state, queue);
}

/// A replay that stays within `u64` does so up to any point of the queue.
pub proof fn lemma_replay_fits_prefix(
    state: Seq<AccountView>,
    queue: Seq<TransactionView>,
    k: int,
)
    requires
        replay_fits(state, queue),
        0 <= k <= queue.len(),
    ensures
        replay_fits(state, queue.take(k)),
    decreases queue.len(),
{
    if k == queue.len() {
        assert(queue.take(k) =~= queue);
    } else {
        assert(queue.take(k) =~= queue.drop_last().take(k));
        lemma_replay_fits_prefix(state, queue.drop_last(), k);
    }
}

/// A valid chain stays valid under a valid block that names the hash of its
/// last block.
pub proof fn lemma_extension_is_valid(chain: Seq<BlockView>, block: BlockView)
    requires
        chain_valid(chain),
        chain.len() > 0,
        block.is_valid(),
        block.previous_hash == chain.last().hash,
    ensures
        chain_valid(chain.push(block)),
{
}

/// A freshly started blockchain has a valid chain.
pub proof fn lemma_fresh_chain_is_valid(fresh: BlockchainView, difficulty: u32, timestamp: u64)
    requires
        fresh.is_fresh(difficulty, timestamp),
    ensures
        chain_valid(fresh.chain),
{
}

/// Mining keeps a valid chain valid, whatever its outcome: a chain built from
/// a fresh one by mining alone is valid at every step.
pub proof fn lemma_mining_keeps_the_chain_valid(
    before: BlockchainView,
    miner: Seq<char>,
    timestamp: u64,
    after: BlockchainView,
    result: Result<BlockView, Error>,
)
    requires
        chain_valid(before.chain),
        before.mined(miner, timestamp, after, result),
    ensures
        chain_valid(after.chain),
{
    if after.chain != before.chain && before.chain.len() > 0 {
        lemma_extension_is_valid(before.chain, result->Ok_0);
    }
}

/// Mining moves value between accounts and neither makes nor destroys any:
/// the total of all balances is the same before and after.
pub proof fn lemma_mining_conserves_the_total(
    before: BlockchainView,
    miner: Seq<char>,
    timestamp: u64,
    after: BlockchainView,
    result: Result<BlockView, Error>,
)
    requires
        distinct(before.state),
        before.mined(miner, timestamp, after, result),
    ensures
        distinct(after.state),
        total_balance(after.state) == total_balance(before.state),
{
    lemma_replay_conserves(before.state, before.pending);
}

/// A chain in which a block after the first names another hash than that of
/// the block before it is not valid.
pub proof fn lemma_broken_link_is_rejected(chain: Seq<BlockView>, i: int)
    requires
        1 <= i < chain.len(),
        chain[i].previous_hash != chain[i - 1].hash,
    ensures
        !chain_valid(chain),
{
}

/// Forging the previous hash of any block but the first makes a valid chain
/// invalid.
pub proof fn lemma_forged_previous_hash_is_rejected(
    chain: Seq<BlockView>,
    i: int,
    forged: Seq<char>,
)
    requires
        chain_valid(chain),
        1 <= i < chain.len(),
        forged != chain[i].previous_hash,
    ensures
        !chain_valid(chain.update(i, BlockView { previous_hash: forged, ..chain[i] })),
{
    let tampered = chain.update(i, BlockView { previous_hash: forged, ..chain[i] });
    assert(tampered[i].previous_hash != tampered[i - 1].hash);
}

} // verus!
