//! Transactions: an intent to move value, named by the hash of its content.

use crate::digest::{hash_hex, sha256_hex};
use crate::encoding::{decimal, push_decimal, push_text, utf8};
use vstd::prelude::*;

verus! {

/// The bytes that a transaction's hash is taken over: sender, receiver, value
/// and nonce, the two numbers in decimal, with nothing between the parts.
pub open spec fn transaction_preimage(
    from: Seq<char>,
    to: Seq<char>,
    value: u64,
    nonce: u64,
) -> Seq<u8> {
    utf8(from) + utf8(to) + decimal(value as nat) + decimal(nonce as nat)
}

/// The hash of a transaction with this content.
pub open spec fn transaction_hash(
    from: Seq<char>,
    to: Seq<char>,
    value: u64,
    nonce: u64,
) -> Seq<char> {
    hash_hex(transaction_preimage(from, to, value, nonce))
}

/// A transfer of `value` from `from` to `to`, with the sender's nonce at the
/// time of submission and the hash that identifies it.
#[derive(Debug)]
pub struct Transaction {
    pub from: String,
    pub to: String,
    pub value: u64,
    pub nonce: u64,
    pub hash: String,
}

/// What a transaction is, mathematically.
pub struct TransactionView {
    pub from: Seq<char>,
    pub to: Seq<char>,
    pub value: u64,
    pub nonce: u64,
    pub hash: Seq<char>,
}

impl TransactionView {
    /// The hash that the content calls for.
    pub open spec fn digest(self) -> Seq<char> {
        transaction_hash(self.from, self.to, self.value, self.nonce)
    }

    /// Whether the stored hash is the hash of the content.
    pub open spec fn authentic(self) -> bool {
        self.hash == self.digest()
    }
}

impl View for Transaction {
    type V = TransactionView;

    open spec fn view(&self) -> TransactionView {
        TransactionView {
            from: self.from@,
            to: self.to@,
            value: self.value,
            nonce: self.nonce,
            hash: self.hash@,
        }
    }
}

/// The mathematical content of a list of transactions.
pub open spec fn transaction_views(transactions: Seq<Transaction>) -> Seq<TransactionView> {
    transactions.map_values(|tx: Transaction| tx@)
}

impl Clone for Transaction {
    fn clone(&self) -> (copy: Self)
        ensures
            copy@ == self@,
    {
        Transaction {
            from: self.from.clone(),
            to: self.to.clone(),
            value: self.value,
            nonce: self.nonce,
            hash: self.hash.clone(),
        }
    }
}

impl Transaction {
    /// Builds a transaction and computes its hash. Any sender, receiver, value
    /// and nonce are accepted: whether the transfer can be made is decided
    /// where it is submitted and where it is applied.
    pub fn new(from: String, to: String, value: u64, nonce: u64) -> (tx: Self)
        ensures
            tx@ == (TransactionView {
                from: from@,
                to: to@,
                value,
                nonce,
                hash: transaction_hash(from@, to@, value, nonce),
            }),
            tx@.hash.len() == 64,
    {
        let mut tx = Transaction { from, to, value, nonce, hash: String::new() };
        tx.hash = tx.calculate_hash();
        tx
    }

    /// Computes the hash of the content anew, whatever `hash` holds.
    pub fn calculate_hash(&self) -> (hash: String)
        ensures
            hash@ == self@.digest(),
            hash@.len() == 64,
    {
        let mut data: Vec<u8> = Vec::new();
        push_text(&mut data, self.from.as_str());
        push_text(&mut data, self.to.as_str());
        push_decimal(&mut data, self.value);
        push_decimal(&mut data, self.nonce);
        sha256_hex(data.as_slice())
    }
}

/// The hash is a function of the content: two authentic transactions with the
/// same sender, receiver, value and nonce carry the same hash.
pub proof fn lemma_hash_is_determined(a: TransactionView, b: TransactionView)
    requires
        a.authentic(),
        b.authentic(),
        a.from == b.from,
        a.to == b.to,
        a.value == b.value,
        a.nonce == b.nonce,
    ensures
        a.hash == b.hash,
        a == b,
{
}

} // verus!
