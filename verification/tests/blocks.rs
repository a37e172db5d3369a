use minichain::{Block, Transaction};

#[test]
fn test_block_mining() {
    let tx = Transaction::new("Alice".to_string(), "Bob".to_string(), 100, 0);
    let block = Block::new(1, vec![tx], "previous_hash".to_string(), 2, "miner".to_string())
        .expect("some nonce seals the block");

    assert!(block.hash.starts_with("00"));
    assert!(block.validate());
}

#[test]
fn mining_at_a_given_time_finds_the_least_nonce() {
    let tx = Transaction::new("Alice".to_string(), "Bob".to_string(), 100, 0);
    let block =
        Block::new_at(1, 1700000000, vec![tx], "previous_hash".to_string(), 2, "miner".to_string())
            .expect("some nonce seals the block");
    assert_eq!(block.nonce, 92);
    assert_eq!(block.hash, "0092f9f85aa8a97fca8d2978c12140e068cf0173aa287f270414c9271ad93b85");
    assert!(block.validate());
}

#[test]
fn a_mined_block_keeps_what_it_was_given() {
    let tx = Transaction::new("Alice".to_string(), "Bob".to_string(), 100, 0);
    let block =
        Block::new_at(1, 1700000000, vec![tx], "previous_hash".to_string(), 2, "miner".to_string())
            .expect("some nonce seals the block");
    assert_eq!(block.number, 1);
    assert_eq!(block.timestamp, 1700000000);
    assert_eq!(block.transactions.len(), 1);
    assert_eq!(block.transactions[0].from, "Alice");
    assert_eq!(block.previous_hash, "previous_hash");
    assert_eq!(block.difficulty, 2);
    assert_eq!(block.miner, "miner");
}

#[test]
fn a_block_without_transactions_is_mined_like_any_other() {
    let block = Block::new_at(0, 1700000000, vec![], "0".to_string(), 1, "genesis".to_string())
        .expect("some nonce seals the block");
    assert_eq!(block.nonce, 14);
    assert_eq!(block.hash, "03df85ebd5ebc48446a3acbf849d14871de183777c746691421315bac5961fc3");
    assert!(block.validate());
}

#[test]
fn difficulty_zero_takes_the_first_nonce() {
    let block = Block::new_at(0, 5, vec![], "0".to_string(), 0, "genesis".to_string())
        .expect("nonce 0 seals the block");
    assert_eq!(block.nonce, 0);
    assert_eq!(block.hash, "abe7e80850b4460618ffcfb684906568924c9afe6f07a3fb48c588c554290e1b");
    assert!(block.validate());
}

#[test]
fn difficulty_three_asks_for_three_zeros() {
    let block = Block::new_at(0, 1700000000, vec![], "0".to_string(), 3, "genesis".to_string())
        .expect("some nonce seals the block");
    assert_eq!(block.nonce, 6441);
    assert_eq!(block.hash, "00072559f65ab7a5e6bc94a7f0bab304ab34e5823e4dafa016e7939b98e1584b");
}

#[test]
fn the_hash_covers_the_transactions_in_order() {
    let a = Transaction::new("Alice".to_string(), "Bob".to_string(), 100, 0);
    let b = Transaction::new("Bob".to_string(), "Charlie".to_string(), 50, 0);
    let genesis_hash = "00c6a72ce80551757002040403f90906b5c12c3efce224bf09e85e8e73ddcc5e";
    let block =
        Block::new_at(1, 1700000500, vec![a, b], genesis_hash.to_string(), 2, "Miner1".to_string())
            .expect("some nonce seals the block");
    assert_eq!(block.nonce, 37);
    assert_eq!(block.hash, "0089a97eda58424b1a5ebb06811eac87d27c12a3fea51424396c0bfb91f912ce");

    let mut swapped = block.clone();
    swapped.transactions.swap(0, 1);
    assert_ne!(swapped.calculate_hash(), block.hash);
    assert!(!swapped.validate());
}

#[test]
fn recomputing_reproduces_the_hash_of_a_mined_block() {
    let block = Block::new_at(3, 42, vec![], "abc".to_string(), 1, "m".to_string())
        .expect("some nonce seals the block");
    assert_eq!(block.calculate_hash(), block.hash);
}

#[test]
fn a_stale_hash_is_not_valid() {
    let mut block = Block::new_at(0, 1700000000, vec![], "0".to_string(), 1, "genesis".to_string())
        .expect("some nonce seals the block");
    block.nonce += 1;
    assert!(!block.validate());
}

#[test]
fn a_forged_hash_is_not_valid() {
    let mut block = Block::new_at(0, 1700000000, vec![], "0".to_string(), 1, "genesis".to_string())
        .expect("some nonce seals the block");
    block.hash = "0000000000000000000000000000000000000000000000000000000000000000".to_string();
    assert!(!block.validate());
}

#[test]
fn a_true_hash_below_the_difficulty_is_not_valid() {
    let mut block = Block::new_at(0, 1700000000, vec![], "0".to_string(), 1, "genesis".to_string())
        .expect("some nonce seals the block");
    // The hash starts with one zero only.
    block.difficulty = 2;
    assert_eq!(block.calculate_hash(), block.hash);
    assert!(!block.validate());
}

#[test]
fn the_miner_is_not_part_of_the_hash() {
    let mut block = Block::new_at(0, 1700000000, vec![], "0".to_string(), 1, "genesis".to_string())
        .expect("some nonce seals the block");
    block.miner = "someone else".to_string();
    assert!(block.validate());
}

#[test]
fn a_clone_of_a_block_is_valid_too() {
    let tx = Transaction::new("Alice".to_string(), "Bob".to_string(), 100, 0);
    let block =
        Block::new_at(1, 1700000000, vec![tx], "previous_hash".to_string(), 2, "miner".to_string())
            .expect("some nonce seals the block");
    let copy = block.clone();
    assert_eq!(copy.hash, block.hash);
    assert_eq!(copy.nonce, block.nonce);
    assert_eq!(copy.transactions.len(), 1);
    assert!(copy.validate());
}

#[test]
fn the_search_resumes_from_the_nonce_of_the_block() {
    let mut block = Block::new_at(0, 1700000000, vec![], "0".to_string(), 1, "genesis".to_string())
        .expect("some nonce seals the block");
    assert_eq!(block.nonce, 14);
    // Already sealed: the search stops where it starts.
    assert!(block.mine());
    assert_eq!(block.nonce, 14);

    block.nonce = 3;
    assert!(block.mine());
    assert_eq!(block.nonce, 14);
    assert_eq!(block.hash, "03df85ebd5ebc48446a3acbf849d14871de183777c746691421315bac5961fc3");
}

#[test]
fn the_search_ends_with_the_last_nonce() {
    // A hash has 64 characters, so 65 zeros are out of reach for every nonce.
    let mut block = Block::new_at(0, 1700000000, vec![], "0".to_string(), 0, "genesis".to_string())
        .expect("nonce 0 seals the block");
    block.difficulty = 65;
    block.nonce = u64::MAX - 2;
    assert!(!block.mine());
    assert_eq!(block.nonce, u64::MAX);
    assert_eq!(block.hash, block.calculate_hash());
    assert!(!block.validate());
}
