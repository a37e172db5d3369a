use minichain::Transaction;

#[test]
fn test_transaction_creation() {
    let tx = Transaction::new("Alice".to_string(), "Bob".to_string(), 100, 0);
    assert_eq!(tx.from, "Alice");
    assert_eq!(tx.to, "Bob");
    assert_eq!(tx.value, 100);
    assert!(!tx.hash.is_empty());
}

#[test]
fn transaction_hash_is_the_digest_of_the_concatenated_fields() {
    // SHA-256 of "AliceBob1000"
    let tx = Transaction::new("Alice".to_string(), "Bob".to_string(), 100, 0);
    assert_eq!(tx.nonce, 0);
    assert_eq!(tx.hash, "2742d2fc27a24c28bb0ced90861ba2c88e5b97c2be5011bf1654306ccc4f0f98");
}

#[test]
fn transaction_hash_takes_the_utf8_bytes_of_the_addresses() {
    let tx = Transaction::new("Ålice".to_string(), "Bøb".to_string(), 1, 2);
    assert_eq!(tx.hash, "389c5bebbcaea689732c22d471d23b42bc913d4361251347ef3165f237786f38");
}

#[test]
fn transaction_hash_of_the_largest_numbers() {
    let tx = Transaction::new("a".to_string(), "b".to_string(), u64::MAX, u64::MAX);
    assert_eq!(tx.hash, "043e4b0fb84301fa617772885d02485fcce322893324e5f3388ebf8fe6f09732");
}

#[test]
fn equal_content_gives_equal_hashes() {
    let a = Transaction::new("Alice".to_string(), "Bob".to_string(), 100, 3);
    let b = Transaction::new("Alice".to_string(), "Bob".to_string(), 100, 3);
    assert_eq!(a.hash, b.hash);
}

#[test]
fn recomputing_reproduces_the_stored_hash() {
    let tx = Transaction::new("Bob".to_string(), "Charlie".to_string(), 50, 0);
    assert_eq!(tx.calculate_hash(), tx.hash);
    assert_eq!(tx.hash, "e3fd3e5d9a3280381c356b16d0cea600d189089aa9b4dd8f9c7e0c5cfd8efb40");
}

#[test]
fn an_altered_amount_no_longer_matches_the_stored_hash() {
    let mut tx = Transaction::new("Alice".to_string(), "Bob".to_string(), 100, 0);
    tx.value = 150;
    assert_eq!(tx.hash, "2742d2fc27a24c28bb0ced90861ba2c88e5b97c2be5011bf1654306ccc4f0f98");
    assert_eq!(
        tx.calculate_hash(),
        "99759e5957988d20e249da0c52f1f44540a950b40b1b5475674fc3f448de6779"
    );
}

#[test]
fn a_clone_has_the_same_fields() {
    let tx = Transaction::new("Alice".to_string(), "Bob".to_string(), 100, 7);
    let copy = tx.clone();
    assert_eq!(copy.from, tx.from);
    assert_eq!(copy.to, tx.to);
    assert_eq!(copy.value, tx.value);
    assert_eq!(copy.nonce, tx.nonce);
    assert_eq!(copy.hash, tx.hash);
}

#[test]
fn any_strings_and_numbers_are_accepted() {
    let tx = Transaction::new(String::new(), String::new(), 0, 0);
    // SHA-256 of "00"
    assert_eq!(tx.hash.len(), 64);
    assert_eq!(tx.calculate_hash(), tx.hash);
}
