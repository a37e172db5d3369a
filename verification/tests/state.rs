use minichain::{Error, WorldState};

fn total(state: &WorldState) -> u128 {
    state.all_accounts().iter().map(|a| a.balance as u128).sum()
}

#[test]
fn test_state_transfer() {
    let mut state = WorldState::new();
    state.create_account("Alice".to_string(), 1000);
    state.create_account("Bob".to_string(), 500);

    assert!(state.transfer("Alice", "Bob", 200).is_ok());
    assert_eq!(state.get_balance("Alice"), 800);
    assert_eq!(state.get_balance("Bob"), 700);
}

#[test]
fn test_insufficient_balance() {
    let mut state = WorldState::new();
    state.create_account("Alice".to_string(), 100);

    assert!(state.transfer("Alice", "Bob", 200).is_err());
}

#[test]
fn a_new_state_has_no_accounts() {
    let state = WorldState::new();
    assert!(state.all_accounts().is_empty());
    assert!(state.get_account("Alice").is_none());
}

#[test]
fn unknown_addresses_have_balance_and_nonce_zero() {
    let mut state = WorldState::new();
    state.create_account("Alice".to_string(), 5);
    assert_eq!(state.get_balance("Bob"), 0);
    assert_eq!(state.get_nonce("Bob"), 0);
    assert!(state.get_account("Bob").is_none());
}

#[test]
fn a_created_account_starts_at_nonce_zero() {
    let mut state = WorldState::new();
    state.create_account("Alice".to_string(), 1000);
    let account = state.get_account("Alice").expect("the account was created");
    assert_eq!(account.address, "Alice");
    assert_eq!(account.balance, 1000);
    assert_eq!(account.nonce, 0);
}

#[test]
fn creating_an_account_again_replaces_it() {
    let mut state = WorldState::new();
    state.create_account("Alice".to_string(), 1000);
    state.create_account("Bob".to_string(), 1);
    assert!(state.transfer("Alice", "Bob", 10).is_ok());
    assert_eq!(state.get_nonce("Alice"), 1);

    state.create_account("Alice".to_string(), 40);
    assert_eq!(state.get_balance("Alice"), 40);
    assert_eq!(state.get_nonce("Alice"), 0);
    assert_eq!(state.get_balance("Bob"), 11);
    assert_eq!(state.all_accounts().len(), 2);
}

#[test]
fn a_sender_without_account_is_not_found() {
    let mut state = WorldState::new();
    state.create_account("Bob".to_string(), 500);
    assert_eq!(state.transfer("Alice", "Bob", 1), Err(Error::SenderNotFound));
    assert_eq!(state.transfer("Alice", "Bob", 0), Err(Error::SenderNotFound));
    assert_eq!(state.get_balance("Bob"), 500);
    assert!(state.get_account("Alice").is_none());
}

#[test]
fn too_large_a_transfer_is_refused_and_changes_nothing() {
    let mut state = WorldState::new();
    state.create_account("Alice".to_string(), 100);
    state.create_account("Bob".to_string(), 7);
    assert_eq!(
        state.transfer("Alice", "Bob", 101),
        Err(Error::InsufficientBalance { balance: 100, needed: 101 })
    );
    assert_eq!(state.get_balance("Alice"), 100);
    assert_eq!(state.get_nonce("Alice"), 0);
    assert_eq!(state.get_balance("Bob"), 7);
    assert_eq!(state.get_nonce("Bob"), 0);
}

#[test]
fn a_refused_transfer_does_not_create_the_receiver() {
    let mut state = WorldState::new();
    state.create_account("Alice".to_string(), 100);
    assert!(state.transfer("Alice", "Bob", 200).is_err());
    assert!(state.get_account("Bob").is_none());
    assert_eq!(state.all_accounts().len(), 1);
}

#[test]
fn the_whole_balance_can_be_sent() {
    let mut state = WorldState::new();
    state.create_account("Alice".to_string(), 100);
    assert_eq!(state.transfer("Alice", "Bob", 100), Ok(()));
    assert_eq!(state.get_balance("Alice"), 0);
    assert_eq!(state.get_balance("Bob"), 100);
}

#[test]
fn a_transfer_creates_the_receiver() {
    let mut state = WorldState::new();
    state.create_account("Alice".to_string(), 100);
    assert_eq!(state.transfer("Alice", "Dave", 30), Ok(()));
    let dave = state.get_account("Dave").expect("the transfer made the account");
    assert_eq!(dave.address, "Dave");
    assert_eq!(dave.balance, 30);
    assert_eq!(dave.nonce, 0);
}

#[test]
fn only_the_sender_nonce_moves() {
    let mut state = WorldState::new();
    state.create_account("Alice".to_string(), 100);
    state.create_account("Bob".to_string(), 100);
    assert!(state.transfer("Alice", "Bob", 1).is_ok());
    assert!(state.transfer("Alice", "Bob", 1).is_ok());
    assert!(state.transfer("Bob", "Alice", 1).is_ok());
    assert_eq!(state.get_nonce("Alice"), 2);
    assert_eq!(state.get_nonce("Bob"), 1);
}

#[test]
fn a_transfer_to_oneself_moves_the_nonce_only() {
    let mut state = WorldState::new();
    state.create_account("Alice".to_string(), 100);
    assert_eq!(state.transfer("Alice", "Alice", 60), Ok(()));
    assert_eq!(state.get_balance("Alice"), 100);
    assert_eq!(state.get_nonce("Alice"), 1);
    assert_eq!(state.all_accounts().len(), 1);
}

#[test]
fn a_transfer_of_nothing_still_counts() {
    let mut state = WorldState::new();
    state.create_account("Alice".to_string(), 0);
    assert_eq!(state.transfer("Alice", "Bob", 0), Ok(()));
    assert_eq!(state.get_nonce("Alice"), 1);
    assert_eq!(state.get_balance("Bob"), 0);
    assert!(state.get_account("Bob").is_some());
}

#[test]
fn transfers_conserve_the_total() {
    let mut state = WorldState::new();
    state.create_account("Alice".to_string(), 1000);
    state.create_account("Bob".to_string(), 500);
    state.create_account("Charlie".to_string(), 0);
    let before = total(&state);
    assert_eq!(before, 1500);

    assert!(state.transfer("Alice", "Bob", 200).is_ok());
    assert!(state.transfer("Bob", "Charlie", 700).is_ok());
    assert!(state.transfer("Charlie", "Dave", 1).is_ok());
    assert!(state.transfer("Alice", "Alice", 800).is_ok());
    assert!(state.transfer("Bob", "Alice", 1).is_err());
    assert!(state.transfer("Eve", "Alice", 1).is_err());
    assert_eq!(total(&state), before);
    assert_eq!(state.get_balance("Alice"), 800);
    assert_eq!(state.get_balance("Bob"), 0);
    assert_eq!(state.get_balance("Charlie"), 699);
    assert_eq!(state.get_balance("Dave"), 1);
}

#[test]
fn accounts_are_listed_in_the_order_of_their_creation() {
    let mut state = WorldState::new();
    state.create_account("Alice".to_string(), 1);
    state.create_account("Bob".to_string(), 2);
    assert!(state.transfer("Bob", "Charlie", 2).is_ok());
    state.create_account("Alice".to_string(), 9);
    let list = state.all_accounts();
    assert_eq!(list.len(), 3);
    assert_eq!(list[0].address, "Alice");
    assert_eq!(list[0].balance, 9);
    assert_eq!(list[1].address, "Bob");
    assert_eq!(list[1].balance, 0);
    assert_eq!(list[1].nonce, 1);
    assert_eq!(list[2].address, "Charlie");
    assert_eq!(list[2].balance, 2);
}

#[test]
fn addresses_are_compared_exactly() {
    let mut state = WorldState::new();
    state.create_account("alice".to_string(), 1);
    state.create_account("Alice".to_string(), 2);
    state.create_account("Alice ".to_string(), 3);
    assert_eq!(state.get_balance("alice"), 1);
    assert_eq!(state.get_balance("Alice"), 2);
    assert_eq!(state.get_balance("Alice "), 3);
    assert_eq!(state.get_balance("Alic"), 0);
}

#[test]
fn room_is_measured_against_u64() {
    let mut state = WorldState::new();
    assert!(state.has_room_for(usize::MAX));
    state.create_account("Alice".to_string(), u64::MAX - 1);
    state.create_account("Bob".to_string(), 1);
    assert!(state.has_room_for(3));
    state.create_account("Charlie".to_string(), 1);
    assert!(!state.has_room_for(0));
}

#[test]
fn a_full_receiver_can_still_be_paid_what_it_has_room_for() {
    let mut state = WorldState::new();
    state.create_account("Alice".to_string(), 10);
    state.create_account("Bob".to_string(), u64::MAX - 10);
    assert_eq!(state.transfer("Alice", "Bob", 10), Ok(()));
    assert_eq!(state.get_balance("Bob"), u64::MAX);
    assert_eq!(state.get_balance("Alice"), 0);
}
