use anchor_lang::prelude::Pubkey;
use student_intro::address::{derive_mint_authority, derive_record_address};
use student_intro::program::{same_key, Ledger};
use student_intro::state::{text_len, validate_lengths, StudentIntroError, REWARD_AMOUNT};

const PROGRAM: [u8; 32] = [
    187, 144, 235, 239, 105, 105, 153, 113, 102, 58, 59, 232, 166, 158, 230, 18, 107, 75, 117, 61,
    63, 31, 48, 51, 250, 142, 40, 207, 107, 174, 242, 76,
];
const ALICE: [u8; 32] = [7u8; 32];
const BOB: [u8; 32] = [9u8; 32];

fn ready_ledger() -> Ledger {
    let mut ledger = Ledger::new(PROGRAM);
    assert_eq!(ledger.initialize_token_mint(), Ok(()));
    ledger
}

#[test]
fn create_update_delete_scenario() {
    let mut ledger = ready_ledger();
    assert_eq!(
        ledger.add_student_intro(ALICE, "alice".to_string(), "hello world".to_string()),
        Ok(())
    );
    let record = ledger.read_student_intro(&ALICE, &"alice".to_string()).unwrap();
    assert_eq!(record.owner, ALICE);
    assert_eq!(record.name, "alice");
    assert_eq!(record.message, "hello world");
    assert_eq!(ledger.token_balance(&ALICE), REWARD_AMOUNT);
    assert_eq!(ledger.token_balance(&ALICE), 10_000_000);

    assert_eq!(
        ledger.update_student_intro(ALICE, "alice".to_string(), "goodbye".to_string()),
        Ok(())
    );
    let record = ledger.read_student_intro(&ALICE, &"alice".to_string()).unwrap();
    assert_eq!(record.owner, ALICE);
    assert_eq!(record.name, "alice");
    assert_eq!(record.message, "goodbye");
    assert_eq!(ledger.token_balance(&ALICE), REWARD_AMOUNT);

    assert_eq!(ledger.delete_student_intro(ALICE, "alice".to_string()), Ok(()));
    assert!(ledger.read_student_intro(&ALICE, &"alice".to_string()).is_none());
}

#[test]
fn create_then_read_returns_fields() {
    let mut ledger = ready_ledger();
    let name = "n".repeat(20);
    let message = "m".repeat(50);
    assert_eq!(ledger.add_student_intro(BOB, name.clone(), message.clone()), Ok(()));
    let record = ledger.read_student_intro(&BOB, &name).unwrap();
    assert_eq!(record.owner, BOB);
    assert_eq!(record.name, name);
    assert_eq!(record.message, message);
}

#[test]
fn name_of_twenty_one_bytes_is_refused() {
    let mut ledger = ready_ledger();
    let name = "x".repeat(21);
    assert_eq!(
        ledger.add_student_intro(ALICE, name.clone(), "hi".to_string()),
        Err(StudentIntroError::NameTooLong)
    );
    assert!(ledger.read_student_intro(&ALICE, &name).is_none());
    assert_eq!(ledger.token_balance(&ALICE), 0);
    assert_eq!(ledger.mint_supply(), 0);
}

#[test]
fn message_of_fifty_one_bytes_is_refused() {
    let mut ledger = ready_ledger();
    assert_eq!(
        ledger.add_student_intro(ALICE, "alice".to_string(), "y".repeat(51)),
        Err(StudentIntroError::MessageTooLong)
    );
    assert!(ledger.read_student_intro(&ALICE, &"alice".to_string()).is_none());
}

#[test]
fn limits_count_utf8_bytes() {
    // eleven two-byte characters: 22 bytes
    let wide = "é".repeat(11);
    assert_eq!(
        validate_lengths(&wide, &"ok".to_string()),
        Err(StudentIntroError::NameTooLong)
    );
    let fits = "é".repeat(10);
    assert_eq!(validate_lengths(&fits, &"ok".to_string()), Ok(()));
    assert_eq!(
        validate_lengths(&fits, &"é".repeat(26)),
        Err(StudentIntroError::MessageTooLong)
    );
    assert_eq!(validate_lengths(&"x".repeat(21), &"y".repeat(51)), Err(StudentIntroError::NameTooLong));
}

#[test]
fn derivation_is_deterministic() {
    let name = "alice".to_string();
    let first = derive_record_address(&name, &ALICE, &PROGRAM).unwrap();
    let second = derive_record_address(&name, &ALICE, &PROGRAM).unwrap();
    assert_eq!(first, second);
    assert_ne!(first.address, ALICE);
    assert_ne!(first.address, PROGRAM);
    let other_owner = derive_record_address(&name, &BOB, &PROGRAM).unwrap();
    assert_ne!(first.address, other_owner.address);
    let other_name = derive_record_address(&"alicf".to_string(), &ALICE, &PROGRAM).unwrap();
    assert_ne!(first.address, other_name.address);
}

#[test]
fn mint_authority_depends_on_program_only() {
    let first = derive_mint_authority(&PROGRAM).unwrap();
    let second = derive_mint_authority(&PROGRAM).unwrap();
    assert_eq!(first, second);
    assert_ne!(first.address, PROGRAM);
    let ledger = ready_ledger();
    assert_eq!(ledger.mint_authority(), Some(first));
}

#[test]
fn mint_initializes_once() {
    let mut ledger = Ledger::new(PROGRAM);
    assert_eq!(ledger.mint_authority(), None);
    assert_eq!(ledger.initialize_token_mint(), Ok(()));
    assert_eq!(
        ledger.initialize_token_mint(),
        Err(StudentIntroError::AddressAlreadyActive)
    );
}

#[test]
fn create_without_mint_is_refused() {
    let mut ledger = Ledger::new(PROGRAM);
    assert_eq!(
        ledger.add_student_intro(ALICE, "alice".to_string(), "hello".to_string()),
        Err(StudentIntroError::MintNotInitialized)
    );
    assert!(ledger.read_student_intro(&ALICE, &"alice".to_string()).is_none());
}

#[test]
fn create_twice_is_refused() {
    let mut ledger = ready_ledger();
    assert_eq!(ledger.add_student_intro(ALICE, "alice".to_string(), "one".to_string()), Ok(()));
    assert_eq!(
        ledger.add_student_intro(ALICE, "alice".to_string(), "two".to_string()),
        Err(StudentIntroError::AddressAlreadyActive)
    );
    let record = ledger.read_student_intro(&ALICE, &"alice".to_string()).unwrap();
    assert_eq!(record.message, "one");
    assert_eq!(ledger.token_balance(&ALICE), REWARD_AMOUNT);
    assert_eq!(ledger.mint_supply(), REWARD_AMOUNT);
}

#[test]
fn update_of_missing_record_is_refused() {
    let mut ledger = ready_ledger();
    assert_eq!(
        ledger.update_student_intro(ALICE, "alice".to_string(), "hello".to_string()),
        Err(StudentIntroError::RecordNotFound)
    );
    assert!(ledger.read_student_intro(&ALICE, &"alice".to_string()).is_none());
}

#[test]
fn update_checks_message_length() {
    let mut ledger = ready_ledger();
    assert_eq!(ledger.add_student_intro(ALICE, "alice".to_string(), "hello".to_string()), Ok(()));
    assert_eq!(
        ledger.update_student_intro(ALICE, "alice".to_string(), "z".repeat(51)),
        Err(StudentIntroError::MessageTooLong)
    );
    assert_eq!(
        ledger.update_student_intro(ALICE, "a".repeat(21), "hi".to_string()),
        Err(StudentIntroError::RecordNotFound)
    );
    let record = ledger.read_student_intro(&ALICE, &"alice".to_string()).unwrap();
    assert_eq!(record.message, "hello");
}

#[test]
fn another_owner_cannot_reach_the_record() {
    let mut ledger = ready_ledger();
    assert_eq!(ledger.add_student_intro(ALICE, "alice".to_string(), "hello".to_string()), Ok(()));
    assert_eq!(
        ledger.update_student_intro(BOB, "alice".to_string(), "mine".to_string()),
        Err(StudentIntroError::RecordNotFound)
    );
    assert_eq!(
        ledger.delete_student_intro(BOB, "alice".to_string()),
        Err(StudentIntroError::RecordNotFound)
    );
    let record = ledger.read_student_intro(&ALICE, &"alice".to_string()).unwrap();
    assert_eq!(record.message, "hello");
}

#[test]
fn delete_of_missing_record_is_refused() {
    let mut ledger = ready_ledger();
    assert_eq!(
        ledger.delete_student_intro(ALICE, "alice".to_string()),
        Err(StudentIntroError::RecordNotFound)
    );
}

#[test]
fn recreate_after_delete_succeeds() {
    let mut ledger = ready_ledger();
    assert_eq!(ledger.add_student_intro(ALICE, "alice".to_string(), "first".to_string()), Ok(()));
    assert_eq!(ledger.delete_student_intro(ALICE, "alice".to_string()), Ok(()));
    assert_eq!(ledger.add_student_intro(ALICE, "alice".to_string(), "again".to_string()), Ok(()));
    let record = ledger.read_student_intro(&ALICE, &"alice".to_string()).unwrap();
    assert_eq!(record.message, "again");
    assert_eq!(ledger.token_balance(&ALICE), 2 * REWARD_AMOUNT);
    assert_eq!(ledger.mint_supply(), 2 * REWARD_AMOUNT);
}

#[test]
fn rewards_go_to_each_creator_once() {
    let mut ledger = ready_ledger();
    assert_eq!(ledger.add_student_intro(ALICE, "a1".to_string(), "m".to_string()), Ok(()));
    assert_eq!(ledger.add_student_intro(ALICE, "a2".to_string(), "m".to_string()), Ok(()));
    assert_eq!(ledger.add_student_intro(BOB, "a1".to_string(), "m".to_string()), Ok(()));
    assert_eq!(ledger.token_balance(&ALICE), 2 * REWARD_AMOUNT);
    assert_eq!(ledger.token_balance(&BOB), REWARD_AMOUNT);
    assert_eq!(ledger.mint_supply(), 3 * REWARD_AMOUNT);
    assert!(ledger.read_student_intro(&BOB, &"a2".to_string()).is_none());
}

#[test]
fn record_address_matches_program_derived_address() {
    let program = Pubkey::new_from_array(PROGRAM);
    let name = "zoé".to_string();
    let derived = derive_record_address(&name, &ALICE, &PROGRAM).unwrap();
    let (expected, bump) = Pubkey::find_program_address(&[name.as_bytes(), &ALICE], &program);
    assert_eq!(derived.address, expected.to_bytes());
    assert_eq!(derived.bump, bump);
}

#[test]
fn mint_authority_matches_program_derived_address() {
    let program = Pubkey::new_from_array(PROGRAM);
    let derived = derive_mint_authority(&PROGRAM).unwrap();
    let (expected, bump) = Pubkey::find_program_address(&[b"mint"], &program);
    assert_eq!(derived.address, expected.to_bytes());
    assert_eq!(derived.bump, bump);
}

#[test]
fn key_comparison_and_text_length() {
    assert!(same_key(&ALICE, &ALICE));
    assert!(!same_key(&ALICE, &BOB));
    let mut almost = ALICE;
    almost[31] = 0;
    assert!(!same_key(&ALICE, &almost));
    assert_eq!(text_len(&"héllo".to_string()), 6);
    assert_eq!(text_len(&String::new()), 0);
}

#[test]
fn update_of_missing_record_with_long_message_is_not_found() {
    let mut ledger = ready_ledger();
    assert_eq!(
        ledger.update_student_intro(ALICE, "alice".to_string(), "z".repeat(51)),
        Err(StudentIntroError::RecordNotFound)
    );
    assert!(ledger.read_student_intro(&ALICE, &"alice".to_string()).is_none());
}

#[test]
fn delete_with_long_name_is_not_found() {
    let mut ledger = ready_ledger();
    assert_eq!(
        ledger.delete_student_intro(ALICE, "q".repeat(40)),
        Err(StudentIntroError::RecordNotFound)
    );
    assert_eq!(
        ledger.delete_student_intro(ALICE, "q".repeat(21)),
        Err(StudentIntroError::RecordNotFound)
    );
}

#[test]
fn mint_has_six_decimals() {
    let mut ledger = Ledger::new(PROGRAM);
    assert_eq!(ledger.mint_decimals(), 0);
    assert_eq!(ledger.initialize_token_mint(), Ok(()));
    assert_eq!(ledger.mint_decimals(), 6);
    assert_eq!(ledger.mint_supply(), 0);
}
