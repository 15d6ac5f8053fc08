use anchor_lang::prelude::Pubkey;
use counter::state::{authorize, bytes32_eq, counter_seed, initialize, CounterStore, Initialize};

const PROGRAM: [u8; 32] = [7u8; 32];

#[test]
fn seed_is_the_counter_tag() {
    assert_eq!(counter_seed(), b"counter".to_vec());
}

#[test]
fn derived_address_matches_the_runtime_derivation() {
    let authority = [21u8; 32];
    let store = CounterStore::new(PROGRAM);
    let (address, bump) = store.derive_counter_address(&authority).unwrap();
    let program_id = Pubkey::new_from_array(PROGRAM);
    let (expected, expected_bump) =
        Pubkey::find_program_address(&[b"counter", &authority], &program_id);
    assert_eq!(address, expected.to_bytes());
    assert_eq!(bump, expected_bump);
    assert_ne!(address, authority);
    assert_ne!(address, PROGRAM);
}

#[test]
fn derivation_depends_on_the_authority_and_the_program() {
    let store = CounterStore::new(PROGRAM);
    let other_store = CounterStore::new([8u8; 32]);
    let (addr_a, _) = store.derive_counter_address(&[22u8; 32]).unwrap();
    let (addr_b, _) = store.derive_counter_address(&[23u8; 32]).unwrap();
    let (addr_c, _) = other_store.derive_counter_address(&[22u8; 32]).unwrap();
    assert_ne!(addr_a, addr_b);
    assert_ne!(addr_a, addr_c);
}

#[test]
fn stored_bump_re_derives_the_stored_address() {
    let authority = [24u8; 32];
    let mut store = CounterStore::new(PROGRAM);
    assert_eq!(initialize(&mut store, Initialize { authority }, 0), Ok(()));
    let (address, bump) = store.derive_counter_address(&authority).unwrap();
    let c = store.read(&address).unwrap();
    assert_eq!(c.bump, bump);
    let program_id = Pubkey::new_from_array(PROGRAM);
    let re_derived =
        Pubkey::create_program_address(&[b"counter", &authority, &[c.bump]], &program_id)
            .unwrap();
    assert_eq!(re_derived.to_bytes(), address);
    assert!(authorize(&c, &address, &authority, &PROGRAM));
    assert!(!authorize(&c, &address, &[25u8; 32], &PROGRAM));
    assert!(!authorize(&c, &authority, &authority, &PROGRAM));
}

#[test]
fn byte_key_equality() {
    let a = [1u8; 32];
    let mut b = [1u8; 32];
    assert!(bytes32_eq(&a, &b));
    b[31] = 2;
    assert!(!bytes32_eq(&a, &b));
}
