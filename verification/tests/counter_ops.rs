use counter::state::{
    checked_decrement, checked_increment, decrement, increment, initialize, reset, Counter,
    CounterStore, ErrorCode, Initialize, Update,
};

const PROGRAM: [u8; 32] = [7u8; 32];

fn store_with(authority: [u8; 32], initial: u64) -> (CounterStore, [u8; 32], u8) {
    let mut store = CounterStore::new(PROGRAM);
    let (address, bump) = store
        .derive_counter_address(&authority)
        .expect("a witness byte should be found");
    let r = initialize(&mut store, Initialize { authority }, initial);
    assert_eq!(r, Ok(()));
    (store, address, bump)
}

fn read_counter(store: &CounterStore, address: &[u8; 32]) -> Counter {
    store.read(address).expect("counter should be present")
}

#[test]
fn create_sets_all_fields() {
    let authority = [1u8; 32];
    let (store, address, bump) = store_with(authority, 5);
    let c = read_counter(&store, &address);
    assert_eq!(c.authority, authority);
    assert_eq!(c.count, 5);
    assert_eq!(c.bump, bump);
}

#[test]
fn create_twice_fails_and_preserves_record() {
    let authority = [1u8; 32];
    let (mut store, address, bump) = store_with(authority, 5);
    let r = initialize(&mut store, Initialize { authority }, 99);
    assert_eq!(r, Err(ErrorCode::AccountInUse));
    let c = read_counter(&store, &address);
    assert_eq!(c.count, 5);
    assert_eq!(c.bump, bump);
}

#[test]
fn increment_adds_one() {
    let authority = [2u8; 32];
    let (mut store, address, _) = store_with(authority, 5);
    let r = increment(&mut store, Update { counter: address, authority });
    assert_eq!(r, Ok(()));
    assert_eq!(read_counter(&store, &address).count, 6);
}

#[test]
fn increment_at_max_overflows() {
    let authority = [3u8; 32];
    let (mut store, address, _) = store_with(authority, u64::MAX);
    let r = increment(&mut store, Update { counter: address, authority });
    assert_eq!(r, Err(ErrorCode::Overflow));
    assert_eq!(read_counter(&store, &address).count, u64::MAX);
}

#[test]
fn increment_up_to_max_then_overflow() {
    let authority = [4u8; 32];
    let (mut store, address, _) = store_with(authority, u64::MAX - 2);
    let ctx = Update { counter: address, authority };
    assert_eq!(increment(&mut store, ctx), Ok(()));
    assert_eq!(increment(&mut store, ctx), Ok(()));
    assert_eq!(read_counter(&store, &address).count, u64::MAX);
    assert_eq!(increment(&mut store, ctx), Err(ErrorCode::Overflow));
    assert_eq!(read_counter(&store, &address).count, u64::MAX);
}

#[test]
fn decrement_takes_one() {
    let authority = [5u8; 32];
    let (mut store, address, _) = store_with(authority, 5);
    let r = decrement(&mut store, Update { counter: address, authority });
    assert_eq!(r, Ok(()));
    assert_eq!(read_counter(&store, &address).count, 4);
}

#[test]
fn decrement_at_zero_underflows() {
    let authority = [6u8; 32];
    let (mut store, address, _) = store_with(authority, 0);
    let r = decrement(&mut store, Update { counter: address, authority });
    assert_eq!(r, Err(ErrorCode::Underflow));
    assert_eq!(read_counter(&store, &address).count, 0);
}

#[test]
fn reset_always_zeroes() {
    let authority = [8u8; 32];
    let (mut store, address, bump) = store_with(authority, u64::MAX);
    let r = reset(&mut store, Update { counter: address, authority });
    assert_eq!(r, Ok(()));
    let c = read_counter(&store, &address);
    assert_eq!(c.count, 0);
    assert_eq!(c.authority, authority);
    assert_eq!(c.bump, bump);
}

#[test]
fn full_scenario_create_inc_inc_dec_reset() {
    let authority = [9u8; 32];
    let (mut store, address, bump) = store_with(authority, 5);
    let ctx = Update { counter: address, authority };
    assert_eq!(increment(&mut store, ctx), Ok(()));
    assert_eq!(increment(&mut store, ctx), Ok(()));
    assert_eq!(read_counter(&store, &address).count, 7);
    assert_eq!(decrement(&mut store, ctx), Ok(()));
    assert_eq!(read_counter(&store, &address).count, 6);
    assert_eq!(reset(&mut store, ctx), Ok(()));
    let c = read_counter(&store, &address);
    assert_eq!(c.count, 0);
    assert_eq!(c.authority, authority);
    assert_eq!(c.bump, bump);
}

#[test]
fn wrong_authority_is_rejected() {
    let authority = [10u8; 32];
    let intruder = [11u8; 32];
    let (mut store, address, _) = store_with(authority, 5);
    let forged = Update { counter: address, authority: intruder };
    assert_eq!(increment(&mut store, forged), Err(ErrorCode::Unauthorized));
    assert_eq!(decrement(&mut store, forged), Err(ErrorCode::Unauthorized));
    assert_eq!(reset(&mut store, forged), Err(ErrorCode::Unauthorized));
    assert_eq!(read_counter(&store, &address).count, 5);
}

#[test]
fn cross_counter_access_is_rejected() {
    let alice = [12u8; 32];
    let bob = [13u8; 32];
    let mut store = CounterStore::new(PROGRAM);
    let (addr_a, _) = store.derive_counter_address(&alice).unwrap();
    let (addr_b, _) = store.derive_counter_address(&bob).unwrap();
    assert_eq!(initialize(&mut store, Initialize { authority: alice }, 5), Ok(()));
    assert_eq!(initialize(&mut store, Initialize { authority: bob }, 7), Ok(()));
    let r = increment(&mut store, Update { counter: addr_a, authority: bob });
    assert_eq!(r, Err(ErrorCode::Unauthorized));
    assert_eq!(read_counter(&store, &addr_a).count, 5);
    assert_eq!(read_counter(&store, &addr_b).count, 7);
}

#[test]
fn update_of_absent_counter_is_not_found() {
    let authority = [14u8; 32];
    let mut store = CounterStore::new(PROGRAM);
    let (address, _) = store.derive_counter_address(&authority).unwrap();
    let ctx = Update { counter: address, authority };
    assert_eq!(increment(&mut store, ctx), Err(ErrorCode::AccountNotFound));
    assert_eq!(decrement(&mut store, ctx), Err(ErrorCode::AccountNotFound));
    assert_eq!(reset(&mut store, ctx), Err(ErrorCode::AccountNotFound));
    assert!(store.read(&address).is_none());
}

#[test]
fn counters_of_different_authorities_are_independent() {
    let alice = [15u8; 32];
    let bob = [16u8; 32];
    let mut store = CounterStore::new(PROGRAM);
    assert_eq!(initialize(&mut store, Initialize { authority: alice }, 1), Ok(()));
    assert_eq!(initialize(&mut store, Initialize { authority: bob }, 100), Ok(()));
    let (addr_a, _) = store.derive_counter_address(&alice).unwrap();
    let (addr_b, _) = store.derive_counter_address(&bob).unwrap();
    assert_eq!(increment(&mut store, Update { counter: addr_a, authority: alice }), Ok(()));
    assert_eq!(read_counter(&store, &addr_a).count, 2);
    assert_eq!(read_counter(&store, &addr_b).count, 100);
}

#[test]
fn checked_arithmetic_guards() {
    assert_eq!(checked_increment(0), Ok(1));
    assert_eq!(checked_increment(41), Ok(42));
    assert_eq!(checked_increment(u64::MAX - 1), Ok(u64::MAX));
    assert_eq!(checked_increment(u64::MAX), Err(ErrorCode::Overflow));
    assert_eq!(checked_decrement(1), Ok(0));
    assert_eq!(checked_decrement(u64::MAX), Ok(u64::MAX - 1));
    assert_eq!(checked_decrement(0), Err(ErrorCode::Underflow));
}
