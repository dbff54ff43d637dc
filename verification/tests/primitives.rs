//! Byte strings, maps, sets and account contents.
use std::sync::Arc;

use evm2_state::fixed::{Address, FixedBytes, Word, B256};
use evm2_state::info::{AccountInfo, Bytecode};
use evm2_state::map::{AddressMap, AddressSet, Duplicate, WordMap};
use evm2_state::prewarm::PrewarmSet;

fn largest() -> Word {
    Word::new([0xff; 32])
}

#[test]
fn words_spell_numbers_from_the_end() {
    let mut bytes = [0u8; 32];
    bytes[30] = 0x12;
    bytes[31] = 0x34;
    assert_eq!(Word::from(0x1234u64), Word::new(bytes));
    let mut bytes = [0u8; 32];
    for byte in bytes.iter_mut().skip(24) {
        *byte = 0xff;
    }
    assert_eq!(Word::from(u64::MAX), Word::new(bytes));
    assert_eq!(Word::from(7u64), Word::with_last_byte(7));
    assert!(Word::zero().is_zero());
    assert!(!Word::from(1u64).is_zero());
    assert!(!largest().is_zero());
}

#[test]
fn addresses_end_in_their_last_byte() {
    let address = Address::with_last_byte(3);
    assert_eq!(address.bytes[19], 3);
    assert!(address.bytes[..19].iter().all(|byte| *byte == 0));
    assert_eq!(Address::with_last_byte(0), Address::zero());
}

#[test]
fn checked_subtraction_stops_at_zero() {
    let (three, five) = (Word::from(3u64), Word::from(5u64));
    assert_eq!(five.checked_sub(&three), Some(Word::from(2u64)));
    assert_eq!(five.checked_sub(&five), Some(Word::zero()));
    assert_eq!(three.checked_sub(&five), None);
    // A borrow runs through all lower bytes.
    let big = Word::from(0x1_0000_0000u64);
    assert_eq!(big.checked_sub(&Word::from(1u64)), Some(Word::from(0xffff_ffffu64)));
    assert!(three.less_than(&five));
    assert!(!five.less_than(&three));
    assert!(!five.less_than(&five));
}

#[test]
fn additions_wrap_or_saturate_at_the_largest_word() {
    let (one, two) = (Word::from(1u64), Word::from(2u64));
    assert_eq!(one.wrapping_add(&two), Word::from(3u64));
    assert_eq!(one.saturating_add(&two), Word::from(3u64));
    assert_eq!(largest().wrapping_add(&two), one);
    assert_eq!(largest().wrapping_add(&one), Word::zero());
    assert_eq!(largest().saturating_add(&one), largest());
    assert_eq!(largest().saturating_add(&Word::zero()), largest());
    // A carry runs through all lower bytes.
    assert_eq!(
        Word::from(0xffff_ffffu64).wrapping_add(&one),
        Word::from(0x1_0000_0000u64)
    );
}

#[test]
fn maps_hold_what_was_stored() {
    let mut map: WordMap<Word> = WordMap::new();
    let (a, b) = (Word::from(1u64), Word::from(2u64));
    assert!(map.get(&a).is_none());
    assert!(map.keys().is_empty());
    map.insert(a, Word::from(10u64));
    map.insert(b, Word::from(20u64));
    map.insert(a, Word::from(11u64));
    assert_eq!(map.get(&a), Some(&Word::from(11u64)));
    assert!(map.contains_key(&b));
    let mut keys = map.keys();
    keys.sort_by_key(|key| key.bytes);
    assert_eq!(keys, vec![a, b]);
    *map.get_mut(&b).unwrap() = Word::from(21u64);
    assert!(map.get_mut(&Word::from(3u64)).is_none());
    let copy = map.duplicate();
    assert_eq!(copy, map);
    assert_eq!(map.remove(&b), Some(Word::from(21u64)));
    assert_eq!(map.remove(&b), None);
    assert!(!map.contains_key(&b));
    assert!(copy.contains_key(&b));
    map.clear();
    assert!(map.keys().is_empty());
}

#[test]
fn sets_hold_their_members() {
    let mut set = AddressSet::new();
    let (a, b) = (Address::with_last_byte(1), Address::with_last_byte(2));
    assert!(!set.contains(&a));
    set.insert(a);
    set.insert(a);
    set.insert(b);
    let mut members = set.members();
    members.sort_by_key(|member| member.bytes);
    assert_eq!(members, vec![a, b]);
    let copy = set.duplicate();
    set.remove(&a);
    assert!(!set.contains(&a));
    assert!(set.contains(&b));
    assert!(copy.contains(&a));
    set.clear();
    assert!(set.members().is_empty());
}

#[test]
fn nested_maps_are_copied_in_depth() {
    let address = Address::with_last_byte(1);
    let mut outer: AddressMap<WordMap<Word>> = AddressMap::new();
    let mut inner: WordMap<Word> = WordMap::new();
    inner.insert(Word::zero(), Word::from(1u64));
    outer.insert(address, inner);
    let copy = outer.duplicate();
    outer.get_mut(&address).unwrap().insert(Word::zero(), Word::from(2u64));
    assert_eq!(copy.get(&address).unwrap().get(&Word::zero()), Some(&Word::from(1u64)));
    assert_eq!(outer.get(&address).unwrap().get(&Word::zero()), Some(&Word::from(2u64)));
}

#[test]
fn an_account_starts_empty_with_the_hash_of_no_code() {
    let info = AccountInfo::default();
    assert_eq!(info.nonce, 0);
    assert!(info.balance.is_zero());
    assert_eq!(info.code_hash.bytes, alloy_primitives::keccak256([]).0);
    assert_eq!(info.code, Some(Bytecode::Empty));
    assert!(info.is_dead());
    assert!(!AccountInfo::default().with_balance(Word::from(1u64)).is_dead());
    let mut with_nonce = AccountInfo::default();
    with_nonce.nonce = 1;
    assert!(!with_nonce.is_dead());
    let mut with_code = AccountInfo::default();
    with_code.code_hash = B256::with_last_byte(1);
    assert!(!with_code.is_dead());
    assert!(!with_code.same_contents(&info));
    assert!(info.same_contents(&AccountInfo::default()));
}

#[test]
fn copies_of_an_account_share_its_code() {
    let code = Bytecode::new(vec![0x60, 0x00]);
    let copy = code.clone();
    match (&code, &copy) {
        (Bytecode::Code(a), Bytecode::Code(b)) => {
            assert!(Arc::ptr_eq(a, b));
            assert_eq!(a.as_slice(), &[0x60, 0x00]);
        }
        _ => panic!("code was lost"),
    }
    assert_eq!(Bytecode::new(Vec::new()), Bytecode::Empty);
}

#[test]
fn prewarming_a_slot_prewarms_its_account() {
    let (a, b) = (Address::with_last_byte(1), Address::with_last_byte(2));
    let mut set = PrewarmSet::new();
    set.warm(&a);
    set.warm_storage(&b, &[Word::zero(), Word::from(1u64)]);
    assert!(set.is_warm(&a));
    assert!(set.is_warm(&b));
    assert!(set.is_storage_warm(&b, &Word::zero()));
    assert!(set.is_storage_warm(&b, &Word::from(1u64)));
    assert!(!set.is_storage_warm(&a, &Word::zero()));
    assert!(!set.is_storage_warm(&b, &Word::from(2u64)));
    let copy = set.duplicate();
    set.clear();
    assert!(!set.is_warm(&a));
    assert!(!set.is_storage_warm(&b, &Word::zero()));
    assert!(copy.is_storage_warm(&b, &Word::zero()));
}

#[test]
fn fixed_bytes_compare_by_their_bytes() {
    assert_eq!(FixedBytes::<2>::new([1, 2]), FixedBytes::<2>::new([1, 2]));
    assert_ne!(FixedBytes::<2>::new([1, 2]), FixedBytes::<2>::new([2, 1]));
}
