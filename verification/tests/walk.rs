use std::collections::HashMap;

use nonempty::NonEmpty;
use spectrum_ledger::block::{
    BlockHeader, BlockId, BlockSection, BlockSectionId, ModifierId,
};
use spectrum_ledger::codec::section_key;
use spectrum_ledger::sections::{contains, contains_keys, get_section};
use spectrum_ledger::walk::{ChainQuery, ChainWalk};

type Store = HashMap<Vec<u8>, Vec<u8>>;

fn block_id(n: u8) -> BlockId {
    BlockId { digest: [n; 32] }
}

fn header(n: u8) -> BlockHeader {
    BlockHeader { id: block_id(n), parent: block_id(n.wrapping_sub(1)), height: n as u64 }
}

fn record(header: &BlockHeader) -> Vec<u8> {
    let mut bytes = vec![0, 0, 0, 0];
    bytes.extend(header.id.digest);
    bytes.extend(header.parent.digest);
    bytes.extend(header.height.to_le_bytes());
    bytes
}

fn put(store: &mut Store, header: &BlockHeader) {
    store.insert(section_key(&BlockSectionId::Header(header.id)), record(header));
}

fn set_tip(store: &mut Store, id: BlockId) {
    store.insert(b"best_tip".to_vec(), section_key(&BlockSectionId::Header(id)));
}

/// A chain of `len` blocks numbered from 0, the origin block.
fn chain(len: u8) -> Store {
    let mut store = Store::new();
    for n in 0..len {
        put(&mut store, &header(n));
    }
    set_tip(&mut store, block_id(len - 1));
    store
}

fn walk(store: &Store, query: ChainQuery) -> ChainWalk {
    let mut walk = ChainWalk::new(query);
    let mut reads = 0;
    while let Some(key) = walk.pending() {
        walk.advance(store.get(&key).cloned());
        reads += 1;
        assert!(reads < 1000);
    }
    walk
}

fn tip(store: &Store) -> Option<BlockHeader> {
    walk(store, ChainQuery::Tip).get_tip()
}

fn tail(store: &Store, n: usize) -> Option<NonEmpty<BlockHeader>> {
    walk(store, ChainQuery::Tail(n)).get_tail()
}

fn member(store: &Store, n: u8) -> Option<bool> {
    walk(store, ChainQuery::Member(block_id(n))).member()
}

fn follow(store: &Store, n: u8, cap: usize) -> Option<Vec<BlockId>> {
    walk(store, ChainQuery::Follow(block_id(n), cap)).follow()
}

fn ids(from: u8, to: u8) -> Vec<BlockId> {
    (from..to).map(block_id).collect()
}

fn headers(from: u8, to: u8) -> NonEmpty<BlockHeader> {
    NonEmpty::from_vec((from..to).map(header).collect()).unwrap()
}

#[test]
fn tip_is_the_best_header() {
    assert_eq!(tip(&chain(1)), Some(header(0)));
    assert_eq!(tip(&chain(5)), Some(header(4)));
}

#[test]
fn tail_is_in_chain_order_and_never_empty() {
    let store = chain(5);
    assert_eq!(tail(&store, 0), Some(headers(4, 5)));
    assert_eq!(tail(&store, 1), Some(headers(4, 5)));
    assert_eq!(tail(&store, 3), Some(headers(2, 5)));
    assert_eq!(tail(&store, 5), Some(headers(0, 5)));
    assert_eq!(tail(&store, 6), Some(headers(0, 5)));
    assert_eq!(tail(&store, usize::MAX), Some(headers(0, 5)));
}

#[test]
fn tail_of_a_chain_with_only_the_origin_block() {
    let store = chain(1);
    for n in [0, 1, 2] {
        assert_eq!(tail(&store, n), Some(headers(0, 1)));
    }
}

#[test]
fn tail_ends_with_the_tip() {
    let store = chain(4);
    for n in 0..6 {
        assert_eq!(tail(&store, n).unwrap().last(), &tip(&store).unwrap());
    }
}

#[test]
fn members_are_the_blocks_of_the_best_chain() {
    let store = chain(5);
    for n in 0..5 {
        assert_eq!(member(&store, n), Some(true));
    }
    assert_eq!(member(&store, 5), Some(false));
    assert_eq!(member(&store, 255), Some(false));
}

#[test]
fn blocks_of_a_fork_are_stored_but_no_members() {
    let mut store = chain(5);
    let fork = BlockHeader { id: block_id(77), parent: block_id(2), height: 3 };
    put(&mut store, &fork);
    assert_eq!(member(&store, 77), Some(false));
    let keys = contains_keys(&ModifierId { digest: [77; 32] });
    let replies = keys.iter().map(|key| store.get(key).cloned()).collect();
    assert!(contains(&replies));
    assert_eq!(follow(&store, 77, 10), Some(vec![]));

    set_tip(&mut store, block_id(77));
    assert_eq!(member(&store, 77), Some(true));
    assert_eq!(member(&store, 3), Some(false));
    assert_eq!(member(&store, 2), Some(true));
    assert_eq!(follow(&store, 1, 10), Some(vec![block_id(2), block_id(77)]));
}

#[test]
fn members_can_be_read() {
    let store = chain(5);
    for n in 0..5 {
        let key = section_key(&BlockSectionId::Header(block_id(n)));
        assert_eq!(get_section(store.get(&key).cloned()), Some(BlockSection::Header(header(n))));
        let keys = contains_keys(&ModifierId { digest: [n; 32] });
        let replies = keys.iter().map(|key| store.get(key).cloned()).collect();
        assert!(contains(&replies));
    }
}

#[test]
fn follow_starts_behind_the_block_given() {
    let store = chain(6);
    assert_eq!(follow(&store, 0, 2), Some(ids(1, 3)));
    assert_eq!(follow(&store, 2, 1), Some(ids(3, 4)));
    assert_eq!(follow(&store, 2, 3), Some(ids(3, 6)));
}

#[test]
fn follow_stops_at_the_tip() {
    let store = chain(6);
    assert_eq!(follow(&store, 2, 4), Some(ids(3, 6)));
    assert_eq!(follow(&store, 0, usize::MAX), Some(ids(1, 6)));
    assert_eq!(follow(&store, 5, 3), Some(vec![]));
}

#[test]
fn follow_with_no_cap_left_is_empty() {
    assert_eq!(follow(&chain(6), 2, 0), Some(vec![]));
}

#[test]
fn follow_of_an_unknown_block_is_empty() {
    assert_eq!(follow(&chain(6), 200, 3), Some(vec![]));
}

#[test]
fn follow_goes_on_where_it_stopped() {
    let store = chain(9);
    let mut first = follow(&store, 1, 3).unwrap();
    let last = first[2].digest[0];
    first.extend(follow(&store, last, 2).unwrap());
    assert_eq!(first, follow(&store, 1, 5).unwrap());
}

#[test]
fn appending_moves_the_tip() {
    let mut store = chain(3);
    put(&mut store, &header(3));
    assert_eq!(tip(&store), Some(header(2)));
    assert_eq!(member(&store, 3), Some(false));
    set_tip(&mut store, block_id(3));
    assert_eq!(tip(&store), Some(header(3)));
    assert_eq!(member(&store, 3), Some(true));
    assert_eq!(tail(&store, 10), Some(headers(0, 4)));
}

#[test]
fn walks_read_the_tip_record_first() {
    let mut walk = ChainWalk::new(ChainQuery::Tail(2));
    assert_eq!(walk.pending(), Some(b"best_tip".to_vec()));
    walk.advance(Some(vec![1, 2, 3]));
    assert_eq!(walk.pending(), Some(vec![1, 2, 3]));
    walk.advance(Some(record(&header(7))));
    assert_eq!(walk.pending(), Some(section_key(&BlockSectionId::Header(block_id(6)))));
    assert_eq!(walk.get_tail(), None);
    walk.advance(Some(record(&header(6))));
    assert_eq!(walk.pending(), None);
    assert_eq!(walk.get_tail(), Some(headers(6, 8)));
    let over = walk.clone();
    walk.advance(Some(record(&header(5))));
    assert_eq!(walk, over);
}

#[test]
fn walks_answer_only_their_own_question() {
    let store = chain(3);
    let walk = walk(&store, ChainQuery::Tip);
    assert_eq!(walk.get_tip(), Some(header(2)));
    assert_eq!(walk.get_tail(), None);
    assert_eq!(walk.member(), None);
    assert_eq!(walk.follow(), None);
}

#[test]
fn an_empty_store_has_no_answers() {
    let store = Store::new();
    assert_eq!(tip(&store), None);
    assert_eq!(tail(&store, 3), None);
    assert_eq!(member(&store, 0), None);
    assert_eq!(follow(&store, 0, 3), None);
}

#[test]
fn a_tip_without_a_header_breaks_the_walk() {
    let mut store = chain(3);
    set_tip(&mut store, block_id(9));
    assert_eq!(tip(&store), None);
    let mut body = vec![1, 0, 0, 0];
    body.extend([0; 100]);
    store.insert(section_key(&BlockSectionId::Header(block_id(9))), body);
    assert_eq!(tip(&store), None);
}

#[test]
fn a_missing_parent_breaks_the_walk() {
    let mut store = chain(5);
    store.remove(&section_key(&BlockSectionId::Header(block_id(2))));
    assert_eq!(tip(&store), Some(header(4)));
    assert_eq!(tail(&store, 2), Some(headers(3, 5)));
    assert_eq!(tail(&store, 3), None);
    assert_eq!(member(&store, 3), Some(true));
    assert_eq!(member(&store, 1), None);
}

#[test]
fn a_parent_of_the_wrong_height_breaks_the_walk() {
    let mut store = chain(5);
    let wrong = BlockHeader { height: 1, ..header(2) };
    put(&mut store, &wrong);
    assert_eq!(tail(&store, 2), Some(headers(3, 5)));
    assert_eq!(tail(&store, 3), None);
    assert_eq!(follow(&store, 0, 3), None);
}

#[test]
fn a_parent_with_another_id_breaks_the_walk() {
    let mut store = chain(5);
    let wrong = BlockHeader { id: block_id(66), ..header(2) };
    store.insert(section_key(&BlockSectionId::Header(block_id(2))), record(&wrong));
    assert_eq!(tail(&store, 3), None);
    assert_eq!(member(&store, 66), None);
}

#[test]
fn a_cycle_of_parents_ends_the_walk() {
    let mut store = Store::new();
    put(&mut store, &BlockHeader { id: block_id(1), parent: block_id(2), height: 8 });
    put(&mut store, &BlockHeader { id: block_id(2), parent: block_id(1), height: 7 });
    set_tip(&mut store, block_id(1));
    assert_eq!(member(&store, 9), None);
    assert_eq!(member(&store, 2), Some(true));
}
