use std::collections::HashMap;

use spectrum_ledger::block::{
    BlockBody, BlockHeader, BlockId, BlockSection, BlockSectionId, BlockSectionType, ModifierId,
    SerializedModifier,
};
use spectrum_ledger::codec::section_key;
use spectrum_ledger::sections::{
    contains, contains_keys, get_section, multi_get_keys, multi_get_raw,
};

type Store = HashMap<Vec<u8>, Vec<u8>>;

fn block_id(n: u8) -> BlockId {
    BlockId { digest: [n; 32] }
}

fn modifier_id(n: u8) -> ModifierId {
    ModifierId { digest: [n; 32] }
}

fn header() -> BlockHeader {
    BlockHeader { id: block_id(1), parent: block_id(2), height: 0x0102030405060708 }
}

fn header_record() -> Vec<u8> {
    let mut bytes = vec![0, 0, 0, 0];
    bytes.extend([1u8; 32]);
    bytes.extend([2u8; 32]);
    bytes.extend([8, 7, 6, 5, 4, 3, 2, 1]);
    bytes
}

fn body_record(body: &[u8]) -> Vec<u8> {
    let mut bytes = vec![1, 0, 0, 0];
    bytes.extend((body.len() as u64).to_le_bytes());
    bytes.extend(body);
    bytes
}

fn read(store: &Store, keys: Vec<Vec<u8>>) -> Vec<Option<Vec<u8>>> {
    keys.iter().map(|key| store.get(key).cloned()).collect()
}

fn section(store: &Store, id: &BlockSectionId) -> Option<BlockSection> {
    get_section(store.get(&section_key(id)).cloned())
}

#[test]
fn keys_are_the_variant_and_the_digest() {
    let mut digest = [0u8; 32];
    for i in 0..32 {
        digest[i] = i as u8;
    }
    let id = BlockId { digest };
    let mut expected = vec![0u8, 0, 0, 0];
    expected.extend(0u8..32);
    assert_eq!(section_key(&BlockSectionId::Header(id)), expected);
    expected[0] = 1;
    assert_eq!(section_key(&BlockSectionId::Body(id)), expected);
}

#[test]
fn keys_agree_with_the_serializer_on_an_enum() {
    let header: Result<[u8; 32], [u8; 32]> = Ok([7; 32]);
    let body: Result<[u8; 32], [u8; 32]> = Err([7; 32]);
    assert_eq!(
        section_key(&BlockSectionId::Header(block_id(7))),
        bincode::serialize(&header).unwrap()
    );
    assert_eq!(
        section_key(&BlockSectionId::Body(block_id(7))),
        bincode::serialize(&body).unwrap()
    );
}

#[test]
fn section_ids_name_the_section_of_a_modifier() {
    assert_eq!(
        BlockSectionId::new(BlockSectionType::Header, &modifier_id(3)),
        BlockSectionId::Header(block_id(3))
    );
    assert_eq!(
        BlockSectionId::new(BlockSectionType::Body, &modifier_id(3)),
        BlockSectionId::Body(block_id(3))
    );
}

#[test]
fn block_ids_are_compared_whole() {
    let mut other = block_id(5);
    assert!(other.same_as(&block_id(5)));
    other.digest[31] = 6;
    assert!(!other.same_as(&block_id(5)));
    other = block_id(5);
    other.digest[0] = 6;
    assert!(!block_id(5).same_as(&other));
}

#[test]
fn no_record_is_no_section() {
    assert_eq!(get_section(None), None);
}

#[test]
fn header_records_are_read() {
    assert_eq!(get_section(Some(header_record())), Some(BlockSection::Header(header())));
}

#[test]
fn body_records_are_read() {
    assert_eq!(
        get_section(Some(body_record(&[9, 8, 7]))),
        Some(BlockSection::Body(BlockBody { bytes: vec![9, 8, 7] }))
    );
    assert_eq!(
        get_section(Some(body_record(&[]))),
        Some(BlockSection::Body(BlockBody { bytes: vec![] }))
    );
}

#[test]
fn bytes_behind_a_section_are_ignored() {
    let mut bytes = header_record();
    bytes.extend([1, 2, 3]);
    assert_eq!(get_section(Some(bytes)), Some(BlockSection::Header(header())));
    let mut bytes = body_record(&[9]);
    bytes.extend([1, 2, 3]);
    assert_eq!(
        get_section(Some(bytes)),
        Some(BlockSection::Body(BlockBody { bytes: vec![9] }))
    );
}

#[test]
fn truncated_records_are_no_section() {
    let full = header_record();
    for len in 0..full.len() {
        assert_eq!(get_section(Some(full[..len].to_vec())), None);
    }
    let full = body_record(&[9, 8, 7]);
    for len in 0..full.len() {
        assert_eq!(get_section(Some(full[..len].to_vec())), None);
    }
}

#[test]
fn unknown_variants_are_no_section() {
    let mut bytes = header_record();
    bytes[0] = 2;
    assert_eq!(get_section(Some(bytes)), None);
    let mut bytes = header_record();
    bytes[3] = 1;
    assert_eq!(get_section(Some(bytes)), None);
}

#[test]
fn overlong_bodies_are_no_section() {
    let mut bytes = vec![1, 0, 0, 0];
    bytes.extend(u64::MAX.to_le_bytes());
    bytes.extend([5; 40]);
    assert_eq!(get_section(Some(bytes)), None);
}

#[test]
fn sections_read_back_as_they_were_serialized() {
    let header: Result<([u8; 32], [u8; 32], u64), Vec<u8>> = Ok(([4; 32], [3; 32], 300));
    assert_eq!(
        get_section(Some(bincode::serialize(&header).unwrap())),
        Some(BlockSection::Header(BlockHeader {
            id: block_id(4),
            parent: block_id(3),
            height: 300
        }))
    );
    let body: Result<([u8; 32], [u8; 32], u64), Vec<u8>> = Err(vec![1, 2]);
    assert_eq!(
        get_section(Some(bincode::serialize(&body).unwrap())),
        Some(BlockSection::Body(BlockBody { bytes: vec![1, 2] }))
    );
}

#[test]
fn sections_of_one_block_do_not_disturb_each_other() {
    let mut store = Store::new();
    let head = BlockSectionId::Header(block_id(1));
    let body = BlockSectionId::Body(block_id(1));
    store.insert(section_key(&head), header_record());
    assert_eq!(section(&store, &body), None);
    store.insert(section_key(&body), body_record(&[6]));
    assert_eq!(section(&store, &head), Some(BlockSection::Header(header())));
    assert_eq!(
        section(&store, &body),
        Some(BlockSection::Body(BlockBody { bytes: vec![6] }))
    );
    assert_eq!(section(&store, &BlockSectionId::Header(block_id(2))), None);
}

#[test]
fn modifiers_exist_where_any_section_is_stored() {
    let mut store = Store::new();
    store.insert(section_key(&BlockSectionId::Header(block_id(1))), header_record());
    store.insert(section_key(&BlockSectionId::Body(block_id(2))), body_record(&[1]));
    store.insert(section_key(&BlockSectionId::Header(block_id(4))), vec![]);
    let exists = |n: u8| contains(&read(&store, contains_keys(&modifier_id(n))));
    assert!(exists(1));
    assert!(exists(2));
    assert!(!exists(3));
    assert!(exists(4));
}

#[test]
fn no_reply_is_no_modifier() {
    assert!(!contains(&vec![]));
    assert!(!contains(&vec![None, None]));
    assert!(contains(&vec![None, Some(vec![])]));
}

#[test]
fn existence_is_asked_of_every_section_type() {
    assert_eq!(
        contains_keys(&modifier_id(9)),
        vec![
            section_key(&BlockSectionId::Header(block_id(9))),
            section_key(&BlockSectionId::Body(block_id(9)))
        ]
    );
}

#[test]
fn bulk_selection_keeps_the_order_and_skips_what_is_missing() {
    let mut store = Store::new();
    for n in [1u8, 2, 4] {
        store.insert(section_key(&BlockSectionId::Body(block_id(n))), body_record(&[n]));
    }
    store.insert(section_key(&BlockSectionId::Header(block_id(3))), header_record());
    let ids: Vec<ModifierId> = [4u8, 3, 1, 5, 4].iter().map(|n| modifier_id(*n)).collect();
    let keys = multi_get_keys(BlockSectionType::Body, &ids);
    assert_eq!(keys.len(), 5);
    assert_eq!(
        multi_get_raw(read(&store, keys)),
        vec![
            SerializedModifier { bytes: body_record(&[4]) },
            SerializedModifier { bytes: body_record(&[1]) },
            SerializedModifier { bytes: body_record(&[4]) }
        ]
    );
    assert_eq!(
        multi_get_raw(read(&store, multi_get_keys(BlockSectionType::Header, &ids))),
        vec![SerializedModifier { bytes: header_record() }]
    );
}

#[test]
fn bulk_selection_of_nothing_is_empty() {
    assert!(multi_get_keys(BlockSectionType::Header, &vec![]).is_empty());
    assert!(multi_get_raw(vec![]).is_empty());
    assert!(multi_get_raw(vec![None, None]).is_empty());
}

#[test]
fn raw_modifiers_are_the_sections_that_single_reads_give() {
    let mut store = Store::new();
    for n in 0u8..6 {
        store.insert(section_key(&BlockSectionId::Body(block_id(n))), body_record(&[n, n]));
    }
    let ids: Vec<ModifierId> = (0u8..6).map(modifier_id).collect();
    let raw = multi_get_raw(read(&store, multi_get_keys(BlockSectionType::Body, &ids)));
    assert_eq!(raw.len(), 6);
    for n in 0u8..6 {
        assert_eq!(
            get_section(Some(raw[n as usize].bytes.clone())),
            section(&store, &BlockSectionId::Body(block_id(n)))
        );
    }
}
