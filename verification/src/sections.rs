//! Queries that are answered from a fixed set of keys: the caller reads the records
//! under the keys given and hands them back in the order of the keys.
use crate::block::{BlockSection, BlockSectionId, BlockSectionType, ModifierId, SectionModel, SerializedModifier};
use crate::codec::{begins_with_body, begins_with_header, decode_section, is_section_in, key_bytes, section_key};
use crate::store::{read_section, record};
use vstd::prelude::*;

verus! {

/// Mathematical value of the answer of [`get_section`].
pub open spec fn section_model(section: Option<BlockSection>) -> Option<SectionModel> {
    match section {
        Some(section) => Some(section@),
        None => None,
    }
}

/// The block section in the record read under [`section_key`]. There is none where
/// there is no record, and none where the record does not begin with a section.
pub fn get_section(stored: Option<Vec<u8>>) -> (section: Option<BlockSection>)
    ensures
        section_model(section) == read_section(record(stored)),
        match (stored, section) {
            (Some(bytes), Some(section)) => is_section_in(bytes@, section@),
            (Some(bytes), None) => !begins_with_header(bytes@) && !begins_with_body(bytes@),
            (None, section) => section is None,
        },
        stored is None ==> section is None,
        section matches Some(BlockSection::Header(header)) ==> {
            let bytes = stored->0@;
            &&& bytes.len() >= 76 && bytes[0] == 0 && bytes[1] == 0 && bytes[2] == 0 && bytes[3] == 0
            &&& header.id.digest@ == bytes.subrange(4, 36)
            &&& header.parent.digest@ == bytes.subrange(36, 68)
            &&& header.height == bytes[68] + bytes[69] * 0x100 + bytes[70] * 0x10000 + bytes[71]
                * 0x1000000 + bytes[72] * 0x100000000 + bytes[73] * 0x10000000000 + bytes[74]
                * 0x1000000000000 + bytes[75] * 0x100000000000000
        },
        section matches Some(BlockSection::Body(body)) ==> {
            let bytes = stored->0@;
            let len = bytes[4] + bytes[5] * 0x100 + bytes[6] * 0x10000 + bytes[7]
                * 0x1000000 + bytes[8] * 0x100000000 + bytes[9] * 0x10000000000 + bytes[10]
                * 0x1000000000000 + bytes[11] * 0x100000000000000;
            &&& bytes.len() >= 12 + len
            &&& bytes[0] == 1 && bytes[1] == 0 && bytes[2] == 0 && bytes[3] == 0
            &&& body.bytes@ == bytes.subrange(12, 12 + len)
        },
        section is None && stored is Some ==> {
            let bytes = stored->0@;
            let len = bytes[4] + bytes[5] * 0x100 + bytes[6] * 0x10000 + bytes[7]
                * 0x1000000 + bytes[8] * 0x100000000 + bytes[9] * 0x10000000000 + bytes[10]
                * 0x1000000000000 + bytes[11] * 0x100000000000000;
            &&& !(bytes.len() >= 76 && bytes[0] == 0 && bytes[1] == 0 && bytes[2] == 0 && bytes[3] == 0)
            &&& !(bytes.len() >= 12 && bytes.len() >= 12 + len && bytes[0] == 1 && bytes[1] == 0
                && bytes[2] == 0 && bytes[3] == 0)
        },
{
    match stored {
        Some(bytes) => decode_section(bytes.as_slice()),
        None => None,
    }
}

/// Views of a list of keys.
pub open spec fn key_views(keys: Seq<Vec<u8>>) -> Seq<Seq<u8>> {
    Seq::new(keys.len(), |i: int| keys[i]@)
}

/// Views of the records read under a list of keys.
pub open spec fn records(replies: Seq<Option<Vec<u8>>>) -> Seq<Option<Seq<u8>>> {
    Seq::new(replies.len(), |i: int| record(replies[i]))
}

/// Views of modifiers.
pub open spec fn modifier_views(modifiers: Seq<SerializedModifier>) -> Seq<Seq<u8>> {
    Seq::new(modifiers.len(), |i: int| modifiers[i]@)
}

/// The keys that [`contains`] needs the records of: one for each section type.
pub open spec fn modifier_keys(id: ModifierId) -> Seq<Seq<u8>> {
    seq![
        key_bytes(BlockSectionId::of(BlockSectionType::Header, id)),
        key_bytes(BlockSectionId::of(BlockSectionType::Body, id)),
    ]
}

/// The keys to read before asking whether the modifier `id` exists.
pub fn contains_keys(id: &ModifierId) -> (keys: Vec<Vec<u8>>)
    ensures
        key_views(keys@) == modifier_keys(*id),
        keys@.len() == 2,
        keys@[0]@ == seq![0u8, 0u8, 0u8, 0u8] + id.digest@,
        keys@[1]@ == seq![1u8, 0u8, 0u8, 0u8] + id.digest@,
{
    let mut keys: Vec<Vec<u8>> = Vec::new();
    keys.push(section_key(&BlockSectionId::new(BlockSectionType::Header, id)));
    keys.push(section_key(&BlockSectionId::new(BlockSectionType::Body, id)));
    assert(key_views(keys@) =~= modifier_keys(*id));
    keys
}

/// Whether any of the records read under [`contains_keys`] is there.
pub fn contains(replies: &Vec<Option<Vec<u8>>>) -> (found: bool)
    ensures
        found == exists|i: int| 0 <= i < replies.len() && (#[trigger] replies[i]) is Some,
{
    let mut i: usize = 0;
    while i < replies.len()
        invariant
            i <= replies.len(),
            forall|j: int| 0 <= j < i ==> (#[trigger] replies[j]) is None,
        decreases replies.len() - i,
    {
        if replies[i].is_some() {
            return true;
        }
        i += 1;
    }
    false
}

/// The keys of the sections of one type of several modifiers, in their order.
pub open spec fn section_keys(sec_type: BlockSectionType, ids: Seq<ModifierId>) -> Seq<Seq<u8>> {
    Seq::new(ids.len(), |i: int| key_bytes(BlockSectionId::of(sec_type, ids[i])))
}

/// The records that are there, in their order.
pub open spec fn present(replies: Seq<Option<Seq<u8>>>) -> Seq<Seq<u8>>
    decreases replies.len(),
{
    if replies.len() == 0 {
        Seq::empty()
    } else {
        match replies.last() {
            Some(bytes) => present(replies.drop_last()).push(bytes),
            None => present(replies.drop_last()),
        }
    }
}

/// The records that are there are the replies that are some record, in their order.
pub proof fn law_present(replies: Seq<Option<Seq<u8>>>)
    ensures
        present(replies) == replies.filter(|reply: Option<Seq<u8>>| reply is Some).map_values(
            |reply: Option<Seq<u8>>| reply->0,
        ),
    decreases replies.len(),
{
    reveal(Seq::filter);
    let found = |reply: Option<Seq<u8>>| reply is Some;
    let bytes = |reply: Option<Seq<u8>>| reply->0;
    if replies.len() > 0 {
        law_present(replies.drop_last());
    }
    assert(present(replies) =~= replies.filter(found).map_values(bytes));
}

proof fn lemma_records_found(replies: Seq<Option<Vec<u8>>>)
    ensures
        present(records(replies)) == replies.filter(
            |reply: Option<Vec<u8>>| reply is Some,
        ).map_values(|reply: Option<Vec<u8>>| reply->0@),
    decreases replies.len(),
{
    reveal(Seq::filter);
    let found = |reply: Option<Vec<u8>>| reply is Some;
    let bytes = |reply: Option<Vec<u8>>| reply->0@;
    if replies.len() > 0 {
        lemma_records_found(replies.drop_last());
        assert(records(replies).drop_last() =~= records(replies.drop_last()));
    }
    assert(present(records(replies)) =~= replies.filter(found).map_values(bytes));
}

/// The keys to read for a bulk selection of the sections of one type.
pub fn multi_get_keys(sec_type: BlockSectionType, ids: &Vec<ModifierId>) -> (keys: Vec<Vec<u8>>)
    ensures
        key_views(keys@) == section_keys(sec_type, ids@),
        keys@.len() == ids@.len(),
        forall|i: int|
            0 <= i < ids@.len() ==> (#[trigger] keys@[i])@ == (match sec_type {
                BlockSectionType::Header => seq![0u8, 0u8, 0u8, 0u8],
                BlockSectionType::Body => seq![1u8, 0u8, 0u8, 0u8],
            }) + ids@[i].digest@,
{
    let mut keys: Vec<Vec<u8>> = Vec::new();
    let mut i: usize = 0;
    while i < ids.len()
        invariant
            i <= ids.len(),
            keys.len() == i,
            forall|j: int|
                0 <= j < i ==> (#[trigger] keys[j])@ == key_bytes(
                    BlockSectionId::of(sec_type, ids[j]),
                ),
            forall|j: int|
                0 <= j < i ==> (#[trigger] keys[j])@ == (match sec_type {
                    BlockSectionType::Header => seq![0u8, 0u8, 0u8, 0u8],
                    BlockSectionType::Body => seq![1u8, 0u8, 0u8, 0u8],
                }) + ids[j].digest@,
        decreases ids.len() - i,
    {
        keys.push(section_key(&BlockSectionId::new(sec_type, &ids[i])));
        i += 1;
    }
    assert(key_views(keys@) =~= section_keys(sec_type, ids@));
    keys
}

/// The modifiers selected by [`multi_get_keys`], in serialized form: the records that
/// are there, as they were stored and in the order asked for.
pub fn multi_get_raw(replies: Vec<Option<Vec<u8>>>) -> (modifiers: Vec<SerializedModifier>)
    ensures
        modifier_views(modifiers@) == present(records(replies@)),
        modifiers@.map_values(|modifier: SerializedModifier| modifier.bytes@) == replies@.filter(
            |reply: Option<Vec<u8>>| reply is Some,
        ).map_values(|reply: Option<Vec<u8>>| reply->0@),
{
    let ghost all = records(replies@);
    let mut modifiers: Vec<SerializedModifier> = Vec::new();
    let mut i: usize = 0;
    assert(all.take(0) =~= Seq::empty());
    while i < replies.len()
        invariant
            i <= replies.len(),
            all == records(replies@),
            modifier_views(modifiers@) =~= present(all.take(i as int)),
        decreases replies.len() - i,
    {
        assert(all.take(i + 1).drop_last() =~= all.take(i as int));
        assert(all.take(i + 1).last() == record(replies[i as int]));
        match &replies[i] {
            Some(bytes) => {
                let bytes = bytes.clone();
                let ghost before = modifiers@;
                modifiers.push(SerializedModifier { bytes });
                assert(modifier_views(modifiers@) =~= modifier_views(before).push(bytes@));
            },
            None => {},
        }
        i += 1;
    }
    assert(all.take(replies.len() as int) =~= all);
    proof {
        lemma_records_found(replies@);
        assert(modifiers@.map_values(|modifier: SerializedModifier| modifier.bytes@)
            =~= modifier_views(modifiers@));
    }
    modifiers
}

} // verus!
