//! Byte layout of storage keys and of stored sections.
//!
//! Integers are little-endian and of fixed width. An enum is its variant index in
//! four bytes, followed by the variant's content. A byte vector is its length in
//! eight bytes, followed by the bytes.
use crate::block::{BlockBody, BlockHeader, BlockId, BlockSection, BlockSectionId, SectionModel};
use vstd::prelude::*;

verus! {

/// The `width` lowest base-256 digits of `value`, lowest first.
pub open spec fn le_bytes(value: nat, width: nat) -> Seq<u8>
    decreases width,
{
    if width == 0 {
        Seq::empty()
    } else {
        seq![(value % 256) as u8] + le_bytes(value / 256, (width - 1) as nat)
    }
}

/// The number whose base-256 digits are `bytes`, lowest first.
pub open spec fn le_value(bytes: Seq<u8>) -> nat
    decreases bytes.len(),
{
    if bytes.len() == 0 {
        0
    } else {
        bytes[0] as nat + 256 * le_value(bytes.skip(1))
    }
}

/// A number below 256 to the power of `width`.
pub open spec fn fits(value: nat, width: nat) -> bool
    decreases width,
{
    if width == 0 {
        value == 0
    } else {
        fits(value / 256, (width - 1) as nat)
    }
}

proof fn lemma_le_bytes_len(value: nat, width: nat)
    ensures
        le_bytes(value, width).len() == width,
    decreases width,
{
    if width > 0 {
        lemma_le_bytes_len(value / 256, (width - 1) as nat);
    }
}

/// Reading a number's digits gives the number back.
pub proof fn lemma_le_round_trip(value: nat, width: nat)
    requires
        fits(value, width),
    ensures
        le_value(le_bytes(value, width)) == value,
        le_bytes(value, width).len() == width,
    decreases width,
{
    lemma_le_bytes_len(value, width);
    if width > 0 {
        lemma_le_round_trip(value / 256, (width - 1) as nat);
        assert(le_bytes(value, width).skip(1) =~= le_bytes(value / 256, (width - 1) as nat));
    }
}

proof fn lemma_le_value_step(bytes: Seq<u8>, k: int)
    requires
        0 <= k <= bytes.len(),
    ensures
        le_value(bytes.skip(k)) == if k < bytes.len() {
            bytes[k] + 256 * le_value(bytes.skip(k + 1))
        } else {
            0
        },
{
    if k < bytes.len() {
        assert(bytes.skip(k).skip(1) =~= bytes.skip(k + 1));
    }
}

/// The number in four bytes.
pub proof fn lemma_le_value_of_four(bytes: Seq<u8>)
    requires
        bytes.len() == 4,
    ensures
        le_value(bytes) == bytes[0] + bytes[1] * 0x100 + bytes[2] * 0x10000 + bytes[3] * 0x1000000,
{
    assert(bytes.skip(0) =~= bytes);
    lemma_le_value_step(bytes, 0);
    lemma_le_value_step(bytes, 1);
    lemma_le_value_step(bytes, 2);
    lemma_le_value_step(bytes, 3);
    lemma_le_value_step(bytes, 4);
}

/// The number in eight bytes.
pub proof fn lemma_le_value_of_eight(bytes: Seq<u8>)
    requires
        bytes.len() == 8,
    ensures
        le_value(bytes) == bytes[0] + bytes[1] * 0x100 + bytes[2] * 0x10000 + bytes[3] * 0x1000000
            + bytes[4] * 0x100000000 + bytes[5] * 0x10000000000 + bytes[6] * 0x1000000000000
            + bytes[7] * 0x100000000000000,
{
    assert(bytes.skip(0) =~= bytes);
    lemma_le_value_step(bytes, 0);
    lemma_le_value_step(bytes, 1);
    lemma_le_value_step(bytes, 2);
    lemma_le_value_step(bytes, 3);
    lemma_le_value_step(bytes, 4);
    lemma_le_value_step(bytes, 5);
    lemma_le_value_step(bytes, 6);
    lemma_le_value_step(bytes, 7);
    lemma_le_value_step(bytes, 8);
}

/// The four bytes of a variant index below 256.
proof fn lemma_variant_bytes(variant: u32)
    requires
        variant < 256,
    ensures
        le_bytes(variant as nat, 4) == seq![variant as u8, 0u8, 0u8, 0u8],
{
    reveal_with_fuel(le_bytes, 5);
    assert(le_bytes(variant as nat, 4) =~= seq![variant as u8, 0u8, 0u8, 0u8]);
}

proof fn lemma_eight_digits(value: nat)
    ensures
        le_bytes(value, 8) == seq![
            (value % 256) as u8,
            (value / 0x100 % 256) as u8,
            (value / 0x10000 % 256) as u8,
            (value / 0x1000000 % 256) as u8,
            (value / 0x100000000 % 256) as u8,
            (value / 0x10000000000 % 256) as u8,
            (value / 0x1000000000000 % 256) as u8,
            (value / 0x100000000000000 % 256) as u8,
        ],
{
    reveal_with_fuel(le_bytes, 9);
    assert(le_bytes(value, 8) =~= seq![
        (value % 256) as u8,
        (value / 0x100 % 256) as u8,
        (value / 0x10000 % 256) as u8,
        (value / 0x1000000 % 256) as u8,
        (value / 0x100000000 % 256) as u8,
        (value / 0x10000000000 % 256) as u8,
        (value / 0x1000000000000 % 256) as u8,
        (value / 0x100000000000000 % 256) as u8,
    ]);
}

/// Two digests with the same bytes are the same.
pub proof fn lemma_digests_are_their_bytes(a: [u8; 32], b: [u8; 32])
    requires
        a@ == b@,
    ensures
        a == b,
{
    assert forall|i: int| 0 <= i < 32 implies a[i] == b[i] by {
        assert(a@[i] == b@[i]);
    }
    assert(a =~= b);
}

proof fn lemma_u32_fits(value: u32)
    ensures
        fits(value as nat, 4),
{
    reveal_with_fuel(fits, 5);
}

proof fn lemma_u64_fits(value: u64)
    ensures
        fits(value as nat, 8),
{
    reveal_with_fuel(fits, 9);
}

/// Variant index of a section identifier, and of the section that it names.
pub open spec fn variant_index(id: BlockSectionId) -> u32 {
    match id {
        BlockSectionId::Header(_) => 0,
        BlockSectionId::Body(_) => 1,
    }
}

/// The block that a section belongs to.
pub open spec fn block_of(id: BlockSectionId) -> BlockId {
    match id {
        BlockSectionId::Header(block) => block,
        BlockSectionId::Body(block) => block,
    }
}

/// The key under which the store holds the section `id`.
pub open spec fn key_bytes(id: BlockSectionId) -> Seq<u8> {
    le_bytes(variant_index(id) as nat, 4) + block_of(id).digest@
}

/// The bytes that a section is stored as.
pub open spec fn section_bytes(section: SectionModel) -> Seq<u8> {
    match section {
        SectionModel::Header(header) => le_bytes(0, 4) + header.id.digest@ + header.parent.digest@
            + le_bytes(header.height as nat, 8),
        SectionModel::Body(body) => le_bytes(1, 4) + le_bytes(body.len(), 8) + body,
    }
}

/// Whether `bytes` begin with a stored header.
pub open spec fn begins_with_header(bytes: Seq<u8>) -> bool {
    &&& bytes.len() >= 76
    &&& le_value(bytes.take(4)) == 0
}

/// Whether `bytes` begin with a stored body.
pub open spec fn begins_with_body(bytes: Seq<u8>) -> bool {
    &&& bytes.len() >= 12
    &&& le_value(bytes.take(4)) == 1
    &&& bytes.len() >= 12 + le_value(bytes.subrange(4, 12))
}

/// `header` is the header that `bytes` begin with.
pub open spec fn is_header_in(bytes: Seq<u8>, header: BlockHeader) -> bool {
    &&& begins_with_header(bytes)
    &&& header.id.digest@ == bytes.subrange(4, 36)
    &&& header.parent.digest@ == bytes.subrange(36, 68)
    &&& header.height == le_value(bytes.subrange(68, 76))
}

/// `body` is the body that `bytes` begin with.
pub open spec fn is_body_in(bytes: Seq<u8>, body: Seq<u8>) -> bool {
    &&& begins_with_body(bytes)
    &&& body == bytes.subrange(12, 12int + le_value(bytes.subrange(4, 12)))
}

/// `section` is the section that `bytes` begin with. Bytes behind it are ignored.
pub open spec fn is_section_in(bytes: Seq<u8>, section: SectionModel) -> bool {
    match section {
        SectionModel::Header(header) => is_header_in(bytes, header),
        SectionModel::Body(body) => is_body_in(bytes, body),
    }
}

/// The section that `bytes` begin with, if they begin with one.
pub open spec fn decoded(bytes: Seq<u8>) -> Option<SectionModel> {
    if begins_with_header(bytes) || begins_with_body(bytes) {
        Some(choose|section: SectionModel| is_section_in(bytes, section))
    } else {
        None
    }
}

/// Calls `bincode::serialize` on the pair of `variant` and `digest`. Claimed: the
/// call succeeds and returns the four little-endian bytes of `variant` followed by
/// the 32 bytes of `digest`, which are also the bytes of an enum whose variant with
/// that index holds the digest.
#[verifier::external_body]
fn bincode_serialize_id(variant: u32, digest: [u8; 32]) -> (bytes: Vec<u8>)
    ensures
        bytes@ == seq![
            (variant % 256) as u8,
            (variant / 256 % 256) as u8,
            (variant / 65536 % 256) as u8,
            (variant / 16777216) as u8,
        ] + digest@,
{
    bincode::serialize(&(variant, digest)).unwrap()
}

/// Calls `bincode::deserialize` for a two-variant enum. `serde` reads `Result` as
/// such an enum: variant 0 is `Ok`, here a header as the triple of its identifier,
/// its parent and its height; variant 1 is `Err`, here the bytes of a body. Claimed:
/// the call succeeds if and only if the input begins with a complete header or body,
/// returns its fields, and ignores what follows.
#[verifier::external_body]
fn bincode_deserialize_section(bytes: &[u8]) -> (section: Option<
    Result<([u8; 32], [u8; 32], u64), Vec<u8>>,
>)
    ensures
        section matches Some(Ok((id, parent, height))) ==> {
            &&& bytes@.len() >= 76
            &&& bytes@[0] == 0 && bytes@[1] == 0 && bytes@[2] == 0 && bytes@[3] == 0
            &&& id@ == bytes@.subrange(4, 36)
            &&& parent@ == bytes@.subrange(36, 68)
            &&& height == bytes@[68] + bytes@[69] * 0x100 + bytes@[70] * 0x10000 + bytes@[71] * 0x1000000
                    + bytes@[72] * 0x100000000 + bytes@[73] * 0x10000000000 + bytes@[74]
                    * 0x1000000000000 + bytes@[75] * 0x100000000000000
        },
        section matches Some(Err(body)) ==> {
            let len = bytes@[4] + bytes@[5] * 0x100 + bytes@[6] * 0x10000 + bytes@[7] * 0x1000000
                    + bytes@[8] * 0x100000000 + bytes@[9] * 0x10000000000 + bytes@[10]
                    * 0x1000000000000 + bytes@[11] * 0x100000000000000;
            &&& bytes@.len() >= 12 + len
            &&& bytes@[0] == 1 && bytes@[1] == 0 && bytes@[2] == 0 && bytes@[3] == 0
            &&& body@ == bytes@.subrange(12, 12 + len)
        },
        section is None ==> {
            let len = bytes@[4] + bytes@[5] * 0x100 + bytes@[6] * 0x10000 + bytes@[7] * 0x1000000
                    + bytes@[8] * 0x100000000 + bytes@[9] * 0x10000000000 + bytes@[10]
                    * 0x1000000000000 + bytes@[11] * 0x100000000000000;
            &&& !(bytes@.len() >= 76 && bytes@[0] == 0 && bytes@[1] == 0 && bytes@[2] == 0
                && bytes@[3] == 0)
            &&& !(bytes@.len() >= 12 && bytes@.len() >= 12 + len && bytes@[0] == 1 && bytes@[1] == 0
                && bytes@[2] == 0 && bytes@[3] == 0)
        },
{
    bincode::deserialize(bytes).ok()
}

/// What a record has to begin with for a header or a body to be read from it, byte by byte.
pub proof fn law_record_layout(bytes: Seq<u8>)
    ensures
        begins_with_header(bytes) <==> bytes.len() >= 76 && bytes[0] == 0 && bytes[1] == 0
            && bytes[2] == 0 && bytes[3] == 0,
        bytes.len() >= 76 ==> le_value(bytes.subrange(68, 76)) == bytes[68] + bytes[69] * 0x100 + bytes[70] * 0x10000 + bytes[71] * 0x1000000
                    + bytes[72] * 0x100000000 + bytes[73] * 0x10000000000 + bytes[74]
                    * 0x1000000000000 + bytes[75] * 0x100000000000000,
        bytes.len() >= 12 ==> le_value(bytes.subrange(4, 12)) == bytes[4] + bytes[5] * 0x100 + bytes[6] * 0x10000 + bytes[7] * 0x1000000
                    + bytes[8] * 0x100000000 + bytes[9] * 0x10000000000 + bytes[10]
                    * 0x1000000000000 + bytes[11] * 0x100000000000000,
        begins_with_body(bytes) <==> {
            &&& bytes.len() >= 12
            &&& bytes[0] == 1 && bytes[1] == 0 && bytes[2] == 0 && bytes[3] == 0
            &&& bytes.len() >= 12 + bytes[4] + bytes[5] * 0x100 + bytes[6] * 0x10000 + bytes[7] * 0x1000000
                    + bytes[8] * 0x100000000 + bytes[9] * 0x10000000000 + bytes[10]
                    * 0x1000000000000 + bytes[11] * 0x100000000000000
        },
{
    if bytes.len() >= 12 {
        lemma_le_value_of_four(bytes.take(4));
        lemma_le_value_of_eight(bytes.subrange(4, 12));
    }
    if bytes.len() >= 76 {
        lemma_le_value_of_eight(bytes.subrange(68, 76));
    }
}

/// At most one section begins a byte string, so [`decoded`] picks the one there is.
pub proof fn lemma_decoded_is_unique(bytes: Seq<u8>, section: SectionModel)
    requires
        is_section_in(bytes, section),
    ensures
        decoded(bytes) == Some(section),
{
    let picked = choose|section: SectionModel| is_section_in(bytes, section);
    assert(is_section_in(bytes, picked));
    match (picked, section) {
        (SectionModel::Header(a), SectionModel::Header(b)) => {
            lemma_digests_are_their_bytes(a.id.digest, b.id.digest);
            lemma_digests_are_their_bytes(a.parent.digest, b.parent.digest);
        },
        _ => {},
    }
}

/// Some digest has given bytes at its first `k` positions.
proof fn lemma_digest_with(bytes: Seq<u8>, k: nat) -> (digest: [u8; 32])
    requires
        bytes.len() == 32,
        k <= 32,
    ensures
        digest@.len() == 32,
        forall|i: int| 0 <= i < k ==> digest@[i] == bytes[i],
    decreases k,
{
    if k == 0 {
        arbitrary()
    } else {
        let shorter = lemma_digest_with(bytes, (k - 1) as nat);
        vstd::array::spec_array_update(shorter, k - 1, bytes[k - 1])
    }
}

/// What is decoded stands at the beginning of the bytes.
pub proof fn lemma_decoded_section_is_there(bytes: Seq<u8>)
    requires
        decoded(bytes) is Some,
    ensures
        is_section_in(bytes, decoded(bytes)->0),
{
    if begins_with_body(bytes) {
        assert(is_section_in(
            bytes,
            SectionModel::Body(bytes.subrange(12, 12int + le_value(bytes.subrange(4, 12)))),
        ));
    } else {
        law_record_layout(bytes);
        let id = lemma_digest_with(bytes.subrange(4, 36), 32);
        let parent = lemma_digest_with(bytes.subrange(36, 68), 32);
        let height = le_value(bytes.subrange(68, 76)) as u64;
        let header = BlockHeader {
            id: BlockId { digest: id },
            parent: BlockId { digest: parent },
            height,
        };
        assert(id@ =~= bytes.subrange(4, 36));
        assert(parent@ =~= bytes.subrange(36, 68));
        assert(is_section_in(bytes, SectionModel::Header(header)));
    }
}

/// The key of a section is its variant index, 0 for a header and 1 for a body, in four
/// bytes of which the last three are 0, and behind it the digest of the block, unchanged.
pub proof fn law_key_layout(block: BlockId)
    ensures
        key_bytes(BlockSectionId::Header(block)) == seq![0u8, 0u8, 0u8, 0u8] + block.digest@,
        key_bytes(BlockSectionId::Body(block)) == seq![1u8, 0u8, 0u8, 0u8] + block.digest@,
        key_bytes(BlockSectionId::Header(block)).len() == 36,
        key_bytes(BlockSectionId::Body(block)).len() == 36,
        forall|i: int|
            #![trigger block.digest@[i]]
            0 <= i < 32 ==> key_bytes(BlockSectionId::Header(block))[4 + i] == block.digest@[i]
                && key_bytes(BlockSectionId::Body(block))[4 + i] == block.digest@[i],
{
    lemma_variant_bytes(0);
    lemma_variant_bytes(1);
}

/// The storage key of a section.
pub fn section_key(id: &BlockSectionId) -> (key: Vec<u8>)
    ensures
        key@ == key_bytes(*id),
        key@.len() == 36,
        *id matches BlockSectionId::Header(block) ==> key@ == seq![0u8, 0u8, 0u8, 0u8]
            + block.digest@,
        *id matches BlockSectionId::Body(block) ==> key@ == seq![1u8, 0u8, 0u8, 0u8]
            + block.digest@,
{
    proof {
        law_key_layout(block_of(*id));
    }
    match id {
        BlockSectionId::Header(block) => bincode_serialize_id(0, block.digest),
        BlockSectionId::Body(block) => bincode_serialize_id(1, block.digest),
    }
}

/// The section that stored bytes begin with, or `None` where they begin with none.
pub fn decode_section(bytes: &[u8]) -> (section: Option<BlockSection>)
    ensures
        match section {
            Some(section) => is_section_in(bytes@, section@) && decoded(bytes@) == Some(section@),
            None => !begins_with_header(bytes@) && !begins_with_body(bytes@) && decoded(
                bytes@,
            ) is None,
        },
        section matches Some(BlockSection::Header(header)) ==> {
            &&& bytes@.len() >= 76 && bytes@[0] == 0 && bytes@[1] == 0 && bytes@[2] == 0 && bytes@[3] == 0
            &&& header.id.digest@ == bytes@.subrange(4, 36)
            &&& header.parent.digest@ == bytes@.subrange(36, 68)
            &&& header.height == bytes@[68] + bytes@[69] * 0x100 + bytes@[70] * 0x10000 + bytes@[71]
                * 0x1000000 + bytes@[72] * 0x100000000 + bytes@[73] * 0x10000000000 + bytes@[74]
                * 0x1000000000000 + bytes@[75] * 0x100000000000000
        },
        section matches Some(BlockSection::Body(body)) ==> {
            let len = bytes@[4] + bytes@[5] * 0x100 + bytes@[6] * 0x10000 + bytes@[7]
                * 0x1000000 + bytes@[8] * 0x100000000 + bytes@[9] * 0x10000000000 + bytes@[10]
                * 0x1000000000000 + bytes@[11] * 0x100000000000000;
            &&& bytes@.len() >= 12 + len
            &&& bytes@[0] == 1 && bytes@[1] == 0 && bytes@[2] == 0 && bytes@[3] == 0
            &&& body.bytes@ == bytes@.subrange(12, 12 + len)
        },
        section is None ==> {
            let len = bytes@[4] + bytes@[5] * 0x100 + bytes@[6] * 0x10000 + bytes@[7]
                * 0x1000000 + bytes@[8] * 0x100000000 + bytes@[9] * 0x10000000000 + bytes@[10]
                * 0x1000000000000 + bytes@[11] * 0x100000000000000;
            &&& !(bytes@.len() >= 76 && bytes@[0] == 0 && bytes@[1] == 0 && bytes@[2] == 0 && bytes@[3] == 0)
            &&& !(bytes@.len() >= 12 && bytes@.len() >= 12 + len && bytes@[0] == 1 && bytes@[1] == 0 && bytes@[2]
                == 0 && bytes@[3] == 0)
        },
{
    proof {
        law_record_layout(bytes@);
    }
    match bincode_deserialize_section(bytes) {
        Some(Ok((id, parent, height))) => {
            let header = BlockHeader {
                id: BlockId { digest: id },
                parent: BlockId { digest: parent },
                height,
            };
            proof {
                lemma_decoded_is_unique(bytes@, SectionModel::Header(header));
            }
            Some(BlockSection::Header(header))
        },
        Some(Err(body)) => {
            proof {
                lemma_decoded_is_unique(bytes@, SectionModel::Body(body@));
            }
            Some(BlockSection::Body(BlockBody { bytes: body }))
        },
        None => None,
    }
}

/// A header is stored as its variant, its identifier, its parent and the eight digits of
/// its height; a body as its variant, the eight digits of its length and its bytes.
pub proof fn law_section_layout(header: BlockHeader, body: Seq<u8>)
    ensures
        section_bytes(SectionModel::Header(header)) == seq![0u8, 0u8, 0u8, 0u8]
            + header.id.digest@ + header.parent.digest@ + seq![
            (header.height % 256) as u8,
            (header.height / 0x100 % 256) as u8,
            (header.height / 0x10000 % 256) as u8,
            (header.height / 0x1000000 % 256) as u8,
            (header.height / 0x100000000 % 256) as u8,
            (header.height / 0x10000000000 % 256) as u8,
            (header.height / 0x1000000000000 % 256) as u8,
            (header.height / 0x100000000000000 % 256) as u8,
        ],
        section_bytes(SectionModel::Body(body)) == seq![1u8, 0u8, 0u8, 0u8] + seq![
            (body.len() % 256) as u8,
            (body.len() / 0x100 % 256) as u8,
            (body.len() / 0x10000 % 256) as u8,
            (body.len() / 0x1000000 % 256) as u8,
            (body.len() / 0x100000000 % 256) as u8,
            (body.len() / 0x10000000000 % 256) as u8,
            (body.len() / 0x1000000000000 % 256) as u8,
            (body.len() / 0x100000000000000 % 256) as u8,
        ] + body,
{
    lemma_variant_bytes(0);
    lemma_variant_bytes(1);
    lemma_eight_digits(header.height as nat);
    lemma_eight_digits(body.len());
}

/// A stored section reads back as itself, whatever follows it in the record. A body's
/// length has to fit the eight bytes that it is stored in.
pub proof fn lemma_section_round_trip(section: SectionModel, rest: Seq<u8>)
    requires
        section matches SectionModel::Body(body) ==> body.len() <= u64::MAX,
    ensures
        decoded(section_bytes(section) + rest) == Some(section),
{
    let bytes = section_bytes(section) + rest;
    match section {
        SectionModel::Header(header) => {
            lemma_u32_fits(0);
            lemma_le_round_trip(0, 4);
            lemma_u64_fits(header.height);
            lemma_le_round_trip(header.height as nat, 8);
            assert(bytes.take(4) =~= le_bytes(0, 4));
            assert(bytes.subrange(4, 36) =~= header.id.digest@);
            assert(bytes.subrange(36, 68) =~= header.parent.digest@);
            assert(bytes.subrange(68, 76) =~= le_bytes(header.height as nat, 8));
        },
        SectionModel::Body(body) => {
            lemma_u32_fits(1);
            lemma_le_round_trip(1, 4);
            lemma_u64_fits(body.len() as u64);
            lemma_le_round_trip(body.len(), 8);
            assert(bytes.take(4) =~= le_bytes(1, 4));
            assert(bytes.subrange(4, 12) =~= le_bytes(body.len(), 8));
            assert(bytes.subrange(12, 12int + body.len()) =~= body);
        },
    }
    lemma_decoded_is_unique(bytes, section);
}

/// Every key has 36 bytes, and two sections never share one.
pub proof fn lemma_keys_are_distinct(a: BlockSectionId, b: BlockSectionId)
    ensures
        key_bytes(a).len() == 36,
        key_bytes(a) == key_bytes(b) ==> a == b,
{
    lemma_u32_fits(variant_index(a));
    lemma_u32_fits(variant_index(b));
    lemma_le_round_trip(variant_index(a) as nat, 4);
    lemma_le_round_trip(variant_index(b) as nat, 4);
    if key_bytes(a) == key_bytes(b) {
        assert(key_bytes(a).take(4) =~= le_bytes(variant_index(a) as nat, 4));
        assert(key_bytes(b).take(4) =~= le_bytes(variant_index(b) as nat, 4));
        assert(block_of(a).digest =~= block_of(b).digest) by {
            assert forall|i: int| 0 <= i < 32 implies block_of(a).digest[i] == block_of(b).digest[i] by {
                assert(key_bytes(a)[4 + i] == block_of(a).digest@[i]);
                assert(key_bytes(b)[4 + i] == block_of(b).digest@[i]);
            }
        }
    }
}

} // verus!
