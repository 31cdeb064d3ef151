//! Identifiers, headers, bodies and sections of blocks.
use vstd::prelude::*;

verus! {

/// Identifier of a block: the digest of its header.
#[derive(Clone, Copy, Debug, PartialEq, Eq, Hash)]
pub struct BlockId {
    pub digest: [u8; 32],
}

/// Identifier of a modifier, that is of a block section of any type.
#[derive(Clone, Copy, Debug, PartialEq, Eq, Hash)]
pub struct ModifierId {
    pub digest: [u8; 32],
}

/// A modifier in the form in which the store holds it.
#[derive(Clone, Debug, PartialEq, Eq)]
pub struct SerializedModifier {
    pub bytes: Vec<u8>,
}

/// Header of a block. The origin block has height 0; every other block is one
/// higher than its parent.
#[derive(Clone, Copy, Debug, PartialEq, Eq)]
pub struct BlockHeader {
    pub id: BlockId,
    pub parent: BlockId,
    pub height: u64,
}

/// Body of a block, opaque to the history.
#[derive(Clone, Debug, PartialEq, Eq)]
pub struct BlockBody {
    pub bytes: Vec<u8>,
}

/// The sections that a block is stored in.
#[derive(Clone, Copy, Debug, PartialEq, Eq)]
pub enum BlockSectionType {
    Header,
    Body,
}

/// Names one section of one block.
#[derive(Clone, Copy, Debug, PartialEq, Eq)]
pub enum BlockSectionId {
    Header(BlockId),
    Body(BlockId),
}

/// One section of a block.
#[derive(Clone, Debug, PartialEq, Eq)]
pub enum BlockSection {
    Header(BlockHeader),
    Body(BlockBody),
}

/// Mathematical value of a [`BlockSection`].
pub enum SectionModel {
    Header(BlockHeader),
    Body(Seq<u8>),
}

impl View for SerializedModifier {
    type V = Seq<u8>;

    open spec fn view(&self) -> Seq<u8> {
        self.bytes@
    }
}

impl View for BlockSection {
    type V = SectionModel;

    open spec fn view(&self) -> SectionModel {
        match self {
            BlockSection::Header(header) => SectionModel::Header(*header),
            BlockSection::Body(body) => SectionModel::Body(body.bytes@),
        }
    }
}

impl BlockId {
    /// Whether both identifiers are the same.
    pub fn same_as(&self, other: &BlockId) -> (same: bool)
        ensures
            same == (*self == *other),
    {
        let mut i: usize = 0;
        while i < 32
            invariant
                i <= 32,
                forall|j: int| 0 <= j < i ==> self.digest[j] == other.digest[j],
            decreases 32 - i,
        {
            if self.digest[i] != other.digest[i] {
                return false;
            }
            i += 1;
        }
        assert(self.digest =~= other.digest);
        true
    }
}

impl BlockSectionId {
    /// Mathematical counterpart of [`BlockSectionId::new`].
    pub open spec fn of(sec_type: BlockSectionType, id: ModifierId) -> BlockSectionId {
        match sec_type {
            BlockSectionType::Header => BlockSectionId::Header(BlockId { digest: id.digest }),
            BlockSectionType::Body => BlockSectionId::Body(BlockId { digest: id.digest }),
        }
    }

    /// The section of type `sec_type` that the modifier `id` names.
    pub fn new(sec_type: BlockSectionType, id: &ModifierId) -> (section_id: BlockSectionId)
        ensures
            section_id == BlockSectionId::of(sec_type, *id),
            section_id matches BlockSectionId::Header(block) ==> sec_type is Header && block.digest
                == id.digest,
            section_id matches BlockSectionId::Body(block) ==> sec_type is Body && block.digest
                == id.digest,
    {
        match sec_type {
            BlockSectionType::Header => BlockSectionId::Header(BlockId { digest: id.digest }),
            BlockSectionType::Body => BlockSectionId::Body(BlockId { digest: id.digest }),
        }
    }
}

} // verus!
