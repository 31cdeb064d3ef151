//! The store as a map from keys to records, and what a history in it is.
use crate::block::{BlockHeader, BlockId, BlockSectionId, BlockSectionType, ModifierId, SectionModel};
use crate::codec::{decoded, key_bytes};
use vstd::prelude::*;

verus! {

/// Everything that a store holds at one moment.
pub type Store = Map<Seq<u8>, Seq<u8>>;

/// Mathematical value of a record that was read.
pub open spec fn record(reply: Option<Vec<u8>>) -> Option<Seq<u8>> {
    match reply {
        Some(bytes) => Some(bytes@),
        None => None,
    }
}

/// The record under `key`, if there is one.
pub open spec fn lookup(store: Store, key: Seq<u8>) -> Option<Seq<u8>> {
    if store.contains_key(key) {
        Some(store[key])
    } else {
        None
    }
}

/// The section in a record that was read: none where there is no record, and none
/// where the record does not begin with a section.
pub open spec fn read_section(reply: Option<Seq<u8>>) -> Option<SectionModel> {
    match reply {
        Some(bytes) => decoded(bytes),
        None => None,
    }
}

/// The section that the store holds under the identifier `id`.
pub open spec fn stored_section(store: Store, id: BlockSectionId) -> Option<SectionModel> {
    read_section(lookup(store, key_bytes(id)))
}

/// The key of the record that says which block is the tip: "best_tip" in ASCII. The
/// record is the key of that block's header.
pub open spec fn tip_key() -> Seq<u8> {
    seq![98u8, 101u8, 115u8, 116u8, 95u8, 116u8, 105u8, 112u8]
}

/// Whether the store has a record for any section of the modifier `id`.
pub open spec fn contains_modifier(store: Store, id: ModifierId) -> bool {
    ||| lookup(store, key_bytes(BlockSectionId::of(BlockSectionType::Header, id))) is Some
    ||| lookup(store, key_bytes(BlockSectionId::of(BlockSectionType::Body, id))) is Some
}

/// The headers from the origin block, at height 0, to a tip.
pub open spec fn is_chain(chain: Seq<BlockHeader>) -> bool {
    &&& chain.len() > 0
    &&& forall|i: int| 0 <= i < chain.len() ==> (#[trigger] chain[i]).height == i
    &&& forall|i: int, j: int|
        #![trigger chain[i], chain[j]]
        0 <= i && j == i + 1 && j < chain.len() ==> chain[j].parent == chain[i].id
}

/// `chain` is the best chain of the history in `store`: the store names its last
/// header as the tip and holds each of its headers.
pub open spec fn holds_chain(store: Store, chain: Seq<BlockHeader>) -> bool {
    &&& is_chain(chain)
    &&& lookup(store, tip_key()) == Some(key_bytes(BlockSectionId::Header(chain.last().id)))
    &&& forall|i: int|
        0 <= i < chain.len() ==> stored_section(
            store,
            BlockSectionId::Header((#[trigger] chain[i]).id),
        ) == Some(SectionModel::Header(chain[i]))
}

/// Whether the block `id` stands at position `i` of the chain.
pub open spec fn stands_at(chain: Seq<BlockHeader>, id: BlockId, i: int) -> bool {
    0 <= i < chain.len() && chain[i].id == id
}

/// Whether the block `id` is in the chain.
pub open spec fn is_member(chain: Seq<BlockHeader>, id: BlockId) -> bool {
    exists|i: int| stands_at(chain, id, i)
}

/// The last `n` headers of the chain in chain order, at least one, and all of them
/// where the chain is shorter.
pub open spec fn tail_of(chain: Seq<BlockHeader>, n: nat) -> Seq<BlockHeader> {
    let wanted = if n == 0 {
        1
    } else {
        n
    };
    if wanted <= chain.len() {
        chain.skip(chain.len() - wanted)
    } else {
        chain
    }
}

/// The identifiers of headers, in their order.
pub open spec fn ids_of(headers: Seq<BlockHeader>) -> Seq<BlockId> {
    Seq::new(headers.len(), |i: int| headers[i].id)
}

/// The blocks right after position `i`, up to the tip and at most `cap` of them.
pub open spec fn after(chain: Seq<BlockHeader>, i: int, cap: nat) -> Seq<BlockId> {
    let end = if i + 1 + cap <= chain.len() {
        i + 1 + cap
    } else {
        chain.len() as int
    };
    ids_of(chain.subrange(i + 1, end))
}

/// The blocks that follow `pre_start` in the chain, up to the tip and at most `cap` of
/// them; none where `pre_start` is not in the chain.
pub open spec fn follow_of(chain: Seq<BlockHeader>, pre_start: BlockId, cap: nat) -> Seq<BlockId> {
    if is_member(chain, pre_start) {
        after(chain, choose|i: int| stands_at(chain, pre_start, i), cap)
    } else {
        Seq::empty()
    }
}

} // verus!
