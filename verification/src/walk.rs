//! Queries that are answered by walking the best chain from its tip towards the
//! origin block. A [`ChainWalk`] says which key to read next; the caller reads it and
//! hands the record to [`ChainWalk::advance`], until no read is pending.
use crate::block::{BlockHeader, BlockId, BlockSection, BlockSectionId, SectionModel};
use crate::codec::{key_bytes, lemma_digests_are_their_bytes, section_key};
use crate::sections::get_section;
use crate::store::{ids_of, read_section, record, tip_key};
use nonempty::NonEmpty;
use vstd::prelude::*;

verus! {

/// The vector with at least one element of the `nonempty` crate.
#[verifier::external_type_specification]
#[verifier::external_body]
#[verifier::reject_recursive_types(T)]
pub struct ExNonEmpty<T>(nonempty::NonEmpty<T>);

/// The elements of a non-empty vector of headers, in its order.
pub uninterp spec fn nonempty_items(items: NonEmpty<BlockHeader>) -> Seq<BlockHeader>;

/// Calls `NonEmpty::from` on a first element and the elements after it. Claimed: the
/// elements of the result are these, in this order.
#[verifier::external_body]
fn nonempty_from(head: BlockHeader, tail: Vec<BlockHeader>) -> (items: NonEmpty<BlockHeader>)
    ensures
        nonempty_items(items) == seq![head] + tail@,
{
    NonEmpty::from((head, tail))
}

/// A question about the best chain.
#[derive(Clone, Copy, Debug, PartialEq, Eq)]
pub enum ChainQuery {
    /// The tip header.
    Tip,
    /// The last headers, as many as given.
    Tail(usize),
    /// Whether the block is in the chain.
    Member(BlockId),
    /// The blocks after the one given, up to the tip and at most as many as given.
    Follow(BlockId, usize),
}

/// How far a walk has come.
#[derive(Clone, Debug, PartialEq, Eq)]
pub enum WalkStage {
    /// The record that names the tip is to be read.
    TipKey,
    /// The header of the tip is to be read, under the key held here.
    TipHeader(Vec<u8>),
    /// The header of the parent of the block held here is to be read.
    Parent(BlockHeader),
    /// The walk has read what it needs.
    Finished,
    /// The store holds no well-formed best chain.
    Broken,
}

/// A walk along the best chain.
#[derive(Clone, Debug, PartialEq, Eq)]
pub struct ChainWalk {
    query: ChainQuery,
    headers: Vec<BlockHeader>,
    stage: WalkStage,
}

/// Mathematical value of a [`WalkStage`].
pub enum StageModel {
    TipKey,
    TipHeader(Seq<u8>),
    Parent(BlockHeader),
    Finished,
    Broken,
}

/// Mathematical value of a [`ChainWalk`]: the question, the headers visited so far,
/// the tip first, and the stage.
pub struct WalkModel {
    pub query: ChainQuery,
    pub headers: Seq<BlockHeader>,
    pub stage: StageModel,
}

impl View for WalkStage {
    type V = StageModel;

    open spec fn view(&self) -> StageModel {
        match self {
            WalkStage::TipKey => StageModel::TipKey,
            WalkStage::TipHeader(key) => StageModel::TipHeader(key@),
            WalkStage::Parent(child) => StageModel::Parent(*child),
            WalkStage::Finished => StageModel::Finished,
            WalkStage::Broken => StageModel::Broken,
        }
    }
}

impl View for ChainWalk {
    type V = WalkModel;

    closed spec fn view(&self) -> WalkModel {
        WalkModel { query: self.query, headers: self.headers@, stage: self.stage@ }
    }
}

/// A walk that has read nothing yet.
pub open spec fn start(query: ChainQuery) -> WalkModel {
    WalkModel { query, headers: Seq::empty(), stage: StageModel::TipKey }
}

/// The header in a record that was read.
pub open spec fn read_header(reply: Option<Seq<u8>>) -> Option<BlockHeader> {
    match read_section(reply) {
        Some(SectionModel::Header(header)) => Some(header),
        _ => None,
    }
}

/// Whether `parent` is the header of the parent of `child`.
pub open spec fn is_parent(parent: BlockHeader, child: BlockHeader) -> bool {
    &&& child.parent == parent.id
    &&& child.height == parent.height + 1
}

/// Whether a walk that has just visited the last of `headers` has all it needs.
pub open spec fn is_enough(query: ChainQuery, headers: Seq<BlockHeader>) -> bool {
    match query {
        ChainQuery::Tip => true,
        ChainQuery::Tail(n) => headers.len() >= n,
        ChainQuery::Member(id) => headers.last().id == id,
        ChainQuery::Follow(pre_start, _) => headers.last().id == pre_start,
    }
}

/// The walk after it has visited `header`. It ends at the origin block at the latest.
pub open spec fn visited(walk: WalkModel, header: BlockHeader) -> WalkModel {
    let headers = walk.headers.push(header);
    let stage = if is_enough(walk.query, headers) || header.height == 0 {
        StageModel::Finished
    } else {
        StageModel::Parent(header)
    };
    WalkModel { query: walk.query, headers, stage }
}

/// The walk once it has found the store ill-formed.
pub open spec fn broken(walk: WalkModel) -> WalkModel {
    WalkModel { query: walk.query, headers: walk.headers, stage: StageModel::Broken }
}

/// The walk after a read that found `reply`.
pub open spec fn step(walk: WalkModel, reply: Option<Seq<u8>>) -> WalkModel {
    match walk.stage {
        StageModel::TipKey => match reply {
            Some(key) => WalkModel {
                query: walk.query,
                headers: walk.headers,
                stage: StageModel::TipHeader(key),
            },
            None => broken(walk),
        },
        StageModel::TipHeader(_) => match read_header(reply) {
            Some(header) => visited(walk, header),
            None => broken(walk),
        },
        StageModel::Parent(child) => match read_header(reply) {
            Some(header) => if is_parent(header, child) {
                visited(walk, header)
            } else {
                broken(walk)
            },
            None => broken(walk),
        },
        StageModel::Finished => walk,
        StageModel::Broken => walk,
    }
}

/// The key that the walk needs the record of, if it needs one.
pub open spec fn pending_key(walk: WalkModel) -> Option<Seq<u8>> {
    match walk.stage {
        StageModel::TipKey => Some(tip_key()),
        StageModel::TipHeader(key) => Some(key),
        StageModel::Parent(child) => Some(key_bytes(BlockSectionId::Header(child.parent))),
        StageModel::Finished => None,
        StageModel::Broken => None,
    }
}

/// Whether the walk has an answer.
pub open spec fn is_answered(walk: WalkModel) -> bool {
    walk.stage is Finished && walk.headers.len() > 0
}

/// The answer to [`ChainQuery::Tip`].
pub open spec fn tip_answer(walk: WalkModel) -> Option<BlockHeader> {
    if is_answered(walk) && walk.query is Tip {
        Some(walk.headers[0])
    } else {
        None
    }
}

/// The answer to [`ChainQuery::Tail`].
pub open spec fn tail_answer(walk: WalkModel) -> Option<Seq<BlockHeader>> {
    if is_answered(walk) && walk.query is Tail {
        Some(walk.headers.reverse())
    } else {
        None
    }
}

/// The answer to [`ChainQuery::Member`].
pub open spec fn member_answer(walk: WalkModel) -> Option<bool> {
    match walk.query {
        ChainQuery::Member(id) => if is_answered(walk) {
            Some(walk.headers.last().id == id)
        } else {
            None
        },
        _ => None,
    }
}

/// The answer to [`ChainQuery::Follow`].
pub open spec fn follow_answer(walk: WalkModel) -> Option<Seq<BlockId>> {
    match walk.query {
        ChainQuery::Follow(pre_start, cap) => if !is_answered(walk) {
            None
        } else if walk.headers.last().id == pre_start {
            let following = ids_of(walk.headers.drop_last().reverse());
            if cap <= following.len() {
                Some(following.take(cap as int))
            } else {
                Some(following)
            }
        } else {
            Some(Seq::empty())
        },
        _ => None,
    }
}

/// The key of the record that names the tip.
fn tip_record_key() -> (key: Vec<u8>)
    ensures
        key@ == tip_key(),
{
    let key: Vec<u8> = vec![98u8, 101u8, 115u8, 116u8, 95u8, 116u8, 105u8, 112u8];
    assert(key@ =~= tip_key());
    key
}

/// The header in a record that was read, if it begins with one.
fn header_in(reply: Option<Vec<u8>>) -> (header: Option<BlockHeader>)
    ensures
        header == read_header(record(reply)),
        header matches Some(header) ==> reply is Some && {
            let bytes = reply->0@;
            &&& bytes.len() >= 76 && bytes[0] == 0 && bytes[1] == 0 && bytes[2] == 0 && bytes[3] == 0
            &&& header.id.digest@ == bytes.subrange(4, 36)
            &&& header.parent.digest@ == bytes.subrange(36, 68)
            &&& header.height == bytes[68] + bytes[69] * 0x100 + bytes[70] * 0x10000 + bytes[71]
                * 0x1000000 + bytes[72] * 0x100000000 + bytes[73] * 0x10000000000 + bytes[74]
                * 0x1000000000000 + bytes[75] * 0x100000000000000
        },
        header is None && reply is Some ==> {
            let bytes = reply->0@;
            !(bytes.len() >= 76 && bytes[0] == 0 && bytes[1] == 0 && bytes[2] == 0 && bytes[3] == 0)
        },
{
    match get_section(reply) {
        Some(BlockSection::Header(header)) => Some(header),
        _ => None,
    }
}

impl ChainWalk {
    /// A walk that will answer `query`.
    pub fn new(query: ChainQuery) -> (walk: ChainWalk)
        ensures
            walk@ == start(query),
            walk@.query == query,
            walk@.headers.len() == 0,
            walk@.stage is TipKey,
    {
        ChainWalk { query, headers: Vec::new(), stage: WalkStage::TipKey }
    }

    /// The key to read next, or `None` where the walk is over.
    pub fn pending(&self) -> (key: Option<Vec<u8>>)
        ensures
            record(key) == pending_key(self@),
            match self@.stage {
                StageModel::TipKey => key is Some && key->0@ == seq![
                    98u8,
                    101u8,
                    115u8,
                    116u8,
                    95u8,
                    116u8,
                    105u8,
                    112u8,
                ],
                StageModel::TipHeader(tip) => key is Some && key->0@ == tip,
                StageModel::Parent(child) => key is Some && key->0@ == seq![0u8, 0u8, 0u8, 0u8]
                    + child.parent.digest@,
                StageModel::Finished => key is None,
                StageModel::Broken => key is None,
            },
    {
        match &self.stage {
            WalkStage::TipKey => Some(tip_record_key()),
            WalkStage::TipHeader(key) => Some(key.clone()),
            WalkStage::Parent(child) => Some(section_key(&BlockSectionId::Header(child.parent))),
            WalkStage::Finished => None,
            WalkStage::Broken => None,
        }
    }

    /// Takes in the record read under the pending key. A walk that is over stays as it is.
    pub fn advance(&mut self, reply: Option<Vec<u8>>)
        ensures
            final(self)@ == step(old(self)@, record(reply)),
            // The question never changes, and headers are only ever added.
            final(self)@.query == old(self)@.query,
            final(self)@.headers == old(self)@.headers || final(self)@.headers.drop_last() == old(
                self,
            )@.headers,
            // A walk that is over stays as it is.
            old(self)@.stage is Finished || old(self)@.stage is Broken ==> final(self)@ == old(
                self,
            )@,
            // The record of the tip is the key to read next.
            old(self)@.stage is TipKey ==> final(self)@.headers == old(self)@.headers && (
            match reply {
                Some(key) => final(self)@.stage == StageModel::TipHeader(key@),
                None => final(self)@.stage is Broken,
            }),
            // A header is taken in where the record begins with one and, for a parent, where
            // it is the parent's and one lower; nothing else is.
            old(self)@.stage is TipHeader || old(self)@.stage is Parent ==> {
                let bytes = reply->0@;
                let height = bytes[68] + bytes[69] * 0x100 + bytes[70] * 0x10000 + bytes[71]
                * 0x1000000 + bytes[72] * 0x100000000 + bytes[73] * 0x10000000000 + bytes[74]
                * 0x1000000000000 + bytes[75] * 0x100000000000000;
                let taken = reply is Some && bytes.len() >= 76 && bytes[0] == 0 && bytes[1] == 0
                    && bytes[2] == 0 && bytes[3] == 0 && (old(
                    self,
                )@.stage matches StageModel::Parent(child) ==> bytes.subrange(4, 36)
                    == child.parent.digest@ && height + 1 == child.height);
                &&& !taken ==> final(self)@.stage is Broken && final(self)@.headers == old(
                    self,
                )@.headers
                &&& taken ==> {
                    let header = final(self)@.headers.last();
                    let over = header.height == 0 || (match old(self)@.query {
                        ChainQuery::Tip => true,
                        ChainQuery::Tail(n) => final(self)@.headers.len() >= n,
                        ChainQuery::Member(id) => header.id == id,
                        ChainQuery::Follow(pre_start, _) => header.id == pre_start,
                    });
                    &&& final(self)@.headers.len() == old(self)@.headers.len() + 1
                    &&& final(self)@.headers.drop_last() == old(self)@.headers
                    &&& header.id.digest@ == bytes.subrange(4, 36)
                    &&& header.parent.digest@ == bytes.subrange(36, 68)
                    &&& header.height == height
                    &&& over ==> final(self)@.stage is Finished
                    &&& !over ==> final(self)@.stage == StageModel::Parent(header)
                }
            },
    {
        match &self.stage {
            WalkStage::TipKey => match reply {
                Some(key) => {
                    self.stage = WalkStage::TipHeader(key);
                },
                None => {
                    self.stage = WalkStage::Broken;
                },
            },
            WalkStage::TipHeader(_) => match header_in(reply) {
                Some(header) => self.visit(header),
                None => {
                    self.stage = WalkStage::Broken;
                },
            },
            WalkStage::Parent(child) => {
                let child = *child;
                match header_in(reply) {
                    Some(header) => {
                        proof {
                            if header.id.digest@ == child.parent.digest@ {
                                lemma_digests_are_their_bytes(
                                    header.id.digest,
                                    child.parent.digest,
                                );
                            }
                        }
                        if child.parent.same_as(&header.id) && child.height > 0 && child.height - 1
                            == header.height {
                            self.visit(header)
                        } else {
                            self.stage = WalkStage::Broken;
                        }
                    },
                    None => {
                        self.stage = WalkStage::Broken;
                    },
                }
            },
            WalkStage::Finished => {},
            WalkStage::Broken => {},
        }
    }

    /// Adds a header to the walk and decides whether it goes on.
    fn visit(&mut self, header: BlockHeader)
        ensures
            final(self)@ == visited(old(self)@, header),
    {
        self.headers.push(header);
        let enough = match &self.query {
            ChainQuery::Tip => true,
            ChainQuery::Tail(n) => self.headers.len() >= *n,
            ChainQuery::Member(id) => header.id.same_as(id),
            ChainQuery::Follow(pre_start, _) => header.id.same_as(pre_start),
        };
        if enough || header.height == 0 {
            self.stage = WalkStage::Finished;
        } else {
            self.stage = WalkStage::Parent(header);
        }
    }

    /// Whether the walk is over and has an answer.
    fn has_answer(&self) -> (answered: bool)
        ensures
            answered == is_answered(self@),
    {
        match &self.stage {
            WalkStage::Finished => self.headers.len() > 0,
            _ => false,
        }
    }

    /// The chain tip header, once the walk for [`ChainQuery::Tip`] is over. `None`
    /// before, for another question, and where the store holds no well-formed chain.
    pub fn get_tip(&self) -> (tip: Option<BlockHeader>)
        ensures
            tip == tip_answer(self@),
            tip is Some <==> self@.stage is Finished && self@.query is Tip && self@.headers.len()
                > 0,
            tip matches Some(header) ==> header == self@.headers[0],
    {
        match &self.query {
            ChainQuery::Tip => if self.has_answer() {
                Some(self.headers[0])
            } else {
                None
            },
            _ => None,
        }
    }

    /// The tail of the chain in chain order, once the walk for [`ChainQuery::Tail`] is
    /// over. `None` as for [`ChainWalk::get_tip`].
    pub fn get_tail(&self) -> (tail: Option<NonEmpty<BlockHeader>>)
        ensures
            match tail {
                Some(items) => tail_answer(self@) == Some(nonempty_items(items)),
                None => tail_answer(self@) is None,
            },
            tail is Some <==> self@.stage is Finished && self@.query is Tail && self@.headers.len()
                > 0,
            tail matches Some(items) ==> {
                &&& nonempty_items(items).len() == self@.headers.len()
                &&& forall|i: int|
                    0 <= i < self@.headers.len() ==> (#[trigger] nonempty_items(items)[i])
                        == self@.headers[self@.headers.len() - 1 - i]
            },
    {
        match &self.query {
            ChainQuery::Tail(_) => {
                if !self.has_answer() {
                    return None;
                }
                let head = self.headers[self.headers.len() - 1];
                let mut rest: Vec<BlockHeader> = Vec::new();
                let mut left: usize = self.headers.len() - 1;
                while left > 0
                    invariant
                        left < self.headers.len(),
                        rest.len() == self.headers.len() - 1 - left,
                        forall|j: int|
                            0 <= j < rest.len() ==> rest[j] == self.headers[self.headers.len() - 2
                                - j],
                    decreases left,
                {
                    left -= 1;
                    rest.push(self.headers[left]);
                }
                assert(seq![head] + rest@ =~= self.headers@.reverse());
                Some(nonempty_from(head, rest))
            },
            _ => None,
        }
    }

    /// Whether the block asked for is in the best chain, once the walk for
    /// [`ChainQuery::Member`] is over. `None` as for [`ChainWalk::get_tip`].
    pub fn member(&self) -> (member: Option<bool>)
        ensures
            member == member_answer(self@),
            member is Some <==> self@.stage is Finished && self@.query is Member
                && self@.headers.len() > 0,
            member matches Some(found) ==> (self@.query matches ChainQuery::Member(id) && found == (
            self@.headers[self@.headers.len() - 1].id == id)),
    {
        match &self.query {
            ChainQuery::Member(id) => if self.has_answer() {
                Some(self.headers[self.headers.len() - 1].id.same_as(id))
            } else {
                None
            },
            _ => None,
        }
    }

    /// The blocks that follow the one asked for, in chain order, once the walk for
    /// [`ChainQuery::Follow`] is over. `None` as for [`ChainWalk::get_tip`].
    pub fn follow(&self) -> (blocks: Option<Vec<BlockId>>)
        ensures
            match blocks {
                Some(blocks) => follow_answer(self@) == Some(blocks@),
                None => follow_answer(self@) is None,
            },
            blocks is Some <==> self@.stage is Finished && self@.query is Follow
                && self@.headers.len() > 0,
            blocks matches Some(blocks) ==> (self@.query matches ChainQuery::Follow(pre_start, cap)
                && {
                let behind = self@.headers.len() - 1;
                &&& self@.headers[behind].id != pre_start ==> blocks@.len() == 0
                &&& self@.headers[behind].id == pre_start ==> blocks@.len() == (if cap <= behind {
                    cap as int
                } else {
                    behind
                })
                &&& forall|i: int|
                    0 <= i < blocks@.len() ==> (#[trigger] blocks@[i]) == self@.headers[behind - 1
                        - i].id
            }),
    {
        match &self.query {
            ChainQuery::Follow(pre_start, cap) => {
                if !self.has_answer() {
                    return None;
                }
                let mut blocks: Vec<BlockId> = Vec::new();
                let mut left: usize = self.headers.len() - 1;
                if self.headers[left].id.same_as(pre_start) {
                    while left > 0 && blocks.len() < *cap
                        invariant
                            left < self.headers.len(),
                            blocks.len() == self.headers.len() - 1 - left,
                            blocks.len() <= *cap,
                            forall|j: int|
                                0 <= j < blocks.len() ==> blocks[j]
                                    == self.headers[self.headers.len() - 2 - j].id,
                        decreases left,
                    {
                        left -= 1;
                        blocks.push(self.headers[left].id);
                    }
                }
                assert(follow_answer(self@)->0 =~= blocks@);
                Some(blocks)
            },
            _ => None,
        }
    }
}

} // verus!
