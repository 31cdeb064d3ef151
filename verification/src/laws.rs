//! What holds between the queries of one history.
use crate::block::{BlockHeader, BlockId, BlockSectionId, BlockSectionType, ModifierId, SectionModel};
use crate::codec::{decoded, key_bytes, is_section_in, law_key_layout, law_record_layout, law_section_layout, lemma_decoded_is_unique, lemma_decoded_section_is_there, lemma_keys_are_distinct, lemma_section_round_trip, section_bytes};
use crate::sections::{modifier_keys, present, section_keys};
use crate::store::{after, contains_modifier, follow_of, holds_chain, ids_of, is_member, lookup, stands_at, stored_section, tail_of, tip_key, Store};
use crate::walk::{follow_answer, is_enough, is_parent, member_answer, pending_key, start, step, tail_answer, tip_answer, visited, ChainQuery, StageModel, WalkModel};
use vstd::prelude::*;

verus! {

/// An upper bound on the reads that a walk still makes.
pub open spec fn reads_left(walk: WalkModel) -> nat {
    match walk.stage {
        StageModel::TipKey => (u64::MAX + 3) as nat,
        StageModel::TipHeader(_) => (u64::MAX + 2) as nat,
        StageModel::Parent(child) => child.height as nat + 1,
        StageModel::Finished => 0,
        StageModel::Broken => 0,
    }
}

/// Every walk ends: whatever a read finds, fewer reads are left after it, and a walk
/// has a read pending exactly as long as some are left.
pub proof fn law_walks_end(walk: WalkModel, reply: Option<Seq<u8>>)
    ensures
        pending_key(walk) is Some <==> reads_left(walk) > 0,
        reads_left(walk) > 0 ==> reads_left(step(walk, reply)) < reads_left(walk),
{
}

/// The walk when it is over, where every read is answered from `store`.
pub open spec fn run(store: Store, walk: WalkModel) -> WalkModel
    decreases reads_left(walk),
{
    match pending_key(walk) {
        Some(key) => run(store, step(walk, lookup(store, key))),
        None => walk,
    }
}

/// What holds of a walk at every moment, whatever its reads have found: the headers
/// visited are linked from child to parent, each one lower than the one before, and
/// none beyond what the question needs has been visited.
pub open spec fn is_sound(walk: WalkModel) -> bool {
    &&& forall|i: int, j: int|
        #![trigger walk.headers[i], walk.headers[j]]
        0 <= i && j == i + 1 && j < walk.headers.len() ==> is_parent(
            walk.headers[j],
            walk.headers[i],
        )
    &&& forall|i: int|
        0 <= i < walk.headers.len() - 1 ==> !is_enough(
            walk.query,
            #[trigger] walk.headers.take(i + 1),
        )
    &&& match walk.stage {
        StageModel::TipKey => walk.headers.len() == 0,
        StageModel::TipHeader(_) => walk.headers.len() == 0,
        StageModel::Parent(child) => {
            &&& walk.headers.len() > 0
            &&& walk.headers.last() == child
            &&& child.height > 0
            &&& !is_enough(walk.query, walk.headers)
        },
        StageModel::Finished => {
            &&& walk.headers.len() > 0
            &&& is_enough(walk.query, walk.headers) || walk.headers.last().height == 0
        },
        StageModel::Broken => true,
    }
}

/// A walk is sound when it starts, and every read keeps it sound.
pub proof fn law_walks_are_sound(query: ChainQuery, walk: WalkModel, reply: Option<Seq<u8>>)
    ensures
        is_sound(start(query)),
        is_sound(walk) ==> is_sound(step(walk, reply)),
{
    let next = step(walk, reply);
    if is_sound(walk) && next.headers != walk.headers {
        let n = walk.headers.len() as int;
        let header = next.headers.last();
        assert(next.headers == walk.headers.push(header));
        assert forall|i: int| 0 <= i < next.headers.len() - 1 implies !is_enough(
            next.query,
            #[trigger] next.headers.take(i + 1),
        ) by {
            assert(next.headers.take(i + 1) =~= walk.headers.take(i + 1));
            if i == n - 1 {
                assert(walk.headers.take(i + 1) =~= walk.headers);
            }
        }
    }
}

/// Whatever its reads have found, a walk answers the tail query with at least one header
/// and with no more than asked for, linked from parent to child, and the follow query
/// with no more blocks than asked for.
pub proof fn law_answers_are_bounded(walk: WalkModel)
    requires
        is_sound(walk),
    ensures
        walk.query matches ChainQuery::Tail(n) ==> (tail_answer(walk) matches Some(tail) ==> {
            &&& tail.len() == 1 || 1 < tail.len() <= n
            &&& forall|i: int, j: int|
                #![trigger tail[i], tail[j]]
                0 <= i && j == i + 1 && j < tail.len() ==> is_parent(tail[i], tail[j])
        }),
        walk.query matches ChainQuery::Follow(_, cap) ==> (follow_answer(walk) matches Some(blocks)
            ==> blocks.len() <= cap),
{
    let n = walk.headers.len();
    if n > 1 {
        assert(!is_enough(walk.query, walk.headers.take(n - 2 + 1)));
    }
    if tail_answer(walk) is Some {
        let tail = tail_answer(walk)->0;
        assert forall|i: int, j: int|
            #![trigger tail[i], tail[j]]
            0 <= i && j == i + 1 && j < tail.len() implies is_parent(tail[i], tail[j]) by {
            assert(tail[i] == walk.headers[n - 1 - i]);
            assert(tail[j] == walk.headers[n - 1 - j]);
        }
    }
}

/// The headers from position `k` of the chain to its tip, the tip first.
pub open spec fn down_to(chain: Seq<BlockHeader>, k: int) -> Seq<BlockHeader> {
    chain.skip(k).reverse()
}

/// The position, at or below `k`, at which a walk for `query` ends.
pub open spec fn stop(chain: Seq<BlockHeader>, query: ChainQuery, k: nat) -> nat
    decreases k,
{
    if k == 0 || is_enough(query, down_to(chain, k as int)) {
        k
    } else {
        stop(chain, query, (k - 1) as nat)
    }
}

/// A finished walk that has visited the chain down to position `k`.
pub open spec fn finished_at(chain: Seq<BlockHeader>, query: ChainQuery, k: int) -> WalkModel {
    WalkModel { query, headers: down_to(chain, k), stage: StageModel::Finished }
}

proof fn lemma_run_from(store: Store, chain: Seq<BlockHeader>, walk: WalkModel, k: nat)
    requires
        holds_chain(store, chain),
        k < chain.len(),
        walk.headers == down_to(chain, k + 1int),
    ensures
        run(store, visited(walk, chain[k as int])) == finished_at(
            chain,
            walk.query,
            stop(chain, walk.query, k) as int,
        ),
    decreases k,
{
    let header = chain[k as int];
    let next = visited(walk, header);
    assert(next.headers =~= down_to(chain, k as int));
    if k > 0 && !is_enough(walk.query, next.headers) {
        let parent = chain[k - 1];
        assert(is_parent(parent, header));
        assert(stored_section(store, BlockSectionId::Header(parent.id)) == Some(
            SectionModel::Header(parent),
        ));
        lemma_run_from(store, chain, next, (k - 1) as nat);
    }
}

/// On a store that holds a best chain, a walk ends with the headers from the tip down
/// to the position where it has enough, or to the origin block.
proof fn lemma_run(store: Store, chain: Seq<BlockHeader>, query: ChainQuery)
    requires
        holds_chain(store, chain),
    ensures
        run(store, start(query)) == finished_at(
            chain,
            query,
            stop(chain, query, (chain.len() - 1) as nat) as int,
        ),
{
    let k = (chain.len() - 1) as nat;
    let at_tip = step(start(query), lookup(store, tip_key()));
    assert(stored_section(store, BlockSectionId::Header(chain[k as int].id)) == Some(
        SectionModel::Header(chain[k as int]),
    ));
    assert(at_tip.headers =~= down_to(chain, k + 1int));
    lemma_run_from(store, chain, at_tip, k);
    assert(run(store, start(query)) == run(store, at_tip));
    assert(run(store, at_tip) == run(store, visited(at_tip, chain[k as int])));
}

proof fn lemma_stop_of_find(chain: Seq<BlockHeader>, query: ChainQuery, id: BlockId, k: nat)
    requires
        k < chain.len(),
        query == ChainQuery::Member(id) || (query matches ChainQuery::Follow(pre_start, _)
            && pre_start == id),
    ensures
        stop(chain, query, k) <= k,
        stop(chain, query, k) == 0 || chain[stop(chain, query, k) as int].id == id,
        forall|j: int| stop(chain, query, k) < j <= k ==> (#[trigger] chain[j]).id != id,
    decreases k,
{
    assert(down_to(chain, k as int).last() == chain[k as int]);
    if k > 0 && !is_enough(query, down_to(chain, k as int)) {
        lemma_stop_of_find(chain, query, id, (k - 1) as nat);
    }
}

proof fn lemma_stop_of_tail(chain: Seq<BlockHeader>, n: usize, k: nat)
    requires
        k < chain.len(),
    ensures
        stop(chain, ChainQuery::Tail(n), k) == (if k == 0 || chain.len() - k >= n {
            k as int
        } else if n <= chain.len() {
            chain.len() - n
        } else {
            0
        }),
    decreases k,
{
    if k > 0 && chain.len() - k < n {
        lemma_stop_of_tail(chain, n, (k - 1) as nat);
    }
}

/// Positions in a chain that a store holds are determined by block identifiers.
proof fn lemma_position_is_unique(
    store: Store,
    chain: Seq<BlockHeader>,
    id: BlockId,
    i: int,
    j: int,
)
    requires
        holds_chain(store, chain),
        stands_at(chain, id, i),
        stands_at(chain, id, j),
    ensures
        i == j,
{
    assert(stored_section(store, BlockSectionId::Header(chain[i].id)) == Some(
        SectionModel::Header(chain[i]),
    ));
    assert(stored_section(store, BlockSectionId::Header(chain[j].id)) == Some(
        SectionModel::Header(chain[j]),
    ));
    assert(chain[i].height == i && chain[j].height == j);
}

/// The tip query answers with the last header of the best chain.
pub proof fn law_get_tip(store: Store, chain: Seq<BlockHeader>)
    requires
        holds_chain(store, chain),
    ensures
        tip_answer(run(store, start(ChainQuery::Tip))) == Some(chain.last()),
{
    lemma_run(store, chain, ChainQuery::Tip);
}

/// The tail query answers with the last `n` headers of the best chain, and never with
/// none: the chain has at least its origin block.
pub proof fn law_get_tail(store: Store, chain: Seq<BlockHeader>, n: usize)
    requires
        holds_chain(store, chain),
    ensures
        tail_answer(run(store, start(ChainQuery::Tail(n)))) == Some(tail_of(chain, n as nat)),
        tail_of(chain, n as nat).len() > 0,
        tail_of(chain, n as nat).last() == chain.last(),
{
    lemma_run(store, chain, ChainQuery::Tail(n));
    let k = (chain.len() - 1) as nat;
    lemma_stop_of_tail(chain, n, k);
    let m = stop(chain, ChainQuery::Tail(n), k) as int;
    assert(down_to(chain, m).reverse() =~= tail_of(chain, n as nat));
}

/// The member query says whether the block is in the best chain.
pub proof fn law_member(store: Store, chain: Seq<BlockHeader>, id: BlockId)
    requires
        holds_chain(store, chain),
    ensures
        member_answer(run(store, start(ChainQuery::Member(id)))) == Some(is_member(chain, id)),
{
    let query = ChainQuery::Member(id);
    let k = (chain.len() - 1) as nat;
    lemma_run(store, chain, query);
    lemma_stop_of_find(chain, query, id, k);
    let m = stop(chain, query, k) as int;
    assert(down_to(chain, m).last() == chain[m]);
    if chain[m].id == id {
        assert(stands_at(chain, id, m));
    }
}

/// The follow query answers with the blocks that come right after `pre_start` in the
/// best chain, in chain order, until the tip is reached or `cap` blocks are collected.
pub proof fn law_follow(store: Store, chain: Seq<BlockHeader>, pre_start: BlockId, cap: usize)
    requires
        holds_chain(store, chain),
    ensures
        follow_answer(run(store, start(ChainQuery::Follow(pre_start, cap)))) == Some(
            follow_of(chain, pre_start, cap as nat),
        ),
{
    let query = ChainQuery::Follow(pre_start, cap);
    let k = (chain.len() - 1) as nat;
    lemma_run(store, chain, query);
    lemma_stop_of_find(chain, query, pre_start, k);
    let m = stop(chain, query, k) as int;
    let headers = down_to(chain, m);
    assert(headers.last() == chain[m]);
    if chain[m].id == pre_start {
        assert(stands_at(chain, pre_start, m));
        let i = choose|i: int| stands_at(chain, pre_start, i);
        lemma_position_is_unique(store, chain, pre_start, i, m);
        let following = ids_of(headers.drop_last().reverse());
        assert(following =~= ids_of(chain.skip(m + 1)));
        assert(follow_answer(finished_at(chain, query, m))->0 =~= after(chain, m, cap as nat));
    } else {
        assert(!is_member(chain, pre_start));
    }
}

/// What the follow query answers with are blocks of the best chain, no more than the
/// cap. The first of them is the child of `pre_start`, and the tip is followed by none.
pub proof fn law_follow_answers_with_members(
    store: Store,
    chain: Seq<BlockHeader>,
    pre_start: BlockId,
    cap: nat,
)
    requires
        holds_chain(store, chain),
    ensures
        follow_of(chain, pre_start, cap).len() <= cap,
        pre_start == chain.last().id ==> follow_of(chain, pre_start, cap).len() == 0,
        forall|j: int|
            0 <= j < follow_of(chain, pre_start, cap).len() ==> is_member(
                chain,
                #[trigger] follow_of(chain, pre_start, cap)[j],
            ),
        forall|i: int|
            #![trigger chain[i]]
            0 <= i < chain.len() - 1 && chain[i].id == pre_start && cap > 0 ==> follow_of(
                chain,
                pre_start,
                cap,
            ).len() > 0 && follow_of(chain, pre_start, cap)[0] == chain[i + 1].id,
{
    let answer = follow_of(chain, pre_start, cap);
    if is_member(chain, pre_start) {
        let p = choose|i: int| stands_at(chain, pre_start, i);
        assert forall|j: int| 0 <= j < answer.len() implies is_member(
            chain,
            #[trigger] answer[j],
        ) by {
            assert(stands_at(chain, answer[j], p + 1 + j));
        }
        if pre_start == chain.last().id {
            assert(stands_at(chain, pre_start, chain.len() - 1));
            lemma_position_is_unique(store, chain, pre_start, p, chain.len() - 1);
        }
    }
    assert forall|i: int|
        #![trigger chain[i]]
        0 <= i < chain.len() - 1 && chain[i].id == pre_start && cap > 0 implies answer.len() > 0
        && answer[0] == chain[i + 1].id by {
        assert(stands_at(chain, pre_start, i));
        let p = choose|i: int| stands_at(chain, pre_start, i);
        lemma_position_is_unique(store, chain, pre_start, p, i);
    }
}

/// Following for `a` blocks and then, from the last of these, for `b` more gives what
/// following for `a + b` blocks gives.
pub proof fn law_follow_goes_on(
    store: Store,
    chain: Seq<BlockHeader>,
    pre_start: BlockId,
    a: nat,
    b: nat,
)
    requires
        holds_chain(store, chain),
        follow_of(chain, pre_start, a).len() > 0,
    ensures
        follow_of(chain, pre_start, a + b) == follow_of(chain, pre_start, a) + (if follow_of(
            chain,
            pre_start,
            a,
        ).len() == a {
            follow_of(chain, follow_of(chain, pre_start, a).last(), b)
        } else {
            Seq::empty()
        }),
{
    let first = follow_of(chain, pre_start, a);
    let p = choose|i: int| stands_at(chain, pre_start, i);
    let q = p + first.len();
    assert(stands_at(chain, first.last(), q));
    let r = choose|i: int| stands_at(chain, first.last(), i);
    lemma_position_is_unique(store, chain, first.last(), q, r);
    if first.len() == a {
        assert(follow_of(chain, pre_start, a + b) =~= first + follow_of(chain, first.last(), b));
    } else {
        assert(follow_of(chain, pre_start, a + b) =~= first);
    }
}

/// A record that begins with a stored section is read as that section.
pub proof fn law_get_section_reads_what_is_stored(
    store: Store,
    id: BlockSectionId,
    section: SectionModel,
    rest: Seq<u8>,
)
    requires
        lookup(store, key_bytes(id)) == Some(section_bytes(section) + rest),
        section matches SectionModel::Body(body) ==> body.len() <= u64::MAX,
    ensures
        stored_section(store, id) == Some(section),
{
    lemma_section_round_trip(section, rest);
}

/// Storing one section, or naming another tip, changes no other section, and storing a
/// section does not move the tip.
pub proof fn law_records_are_independent(
    store: Store,
    id: BlockSectionId,
    other: BlockSectionId,
    bytes: Seq<u8>,
)
    requires
        id != other,
    ensures
        stored_section(store.insert(key_bytes(other), bytes), id) == stored_section(store, id),
        stored_section(store.insert(tip_key(), bytes), id) == stored_section(store, id),
        lookup(store.insert(key_bytes(other), bytes), tip_key()) == lookup(store, tip_key()),
{
    lemma_keys_are_distinct(id, other);
    lemma_keys_are_distinct(other, id);
}

/// A store that holds nothing but an origin header, named as the tip, holds the chain
/// of that one block.
pub proof fn law_origin(origin: BlockHeader)
    requires
        origin.height == 0,
    ensures
        holds_chain(
            Map::<Seq<u8>, Seq<u8>>::empty().insert(
                key_bytes(BlockSectionId::Header(origin.id)),
                section_bytes(SectionModel::Header(origin)),
            ).insert(tip_key(), key_bytes(BlockSectionId::Header(origin.id))),
            seq![origin],
        ),
{
    let id = BlockSectionId::Header(origin.id);
    let bytes = section_bytes(SectionModel::Header(origin));
    lemma_keys_are_distinct(id, id);
    lemma_section_round_trip(SectionModel::Header(origin), Seq::empty());
    assert(bytes + Seq::<u8>::empty() =~= bytes);
}

/// Storing a new child of the tip and naming it as the tip appends it to the best chain.
pub proof fn law_append(store: Store, chain: Seq<BlockHeader>, header: BlockHeader)
    requires
        holds_chain(store, chain),
        is_parent(chain.last(), header),
        !is_member(chain, header.id),
    ensures
        holds_chain(
            store.insert(
                key_bytes(BlockSectionId::Header(header.id)),
                section_bytes(SectionModel::Header(header)),
            ).insert(tip_key(), key_bytes(BlockSectionId::Header(header.id))),
            chain.push(header),
        ),
{
    let id = BlockSectionId::Header(header.id);
    let bytes = section_bytes(SectionModel::Header(header));
    let with_header = store.insert(key_bytes(id), bytes);
    let next = with_header.insert(tip_key(), key_bytes(id));
    let longer = chain.push(header);
    lemma_keys_are_distinct(id, id);
    lemma_section_round_trip(SectionModel::Header(header), Seq::empty());
    assert(bytes + Seq::<u8>::empty() =~= bytes);
    assert forall|i: int| 0 <= i < longer.len() implies stored_section(
        next,
        BlockSectionId::Header((#[trigger] longer[i]).id),
    ) == Some(SectionModel::Header(longer[i])) by {
        if i < chain.len() {
            assert(chain[i] == longer[i]);
            assert(stands_at(chain, chain[i].id, i));
            let held = BlockSectionId::Header(chain[i].id);
            assert(stored_section(store, held) == Some(SectionModel::Header(chain[i])));
            lemma_keys_are_distinct(held, id);
        }
    }
    assert forall|i: int| 0 <= i < longer.len() implies (#[trigger] longer[i]).height == i by {
        if i < chain.len() {
            assert(chain[i] == longer[i]);
        } else {
            assert(chain[chain.len() - 1].height == chain.len() - 1);
        }
    }
    assert forall|i: int, j: int|
        #![trigger longer[i], longer[j]]
        0 <= i && j == i + 1 && j < longer.len() implies longer[j].parent == longer[i].id by {
        assert(chain[i] == longer[i]);
        if j < chain.len() {
            assert(chain[j] == longer[j]);
        }
    }
}

/// The modifier of a block's header has the block's digest.
pub open spec fn header_modifier(id: BlockId) -> ModifierId {
    ModifierId { digest: id.digest }
}

/// Every block of the best chain is a modifier of the history, and its header can be read.
pub proof fn law_members_are_stored(store: Store, chain: Seq<BlockHeader>, i: int)
    requires
        holds_chain(store, chain),
        0 <= i < chain.len(),
    ensures
        stored_section(store, BlockSectionId::Header(chain[i].id)) == Some(
            SectionModel::Header(chain[i]),
        ),
        contains_modifier(store, header_modifier(chain[i].id)),
{
    assert(stored_section(store, BlockSectionId::Header(chain[i].id)) == Some(
        SectionModel::Header(chain[i]),
    ));
}

/// The records that `store` has under a list of keys, in the order of the keys.
pub open spec fn replies_of(store: Store, keys: Seq<Seq<u8>>) -> Seq<Option<Seq<u8>>> {
    Seq::new(keys.len(), |i: int| lookup(store, keys[i]))
}

/// A modifier exists exactly where one of the records asked for is there; one whose
/// section of any type can be read exists.
pub proof fn law_contains(store: Store, id: ModifierId, sec_type: BlockSectionType)
    ensures
        contains_modifier(store, id) <==> exists|i: int|
            0 <= i < replies_of(store, modifier_keys(id)).len() && (#[trigger] replies_of(
                store,
                modifier_keys(id),
            )[i]) is Some,
        stored_section(store, BlockSectionId::of(sec_type, id)) is Some ==> contains_modifier(
            store,
            id,
        ),
{
    let replies = replies_of(store, modifier_keys(id));
    assert(replies.len() == 2);
    assert(replies[0] == lookup(
        store,
        key_bytes(BlockSectionId::of(BlockSectionType::Header, id)),
    ));
    assert(replies[1] == lookup(store, key_bytes(BlockSectionId::of(BlockSectionType::Body, id))));
}

/// A bulk selection gives one record after another, in the order asked for, of the
/// sections that have one: asking for one more gives its record behind the others, or
/// nothing more where it has none.
pub proof fn law_multi_get_raw_goes_on(
    store: Store,
    sec_type: BlockSectionType,
    ids: Seq<ModifierId>,
    id: ModifierId,
)
    ensures
        present(replies_of(store, section_keys(sec_type, ids.push(id)))) == (match lookup(
            store,
            key_bytes(BlockSectionId::of(sec_type, id)),
        ) {
            Some(bytes) => present(replies_of(store, section_keys(sec_type, ids))).push(bytes),
            None => present(replies_of(store, section_keys(sec_type, ids))),
        }),
{
    let longer = replies_of(store, section_keys(sec_type, ids.push(id)));
    assert(longer.drop_last() =~= replies_of(store, section_keys(sec_type, ids)));
}

/// A bulk selection of stored sections gives one record for each, and each is read as
/// the section that the identifier names.
pub proof fn law_multi_get_raw_agrees_with_get_section(
    store: Store,
    sec_type: BlockSectionType,
    ids: Seq<ModifierId>,
)
    requires
        forall|i: int|
            0 <= i < ids.len() ==> lookup(
                store,
                key_bytes(BlockSectionId::of(sec_type, #[trigger] ids[i])),
            ) is Some,
    ensures
        present(replies_of(store, section_keys(sec_type, ids))).len() == ids.len(),
        forall|i: int|
            0 <= i < ids.len() ==> decoded(
                present(replies_of(store, section_keys(sec_type, ids)))[i],
            ) == stored_section(store, BlockSectionId::of(sec_type, #[trigger] ids[i])),
    decreases ids.len(),
{
    if ids.len() > 0 {
        let shorter = ids.drop_last();
        let id = ids.last();
        assert forall|i: int| 0 <= i < shorter.len() implies lookup(
            store,
            key_bytes(BlockSectionId::of(sec_type, #[trigger] shorter[i])),
        ) is Some by {
            assert(shorter[i] == ids[i]);
        }
        law_multi_get_raw_agrees_with_get_section(store, sec_type, shorter);
        law_multi_get_raw_goes_on(store, sec_type, shorter, id);
        assert(shorter.push(id) =~= ids);
        assert forall|i: int| 0 <= i < ids.len() implies decoded(
            present(replies_of(store, section_keys(sec_type, ids)))[i],
        ) == stored_section(store, BlockSectionId::of(sec_type, #[trigger] ids[i])) by {
            if i < shorter.len() {
                assert(shorter[i] == ids[i]);
            }
        }
    }
}

/// The section that a modifier names is of the type asked for and belongs to the block
/// with the modifier's digest.
pub proof fn law_section_ids(id: ModifierId)
    ensures
        BlockSectionId::of(BlockSectionType::Header, id) matches BlockSectionId::Header(block)
            && block.digest == id.digest,
        BlockSectionId::of(BlockSectionType::Body, id) matches BlockSectionId::Body(block)
            && block.digest == id.digest,
{
}

/// The first four bytes of a key depend on the kind of the section alone: keys of two
/// headers agree in them, keys of two bodies agree in them, and the first byte tells a
/// header from a body. The other 32 agree for the two sections of one block.
pub proof fn law_key_prefix_is_of_the_kind(a: BlockId, b: BlockId)
    ensures
        key_bytes(BlockSectionId::Header(a)).take(4) == key_bytes(BlockSectionId::Header(b)).take(
            4,
        ),
        key_bytes(BlockSectionId::Body(a)).take(4) == key_bytes(BlockSectionId::Body(b)).take(4),
        key_bytes(BlockSectionId::Header(a)).take(4) == seq![0u8, 0u8, 0u8, 0u8],
        key_bytes(BlockSectionId::Body(a)).take(4) == seq![1u8, 0u8, 0u8, 0u8],
        key_bytes(BlockSectionId::Header(a)).skip(4) == a.digest@,
        key_bytes(BlockSectionId::Body(a)).skip(4) == a.digest@,
{
    law_key_layout(a);
    law_key_layout(b);
    assert(key_bytes(BlockSectionId::Header(a)).take(4) =~= seq![0u8, 0u8, 0u8, 0u8]);
    assert(key_bytes(BlockSectionId::Header(b)).take(4) =~= seq![0u8, 0u8, 0u8, 0u8]);
    assert(key_bytes(BlockSectionId::Body(a)).take(4) =~= seq![1u8, 0u8, 0u8, 0u8]);
    assert(key_bytes(BlockSectionId::Body(b)).take(4) =~= seq![1u8, 0u8, 0u8, 0u8]);
    assert(key_bytes(BlockSectionId::Header(a)).skip(4) =~= a.digest@);
    assert(key_bytes(BlockSectionId::Body(a)).skip(4) =~= a.digest@);
}

/// A bulk selection asks for one key per modifier, in their order: the variant of the
/// type asked for, and behind it the modifier's digest.
pub proof fn law_bulk_keys(ids: Seq<ModifierId>)
    ensures
        section_keys(BlockSectionType::Header, ids).len() == ids.len(),
        section_keys(BlockSectionType::Body, ids).len() == ids.len(),
        forall|i: int|
            #![trigger ids[i]]
            0 <= i < ids.len() ==> section_keys(BlockSectionType::Header, ids)[i] == seq![0u8, 0u8, 0u8, 0u8]
                + ids[i].digest@ && section_keys(BlockSectionType::Body, ids)[i] == seq![1u8, 0u8, 0u8, 0u8]
                + ids[i].digest@,
{
    assert forall|i: int| #![trigger ids[i]] 0 <= i < ids.len() implies section_keys(
        BlockSectionType::Header,
        ids,
    )[i] == seq![0u8, 0u8, 0u8, 0u8] + ids[i].digest@ && section_keys(
        BlockSectionType::Body,
        ids,
    )[i] == seq![1u8, 0u8, 0u8, 0u8] + ids[i].digest@ by {
        law_key_layout(BlockId { digest: ids[i].digest });
    }
}

/// A modifier exists in a history exactly where the store has a record under the key of
/// the header, or under that of the body, of the block with its digest.
pub proof fn law_contains_any_section(store: Store, id: ModifierId)
    ensures
        contains_modifier(store, id) <==> store.contains_key(seq![0u8, 0u8, 0u8, 0u8] + id.digest@)
            || store.contains_key(seq![1u8, 0u8, 0u8, 0u8] + id.digest@),
        modifier_keys(id) == seq![
            seq![0u8, 0u8, 0u8, 0u8] + id.digest@,
            seq![1u8, 0u8, 0u8, 0u8] + id.digest@,
        ],
{
    law_key_layout(BlockId { digest: id.digest });
    assert(modifier_keys(id) =~= seq![
        seq![0u8, 0u8, 0u8, 0u8] + id.digest@,
        seq![1u8, 0u8, 0u8, 0u8] + id.digest@,
    ]);
}

/// A record under the key of either section of a block makes the modifier with the
/// block's digest exist.
pub proof fn law_stored_sections_are_contained(store: Store, block: BlockId)
    requires
        store.contains_key(seq![0u8, 0u8, 0u8, 0u8] + block.digest@) || store.contains_key(
            seq![1u8, 0u8, 0u8, 0u8] + block.digest@,
        ),
    ensures
        contains_modifier(store, ModifierId { digest: block.digest }),
{
    law_key_layout(block);
}

/// A section is read from the record under its variant and the block's digest, and is
/// none where there is no such record.
pub proof fn law_sections_are_read_under_their_keys(store: Store, block: BlockId)
    ensures
        stored_section(store, BlockSectionId::Header(block)) == (if store.contains_key(
            seq![0u8, 0u8, 0u8, 0u8] + block.digest@,
        ) {
            decoded(store[seq![0u8, 0u8, 0u8, 0u8] + block.digest@])
        } else {
            None
        }),
        stored_section(store, BlockSectionId::Body(block)) == (if store.contains_key(
            seq![1u8, 0u8, 0u8, 0u8] + block.digest@,
        ) {
            decoded(store[seq![1u8, 0u8, 0u8, 0u8] + block.digest@])
        } else {
            None
        }),
{
    law_key_layout(block);
}

/// What bytes are decoded as, byte by byte: a header, where they begin with one, and else
/// a body, where they begin with one.
pub proof fn law_decoded(bytes: Seq<u8>, header: BlockHeader, body: Seq<u8>)
    ensures
        decoded(bytes) == Some(SectionModel::Header(header)) <==> {
            &&& bytes.len() >= 76 && bytes[0] == 0 && bytes[1] == 0 && bytes[2] == 0 && bytes[3] == 0
            &&& header.id.digest@ == bytes.subrange(4, 36)
            &&& header.parent.digest@ == bytes.subrange(36, 68)
            &&& header.height == bytes[68] + bytes[69] * 0x100 + bytes[70] * 0x10000 + bytes[71]
                * 0x1000000 + bytes[72] * 0x100000000 + bytes[73] * 0x10000000000 + bytes[74]
                * 0x1000000000000 + bytes[75] * 0x100000000000000
        },
        decoded(bytes) == Some(SectionModel::Body(body)) <==> {
            let len = bytes[4] + bytes[5] * 0x100 + bytes[6] * 0x10000 + bytes[7]
                * 0x1000000 + bytes[8] * 0x100000000 + bytes[9] * 0x10000000000 + bytes[10]
                * 0x1000000000000 + bytes[11] * 0x100000000000000;
            &&& bytes.len() >= 12 && bytes.len() >= 12 + len
            &&& bytes[0] == 1 && bytes[1] == 0 && bytes[2] == 0 && bytes[3] == 0
            &&& body == bytes.subrange(12, 12 + len)
        },
        decoded(bytes) is Some <==> {
            ||| bytes.len() >= 76 && bytes[0] == 0 && bytes[1] == 0 && bytes[2] == 0 && bytes[3] == 0
            ||| bytes.len() >= 12 && bytes[0] == 1 && bytes[1] == 0 && bytes[2] == 0 && bytes[3]
                == 0 && bytes.len() >= 12 + bytes[4] + bytes[5] * 0x100 + bytes[6] * 0x10000 + bytes[7]
                * 0x1000000 + bytes[8] * 0x100000000 + bytes[9] * 0x10000000000 + bytes[10]
                * 0x1000000000000 + bytes[11] * 0x100000000000000
        },
{
    law_record_layout(bytes);
    if is_section_in(bytes, SectionModel::Header(header)) {
        lemma_decoded_is_unique(bytes, SectionModel::Header(header));
    }
    if is_section_in(bytes, SectionModel::Body(body)) {
        lemma_decoded_is_unique(bytes, SectionModel::Body(body));
    }
    if decoded(bytes) is Some {
        lemma_decoded_section_is_there(bytes);
    }
}

/// The body of a block, stored as its variant, its length and its bytes under the variant
/// and the digest, is what reading the body of that block gives.
pub proof fn law_stored_bodies_are_read(store: Store, block: BlockId, body: Seq<u8>)
    requires
        body.len() <= u64::MAX,
        store.contains_key(seq![1u8, 0u8, 0u8, 0u8] + block.digest@),
        store[seq![1u8, 0u8, 0u8, 0u8] + block.digest@] == seq![1u8, 0u8, 0u8, 0u8] + seq![
            (body.len() % 256) as u8,
            (body.len() / 0x100 % 256) as u8,
            (body.len() / 0x10000 % 256) as u8,
            (body.len() / 0x1000000 % 256) as u8,
            (body.len() / 0x100000000 % 256) as u8,
            (body.len() / 0x10000000000 % 256) as u8,
            (body.len() / 0x1000000000000 % 256) as u8,
            (body.len() / 0x100000000000000 % 256) as u8,
        ] + body,
    ensures
        stored_section(store, BlockSectionId::Body(block)) == Some(SectionModel::Body(body)),
{
    let any = BlockHeader { id: block, parent: block, height: 0 };
    law_key_layout(block);
    law_section_layout(any, body);
    lemma_section_round_trip(SectionModel::Body(body), Seq::empty());
    assert(section_bytes(SectionModel::Body(body)) + Seq::<u8>::empty() =~= section_bytes(
        SectionModel::Body(body),
    ));
}

/// A header, stored as its variant, its two identifiers and its height under the variant
/// and the digest, is what reading the header of that block gives.
pub proof fn law_stored_headers_are_read(store: Store, header: BlockHeader)
    requires
        store.contains_key(seq![0u8, 0u8, 0u8, 0u8] + header.id.digest@),
        store[seq![0u8, 0u8, 0u8, 0u8] + header.id.digest@] == seq![0u8, 0u8, 0u8, 0u8]
            + header.id.digest@ + header.parent.digest@ + seq![
            (header.height % 256) as u8,
            (header.height / 0x100 % 256) as u8,
            (header.height / 0x10000 % 256) as u8,
            (header.height / 0x1000000 % 256) as u8,
            (header.height / 0x100000000 % 256) as u8,
            (header.height / 0x10000000000 % 256) as u8,
            (header.height / 0x1000000000000 % 256) as u8,
            (header.height / 0x100000000000000 % 256) as u8,
        ],
    ensures
        stored_section(store, BlockSectionId::Header(header.id)) == Some(
            SectionModel::Header(header),
        ),
{
    law_key_layout(header.id);
    law_section_layout(header, Seq::empty());
    lemma_section_round_trip(SectionModel::Header(header), Seq::empty());
    assert(section_bytes(SectionModel::Header(header)) + Seq::<u8>::empty() =~= section_bytes(
        SectionModel::Header(header),
    ));
}

proof fn lemma_chain_in_bytes(store: Store, chain: Seq<BlockHeader>)
    requires
        chain.len() > 0,
        store.contains_key(seq![98u8, 101u8, 115u8, 116u8, 95u8, 116u8, 105u8, 112u8]),
        store[seq![98u8, 101u8, 115u8, 116u8, 95u8, 116u8, 105u8, 112u8]] == seq![0u8, 0u8, 0u8, 0u8]
            + chain[chain.len() - 1].id.digest@,
        forall|i: int|
            0 <= i < chain.len() ==> (#[trigger] chain[i]).height == i && (i > 0 ==> chain[i].parent
                == chain[i - 1].id),
        forall|i: int|
            0 <= i < chain.len() ==> store.contains_key(
                seq![0u8, 0u8, 0u8, 0u8] + (#[trigger] chain[i]).id.digest@,
            ),
        forall|i: int|
            #![trigger chain[i]]
            0 <= i < chain.len() ==> {
                let bytes = store[seq![0u8, 0u8, 0u8, 0u8] + chain[i].id.digest@];
                &&& bytes.len() >= 76 && bytes[0] == 0 && bytes[1] == 0 && bytes[2] == 0 && bytes[3] == 0
                &&& chain[i].id.digest@ == bytes.subrange(4, 36)
                &&& chain[i].parent.digest@ == bytes.subrange(36, 68)
                &&& chain[i].height == bytes[68] + bytes[69] * 0x100 + bytes[70] * 0x10000 + bytes[71]
                * 0x1000000 + bytes[72] * 0x100000000 + bytes[73] * 0x10000000000 + bytes[74]
                * 0x1000000000000 + bytes[75] * 0x100000000000000
            },
    ensures
        holds_chain(store, chain),
{
    let last = chain[chain.len() - 1];
    law_key_layout(last.id);
    assert(tip_key() =~= seq![98u8, 101u8, 115u8, 116u8, 95u8, 116u8, 105u8, 112u8]);
    assert forall|i: int| 0 <= i < chain.len() implies stored_section(
        store,
        BlockSectionId::Header((#[trigger] chain[i]).id),
    ) == Some(SectionModel::Header(chain[i])) by {
        law_key_layout(chain[i].id);
        law_decoded(
            store[seq![0u8, 0u8, 0u8, 0u8] + chain[i].id.digest@],
            chain[i],
            Seq::empty(),
        );
    }
    assert forall|i: int, j: int|
        #![trigger chain[i], chain[j]]
        0 <= i && j == i + 1 && j < chain.len() implies chain[j].parent == chain[i].id by {
        assert(chain[j].height == j);
        assert(chain[j - 1] == chain[i]);
    }
}

/// What the chain queries answer on a store that holds a best chain, in terms of the
/// records alone. The store has, for every header of `chain` from the origin block on, a
/// record under four bytes 0 and the block's digest, which begins with four bytes 0, the
/// digest, the parent's digest and the height; and its tip record is such a key, of the
/// last block.
///
/// - The tip is the last header.
/// - The tail is made of the last headers, in chain order: as many as asked for, but at
///   least one and not more than there are.
/// - A block is a member exactly where it is in the chain.
/// - The blocks that follow a block of the chain are those right after it, in chain order:
///   as many as the cap, but not more than there are up to the tip. A block that is not in
///   the chain is followed by none.
#[verifier::rlimit(40)]
pub proof fn law_chain_queries(
    store: Store,
    chain: Seq<BlockHeader>,
    id: BlockId,
    n: usize,
    cap: usize,
)
    requires
        chain.len() > 0,
        store.contains_key(seq![98u8, 101u8, 115u8, 116u8, 95u8, 116u8, 105u8, 112u8]),
        store[seq![98u8, 101u8, 115u8, 116u8, 95u8, 116u8, 105u8, 112u8]] == seq![0u8, 0u8, 0u8, 0u8]
            + chain[chain.len() - 1].id.digest@,
        forall|i: int|
            0 <= i < chain.len() ==> (#[trigger] chain[i]).height == i && (i > 0 ==> chain[i].parent
                == chain[i - 1].id),
        forall|i: int|
            0 <= i < chain.len() ==> store.contains_key(
                seq![0u8, 0u8, 0u8, 0u8] + (#[trigger] chain[i]).id.digest@,
            ),
        forall|i: int|
            #![trigger chain[i]]
            0 <= i < chain.len() ==> {
                let bytes = store[seq![0u8, 0u8, 0u8, 0u8] + chain[i].id.digest@];
                &&& bytes.len() >= 76 && bytes[0] == 0 && bytes[1] == 0 && bytes[2] == 0 && bytes[3] == 0
                &&& chain[i].id.digest@ == bytes.subrange(4, 36)
                &&& chain[i].parent.digest@ == bytes.subrange(36, 68)
                &&& chain[i].height == bytes[68] + bytes[69] * 0x100 + bytes[70] * 0x10000 + bytes[71]
                * 0x1000000 + bytes[72] * 0x100000000 + bytes[73] * 0x10000000000 + bytes[74]
                * 0x1000000000000 + bytes[75] * 0x100000000000000
            },
    ensures
        tip_answer(run(store, start(ChainQuery::Tip))) == Some(chain[chain.len() - 1]),
        tail_answer(run(store, start(ChainQuery::Tail(n)))) matches Some(tail) && {
            &&& tail.len() == (if n == 0 {
                1
            } else if n <= chain.len() {
                n as nat
            } else {
                chain.len()
            })
            &&& forall|i: int|
                0 <= i < tail.len() ==> (#[trigger] tail[i]) == chain[chain.len() - tail.len() + i]
        },
        member_answer(run(store, start(ChainQuery::Member(id)))) == Some(
            exists|i: int| 0 <= i < chain.len() && (#[trigger] chain[i]).id == id,
        ),
        follow_answer(run(store, start(ChainQuery::Follow(id, cap)))) matches Some(blocks) && {
            &&& forall|i: int|
                #![trigger chain[i]]
                0 <= i < chain.len() && chain[i].id == id ==> {
                    &&& blocks.len() == (if cap <= chain.len() - 1 - i {
                        cap as int
                    } else {
                        chain.len() - 1 - i
                    })
                    &&& forall|j: int|
                        0 <= j < blocks.len() ==> (#[trigger] blocks[j]) == chain[i + 1 + j].id
                }
            &&& (forall|i: int| 0 <= i < chain.len() ==> (#[trigger] chain[i]).id != id)
                ==> blocks.len() == 0
        },
{
    lemma_chain_in_bytes(store, chain);
    law_get_tip(store, chain);
    law_get_tail(store, chain, n);
    law_member(store, chain, id);
    law_follow(store, chain, id, cap);
    let blocks = follow_of(chain, id, cap as nat);
    if exists|i: int| 0 <= i < chain.len() && (#[trigger] chain[i]).id == id {
        let i = choose|i: int| 0 <= i < chain.len() && (#[trigger] chain[i]).id == id;
        assert(stands_at(chain, id, i));
    }
    assert forall|i: int| #![trigger chain[i]] 0 <= i < chain.len() && chain[i].id == id implies {
        &&& blocks.len() == (if cap <= chain.len() - 1 - i {
            cap as int
        } else {
            chain.len() - 1 - i
        })
        &&& forall|j: int| 0 <= j < blocks.len() ==> (#[trigger] blocks[j]) == chain[i + 1 + j].id
    } by {
        assert(stands_at(chain, id, i));
        let p = choose|i: int| stands_at(chain, id, i);
        lemma_position_is_unique(store, chain, id, i, p);
    }
}

} // verus!
