//! Putting requests together: nodes by volume, and links in batches.

use vstd::prelude::*;
use vstd::string::StringExecFns;

use crate::dtos::{AggregateLinksResponse, LinkIdResponsePair};
use crate::error::{ProtonApiError, ProtonError, ResponseCode};
use crate::ids::{LinkId, NodeUid, VolumeId};
use crate::text::owned;

verus! {

/// Links in one request at most.
pub const MAX_BATCH_COUNT: usize = 150;

/// Thumbnails in one request at most.
pub const MAX_THUMBNAIL_IDS_PER_REQUEST: usize = 30;

/// Batches of link details fetched at the same time.
pub const MAX_CONCURRENT_DETAIL_FETCHES: usize = 4;

/// Nodes decrypted at the same time.
pub const MAX_CONCURRENT_NODE_BUILDS: usize = 8;

// ---------------------------------------------------------------------------
// By volume
// ---------------------------------------------------------------------------

/// The volumes of nodes, in the order in which they first occur.
pub open spec fn volumes_of(uids: Seq<NodeUid>) -> Seq<Seq<char>>
    decreases uids.len(),
{
    if uids.len() == 0 {
        Seq::empty()
    } else {
        let before = volumes_of(uids.drop_last());
        let volume = uids.last().volume_id@;
        if before.contains(volume) {
            before
        } else {
            before.push(volume)
        }
    }
}

/// The links of the nodes that are on a volume, in order.
pub open spec fn links_on(uids: Seq<NodeUid>, volume: Seq<char>) -> Seq<LinkId>
    decreases uids.len(),
{
    if uids.len() == 0 {
        Seq::empty()
    } else {
        let before = links_on(uids.drop_last(), volume);
        if uids.last().volume_id@ == volume {
            before.push(uids.last().link_id)
        } else {
            before
        }
    }
}

/// Whether the groups are the nodes by volume.
pub open spec fn is_grouping(groups: Seq<(VolumeId, Vec<LinkId>)>, uids: Seq<NodeUid>) -> bool {
    &&& groups.len() == volumes_of(uids).len()
    &&& forall|i: int|
        0 <= i < groups.len() ==> (#[trigger] groups[i]).0@ == volumes_of(uids)[i] && groups[i].1@
            == links_on(uids, volumes_of(uids)[i])
}

proof fn lemma_volumes_distinct(uids: Seq<NodeUid>)
    ensures
        volumes_of(uids).no_duplicates(),
    decreases uids.len(),
{
    if uids.len() > 0 {
        lemma_volumes_distinct(uids.drop_last());
    }
}

proof fn lemma_links_on_new_volume(uids: Seq<NodeUid>, volume: Seq<char>)
    requires
        !volumes_of(uids).contains(volume),
    ensures
        links_on(uids, volume) == Seq::<LinkId>::empty(),
    decreases uids.len(),
{
    if uids.len() > 0 {
        let fewer = uids.drop_last();
        let before = volumes_of(fewer);
        let last = uids.last().volume_id@;
        if before.contains(volume) {
            let k = choose|k: int| 0 <= k < before.len() && before[k] == volume;
            assert(volumes_of(uids)[k] == volume);
        }
        if last == volume && !before.contains(last) {
            assert(volumes_of(uids)[before.len() as int] == volume);
        }
        lemma_links_on_new_volume(fewer, volume);
    }
}

/// Whether a node on one volume comes before every node on another.
pub open spec fn is_met_first(uids: Seq<NodeUid>, one: Seq<char>, other: Seq<char>) -> bool {
    exists|p: int|
        0 <= p < uids.len() && (#[trigger] uids[p]).volume_id@ == one && forall|q: int|
            0 <= q <= p ==> (#[trigger] uids[q]).volume_id@ != other
}

/// The links of a volume are those of its nodes, in the order of the nodes; and the
/// volumes come in the order in which they are met.
pub proof fn law_grouping_keeps_the_order(uids: Seq<NodeUid>, volume: Seq<char>)
    ensures
        links_on(uids, volume) == uids.filter(
            |uid: NodeUid| uid.volume_id@ == volume,
        ).map_values(|uid: NodeUid| uid.link_id),
        forall|i: int, j: int|
            0 <= i < j < volumes_of(uids).len() ==> is_met_first(
                uids,
                #[trigger] volumes_of(uids)[i],
                #[trigger] volumes_of(uids)[j],
            ),
        forall|i: int|
            0 <= i < volumes_of(uids).len() ==> links_on(
                uids,
                #[trigger] volumes_of(uids)[i],
            ).len() > 0,
        forall|k: int|
            0 <= k < uids.len() ==> volumes_of(uids).contains((#[trigger] uids[k]).volume_id@),
    decreases uids.len(),
{
    reveal(Seq::filter);
    let same = |uid: NodeUid| uid.volume_id@ == volume;
    let link = |uid: NodeUid| uid.link_id;
    if uids.len() > 0 {
        let fewer = uids.drop_last();
        law_grouping_keeps_the_order(fewer, volume);
        assert(uids.filter(same).map_values(link) =~= if same(uids.last()) {
            fewer.filter(same).map_values(link).push(uids.last().link_id)
        } else {
            fewer.filter(same).map_values(link)
        });
        let before = volumes_of(fewer);
        let all = volumes_of(uids);
        assert forall|i: int, j: int| 0 <= i < j < all.len() implies is_met_first(
            uids,
            #[trigger] all[i],
            #[trigger] all[j],
        ) by {
            assert(all[i] == before[i]);
            if j < before.len() {
                assert(all[j] == before[j]);
                assert(is_met_first(fewer, before[i], before[j]));
                let p = choose|p: int|
                    0 <= p < fewer.len() && (#[trigger] fewer[p]).volume_id@ == before[i] && forall|
                        q: int,
                    | 0 <= q <= p ==> (#[trigger] fewer[q]).volume_id@ != before[j];
                assert(uids[p] == fewer[p]);
                assert forall|q: int| 0 <= q <= p implies (#[trigger] uids[q]).volume_id@
                    != all[j] by {
                    assert(uids[q] == fewer[q]);
                }
            } else {
                assert(all[j] == uids.last().volume_id@);
                assert(before.contains(before[i]));
                lemma_volumes_met(fewer, i);
                let p = choose|p: int|
                    0 <= p < fewer.len() && (#[trigger] fewer[p]).volume_id@ == before[i];
                assert(uids[p] == fewer[p]);
                assert forall|q: int| 0 <= q <= p implies (#[trigger] uids[q]).volume_id@
                    != all[j] by {
                    assert(uids[q] == fewer[q]);
                    assert(before.contains(fewer[q].volume_id@));
                }
            }
        }
        assert forall|k: int| 0 <= k < uids.len() implies all.contains(
            (#[trigger] uids[k]).volume_id@,
        ) by {
            if k < fewer.len() {
                assert(fewer[k] == uids[k]);
                let i = before.index_of(uids[k].volume_id@);
                assert(all[i] == before[i]);
            } else if before.contains(uids.last().volume_id@) {
            } else {
                assert(all[before.len() as int] == uids.last().volume_id@);
            }
        }
        assert forall|i: int| 0 <= i < all.len() implies links_on(uids, #[trigger] all[i]).len()
            > 0 by {
            if i < before.len() {
                assert(all[i] == before[i]);
            }
        }
    } else {
        assert(uids.filter(same).map_values(link) =~= Seq::<LinkId>::empty());
    }
}

proof fn lemma_volumes_met(uids: Seq<NodeUid>, i: int)
    requires
        0 <= i < volumes_of(uids).len(),
    ensures
        exists|p: int|
            0 <= p < uids.len() && (#[trigger] uids[p]).volume_id@ == volumes_of(uids)[i],
    decreases uids.len(),
{
    let fewer = uids.drop_last();
    if i < volumes_of(fewer).len() {
        lemma_volumes_met(fewer, i);
        let p = choose|p: int|
            0 <= p < fewer.len() && (#[trigger] fewer[p]).volume_id@ == volumes_of(fewer)[i];
        assert(uids[p] == fewer[p]);
    } else {
        assert(uids[uids.len() - 1] == uids.last());
    }
}

/// The links of nodes by volume. Volumes, and the links of each, keep the order in
/// which they occur.
pub fn group_by_volume(uids: &Vec<NodeUid>) -> (groups: Vec<(VolumeId, Vec<LinkId>)>)
    ensures
        is_grouping(groups@, uids@),
        forall|i: int, j: int|
            0 <= i < j < groups@.len() ==> (#[trigger] groups@[i]).0@ != (#[trigger] groups@[j]).0@,
        forall|k: int|
            0 <= k < uids@.len() ==> exists|i: int|
                0 <= i < groups@.len() && (#[trigger] groups@[i]).0@ == (
                #[trigger] uids@[k]).volume_id@,
        forall|i: int|
            0 <= i < groups@.len() ==> {
                let volume = (#[trigger] groups@[i]).0@;
                &&& groups@[i].1@.len() > 0
                &&& groups@[i].1@ == uids@.filter(
                    |uid: NodeUid| uid.volume_id@ == volume,
                ).map_values(|uid: NodeUid| uid.link_id)
            },
        forall|i: int, j: int|
            0 <= i < j < groups@.len() ==> is_met_first(
                uids@,
                (#[trigger] groups@[i]).0@,
                (#[trigger] groups@[j]).0@,
            ),
{
    let mut groups: Vec<(VolumeId, Vec<LinkId>)> = Vec::new();
    let mut i: usize = 0;
    assert(uids@.take(0) =~= Seq::<NodeUid>::empty());
    while i < uids.len()
        invariant
            i <= uids@.len(),
            is_grouping(groups@, uids@.take(i as int)),
        decreases uids@.len() - i,
    {
        let uid: &NodeUid = &uids[i];
        let ghost seen = uids@.take(i as int);
        let ghost next = uids@.take(i + 1);
        proof {
            assert(next.drop_last() =~= seen);
            assert(next.last() == *uid);
            lemma_volumes_distinct(seen);
        }
        let mut k: usize = 0;
        while k < groups.len() && !groups[k].0.same_as(&uid.volume_id)
            invariant
                k <= groups@.len(),
                forall|j: int| 0 <= j < k ==> (#[trigger] groups@[j]).0@ != uid.volume_id@,
            decreases groups@.len() - k,
        {
            k += 1;
        }
        let ghost before = groups@;
        if k < groups.len() {
            let (volume_id, mut links): (VolumeId, Vec<LinkId>) = groups.remove(k);
            links.push(uid.link_id.clone());
            groups.insert(k, (volume_id, links));
            proof {
                assert(volumes_of(seen)[k as int] == uid.volume_id@);
                assert(volumes_of(next) == volumes_of(seen));
                assert(groups@.len() == before.len());
                assert forall|j: int| 0 <= j < groups@.len() implies (#[trigger] groups@[j]).0@
                    == volumes_of(next)[j] && groups@[j].1@ == links_on(next, volumes_of(next)[j]) by {
                    if j != k {
                        assert(groups@[j] == before[j]);
                        assert(volumes_of(next)[j] != volumes_of(next)[k as int]);
                    }
                }
            }
        } else {
            let mut links: Vec<LinkId> = Vec::new();
            links.push(uid.link_id.clone());
            groups.push((uid.volume_id.clone(), links));
            proof {
                if volumes_of(seen).contains(uid.volume_id@) {
                    let j = choose|j: int|
                        0 <= j < volumes_of(seen).len() && volumes_of(seen)[j] == uid.volume_id@;
                    assert(before[j].0@ != uid.volume_id@);
                }
                lemma_links_on_new_volume(seen, uid.volume_id@);
                assert(volumes_of(next) == volumes_of(seen).push(uid.volume_id@));
                assert forall|j: int| 0 <= j < groups@.len() implies (#[trigger] groups@[j]).0@
                    == volumes_of(next)[j] && groups@[j].1@ == links_on(next, volumes_of(next)[j]) by {
                    if j < before.len() {
                        assert(groups@[j] == before[j]);
                        assert(volumes_of(seen).contains(volumes_of(seen)[j]));
                    } else {
                        assert(groups@[j].1@ =~= seq![uid.link_id]);
                    }
                }
            }
        }
        i += 1;
    }
    assert(uids@.take(i as int) =~= uids@);
    proof {
        lemma_volumes_distinct(uids@);
        law_grouping_keeps_the_order(uids@, Seq::empty());
        assert forall|j: int| 0 <= j < groups@.len() implies {
            let volume = (#[trigger] groups@[j]).0@;
            &&& groups@[j].1@.len() > 0
            &&& groups@[j].1@ == uids@.filter(
                |uid: NodeUid| uid.volume_id@ == volume,
            ).map_values(|uid: NodeUid| uid.link_id)
        } by {
            law_grouping_keeps_the_order(uids@, groups@[j].0@);
            assert(links_on(uids@, volumes_of(uids@)[j]).len() > 0);
        }
        assert forall|j: int, l: int| 0 <= j < l < groups@.len() implies is_met_first(
            uids@,
            (#[trigger] groups@[j]).0@,
            (#[trigger] groups@[l]).0@,
        ) by {
            assert(is_met_first(uids@, volumes_of(uids@)[j], volumes_of(uids@)[l]));
        }
        assert forall|k: int| 0 <= k < uids@.len() implies exists|j: int|
            0 <= j < groups@.len() && (#[trigger] groups@[j]).0@ == (
            #[trigger] uids@[k]).volume_id@ by {
            let j = volumes_of(uids@).index_of(uids@[k].volume_id@);
            assert(volumes_of(uids@).contains(uids@[k].volume_id@));
            assert(groups@[j].0@ == volumes_of(uids@)[j]);
        }
    }
    groups
}

/// Whether the link on the volume is one of the nodes.
pub open spec fn is_node_among(uids: Seq<NodeUid>, volume: Seq<char>, link: LinkId) -> bool {
    exists|i: int|
        0 <= i < uids.len() && (#[trigger] uids[i]).volume_id@ == volume && uids[i].link_id == link
}

/// Grouping loses no node and invents none: each node is in the group of its
/// volume, each entry of a group is a node, and no volume has two groups.
pub proof fn law_grouping_keeps_every_node(uids: Seq<NodeUid>, volume: Seq<char>, k: int)
    requires
        0 <= k < uids.len(),
    ensures
        volumes_of(uids).no_duplicates(),
        volumes_of(uids).contains(uids[k].volume_id@),
        links_on(uids, uids[k].volume_id@).contains(uids[k].link_id),
        forall|j: int|
            0 <= j < links_on(uids, volume).len() ==> is_node_among(
                uids,
                volume,
                #[trigger] links_on(uids, volume)[j],
            ),
{
    lemma_volumes_distinct(uids);
    lemma_member_of_group(uids, k);
    assert forall|j: int| 0 <= j < links_on(uids, volume).len() implies is_node_among(
        uids,
        volume,
        #[trigger] links_on(uids, volume)[j],
    ) by {
        let i = lemma_source_of_entry(uids, volume, j);
        assert(uids[i].link_id == links_on(uids, volume)[j]);
    }
}

proof fn lemma_member_of_group(uids: Seq<NodeUid>, k: int)
    requires
        0 <= k < uids.len(),
    ensures
        volumes_of(uids).contains(uids[k].volume_id@),
        links_on(uids, uids[k].volume_id@).contains(uids[k].link_id),
    decreases uids.len(),
{
    let fewer = uids.drop_last();
    let volume = uids[k].volume_id@;
    if k < fewer.len() {
        lemma_member_of_group(fewer, k);
        assert(fewer[k] == uids[k]);
        let i = choose|i: int| 0 <= i < volumes_of(fewer).len() && volumes_of(fewer)[i] == volume;
        assert(volumes_of(uids)[i] == volume);
        let j = choose|j: int|
            0 <= j < links_on(fewer, volume).len() && links_on(fewer, volume)[j]
                == uids[k].link_id;
        assert(links_on(uids, volume)[j] == uids[k].link_id);
    } else {
        assert(links_on(uids, volume).last() == uids[k].link_id);
        if !volumes_of(fewer).contains(volume) {
            assert(volumes_of(uids).last() == volume);
        }
    }
}

proof fn lemma_source_of_entry(uids: Seq<NodeUid>, volume: Seq<char>, j: int) -> (i: int)
    requires
        0 <= j < links_on(uids, volume).len(),
    ensures
        0 <= i < uids.len(),
        uids[i].volume_id@ == volume,
        uids[i].link_id == links_on(uids, volume)[j],
    decreases uids.len(),
{
    let fewer = uids.drop_last();
    if uids.last().volume_id@ == volume && j == links_on(fewer, volume).len() {
        uids.len() - 1
    } else {
        let i = lemma_source_of_entry(fewer, volume, j);
        assert(fewer[i] == uids[i]);
        i
    }
}

// ---------------------------------------------------------------------------
// In batches
// ---------------------------------------------------------------------------

/// How many batches of `size` it takes for `n` things.
pub open spec fn batch_count(n: nat, size: nat) -> nat {
    if size == 0 {
        0
    } else {
        (n + size - 1) as nat / size
    }
}

/// Batch `k` of things in batches of `size`.
pub open spec fn batch_of<T>(all: Seq<T>, size: nat, k: int) -> Seq<T> {
    let end = if (k + 1) * size < all.len() {
        (k + 1) * size
    } else {
        all.len() as int
    };
    all.subrange(k * size, end)
}

/// Whether the batches are `all` in batches of `size`.
pub open spec fn is_batching<T>(batches: Seq<Vec<T>>, all: Seq<T>, size: nat) -> bool {
    &&& batches.len() == batch_count(all.len(), size)
    &&& forall|k: int| 0 <= k < batches.len() ==> (#[trigger] batches[k])@ == batch_of(all, size, k)
}

/// Links in batches of `size`; only the last batch can be smaller.
pub fn chunked(links: &Vec<LinkId>, size: usize) -> (batches: Vec<Vec<LinkId>>)
    requires
        size > 0,
    ensures
        is_batching(batches@, links@, size as nat),
        forall|k: int|
            0 <= k < batches@.len() ==> 0 < (#[trigger] batches@[k])@.len() <= size,
        forall|k: int|
            0 <= k < batches@.len() - 1 ==> (#[trigger] batches@[k])@.len() == size,
        ({
            let flat = Seq::new(batches@.len(), |k: int| batches@[k]@).flatten();
            flat == links@
        }),
{
    let mut all: Vec<LinkId> = Vec::new();
    let mut i: usize = 0;
    while i < links.len()
        invariant
            i <= links@.len(),
            all@ == links@.take(i as int),
        decreases links@.len() - i,
    {
        all.push(links[i].clone());
        i += 1;
        assert(all@ =~= links@.take(i as int));
    }
    assert(all@ =~= links@);
    cut(all, size)
}

/// Things in batches of `size`; only the last batch can be smaller.
pub fn cut<T>(items: Vec<T>, size: usize) -> (batches: Vec<Vec<T>>)
    requires
        size > 0,
    ensures
        is_batching(batches@, items@, size as nat),
        forall|k: int|
            0 <= k < batches@.len() ==> 0 < (#[trigger] batches@[k])@.len() <= size,
        forall|k: int|
            0 <= k < batches@.len() - 1 ==> (#[trigger] batches@[k])@.len() == size,
        ({
            let flat = Seq::new(batches@.len(), |k: int| batches@[k]@).flatten();
            flat == items@
        }),
{
    let ghost all = items@;
    let n: usize = items.len();
    let mut rest: Vec<T> = items;
    let mut batches: Vec<Vec<T>> = Vec::new();
    let ghost mut k: nat = 0;
    assert(rest@ =~= all.skip(0));
    while rest.len() > 0
        invariant
            n == all.len(),
            size > 0,
            rest@ == all.skip(
                if k * size < n {
                    (k * size) as int
                } else {
                    n as int
                },
            ),
            k > 0 ==> (k - 1) * size < n,
            batches@.len() == k,
            forall|j: int| 0 <= j < k ==> (#[trigger] batches@[j])@ == batch_of(all, size as nat, j),
        decreases rest@.len(),
    {
        let ghost before = rest@;
        let tail: Vec<T> = if rest.len() > size {
            rest.split_off(size)
        } else {
            Vec::new()
        };
        proof {
            assert((k + 1) * size == k * size + size) by (nonlinear_arith);
            assert(before =~= all.skip((k * size) as int));
            assert(rest@ =~= batch_of(all, size as nat, k as int));
        }
        batches.push(rest);
        rest = tail;
        proof {
            k = k + 1;
            assert(rest@ =~= all.skip(
                if k * size < n {
                    (k * size) as int
                } else {
                    n as int
                },
            ));
        }
    }
    proof {
        if k > 0 {
            lemma_batch_count(n as nat, size as nat, k);
        } else {
            lemma_no_batches(size as nat);
        }
        law_batches_hold_everything_once(batches@, all, size as nat);
    }
    batches
}

proof fn lemma_no_batches(size: nat)
    requires
        size > 0,
    ensures
        batch_count(0, size) == 0,
{
    assert((size - 1) as nat / size == 0) by {
        vstd::arithmetic::div_mod::lemma_basic_div(size - 1, size as int);
    }
}

proof fn lemma_batch_count(n: nat, size: nat, k: nat)
    requires
        size > 0,
        k > 0,
        (k - 1) * size < n,
        n <= k * size,
    ensures
        batch_count(n, size) == k,
{
    let r = n + size - 1 - k * size;
    assert((k - 1) * size == k * size - size) by (nonlinear_arith);
    assert(0 <= r < size);
    assert(n + size - 1 == k * size + r);
    vstd::arithmetic::div_mod::lemma_fundamental_div_mod_converse(
        n + size - 1,
        size as int,
        k as int,
        r,
    );
}

/// The first `k` batches, put together again.
pub open spec fn batches_joined<T>(all: Seq<T>, size: nat, k: nat) -> Seq<T>
    decreases k,
{
    if k == 0 {
        Seq::empty()
    } else {
        batches_joined(all, size, (k - 1) as nat) + batch_of(all, size, k - 1)
    }
}

/// Putting the batches together again gives back what was cut up: nothing is lost,
/// repeated or moved. No batch is empty or larger than the size.
pub proof fn law_batches_join_to_the_whole<T>(all: Seq<T>, size: nat)
    requires
        size > 0,
    ensures
        batches_joined(all, size, batch_count(all.len(), size)) == all,
        forall|k: int|
            0 <= k < batch_count(all.len(), size) ==> 0 < (#[trigger] batch_of(
                all,
                size,
                k,
            )).len() <= size,
{
    let n = all.len();
    let count = batch_count(n, size);
    vstd::arithmetic::div_mod::lemma_fundamental_div_mod(n + size - 1, size as int);
    assert(count * size <= n + size - 1 < count * size + size) by (nonlinear_arith)
        requires
            n + size - 1 == size * count + (n + size - 1) % (size as int),
            0 <= (n + size - 1) % (size as int) < size,
    ;
    if count > 0 {
        assert((count - 1) * size == count * size - size) by (nonlinear_arith);
    }
    lemma_joined_prefix(all, size, count);
    assert(count * size >= n);
    assert(all.take(n as int) =~= all);
    assert forall|k: int| 0 <= k < count implies 0 < (#[trigger] batch_of(all, size, k)).len()
        <= size by {
        assert((k + 1) * size == k * size + size) by (nonlinear_arith);
        assert(k * size <= (count - 1) * size) by (nonlinear_arith)
            requires
                k <= count - 1,
                size > 0,
        ;
        assert((count - 1) * size == count * size - size) by (nonlinear_arith);
    }
}

/// Batches put one after the other are what was cut up. None of them is empty, and all
/// but the last are full.
pub proof fn law_batches_hold_everything_once<T>(batches: Seq<Vec<T>>, all: Seq<T>, size: nat)
    requires
        size > 0,
        is_batching(batches, all, size),
    ensures
        Seq::new(batches.len(), |k: int| batches[k]@).flatten() == all,
        forall|k: int| 0 <= k < batches.len() ==> 0 < (#[trigger] batches[k])@.len() <= size,
        forall|k: int| 0 <= k < batches.len() - 1 ==> (#[trigger] batches[k])@.len() == size,
{
    law_batches_join_to_the_whole(all, size);
    let count = batches.len();
    let n = all.len();
    lemma_flat_batches(batches, all, size, count);
    assert(batches.take(count as int) =~= batches);
    vstd::arithmetic::div_mod::lemma_fundamental_div_mod(n + size - 1, size as int);
    assert(count * size <= n + size - 1) by (nonlinear_arith)
        requires
            n + size - 1 == size * count + (n + size - 1) % (size as int),
            0 <= (n + size - 1) % (size as int),
    ;
    assert forall|k: int| 0 <= k < count - 1 implies (#[trigger] batches[k])@.len() == size by {
        assert((k + 1) * size == k * size + size) by (nonlinear_arith);
        assert((k + 1) * size <= count * size - size) by (nonlinear_arith)
            requires
                k + 1 <= count - 1,
                size > 0,
        ;
    }
    assert forall|k: int| 0 <= k < count implies 0 < (#[trigger] batches[k])@.len() <= size by {
        assert(batches[k]@ == batch_of(all, size, k));
    }
}

proof fn lemma_flat_batches<T>(batches: Seq<Vec<T>>, all: Seq<T>, size: nat, k: nat)
    requires
        is_batching(batches, all, size),
        k <= batches.len(),
    ensures
        Seq::new(k, |j: int| batches[j]@).flatten() == batches_joined(all, size, k),
    decreases k,
{
    let parts = Seq::new(k, |j: int| batches[j]@);
    if k > 0 {
        let p = (k - 1) as nat;
        lemma_flat_batches(batches, all, size, p);
        let fewer = Seq::new(p, |j: int| batches[j]@);
        assert(parts =~= fewer.push(batches[p as int]@));
        fewer.lemma_flatten_push(batches[p as int]@);
    }
}

proof fn lemma_joined_prefix<T>(all: Seq<T>, size: nat, k: nat)
    requires
        size > 0,
        k > 0 ==> (k - 1) * size < all.len(),
    ensures
        batches_joined(all, size, k) == all.take(
            if k * size < all.len() {
                (k * size) as int
            } else {
                all.len() as int
            },
        ),
    decreases k,
{
    if k == 0 {
        assert(batches_joined(all, size, k) =~= all.take(0));
    } else {
        let p = (k - 1) as nat;
        assert(p * size + size == k * size) by (nonlinear_arith)
            requires
                p == k - 1,
        ;
        if p > 0 {
            assert((p - 1) * size < p * size) by (nonlinear_arith)
                requires
                    size > 0,
            ;
        }
        lemma_joined_prefix(all, size, p);
        assert((k - 1) * size == p * size);
        let to = if k * size < all.len() {
            (k * size) as int
        } else {
            all.len() as int
        };
        assert((p + 1) * size == k * size);
        assert(all.take((p * size) as int) + batch_of(all, size, k - 1) =~= all.take(to));
    }
}

// ---------------------------------------------------------------------------
// Actions on many nodes
// ---------------------------------------------------------------------------

/// What is done to many nodes at once.
#[derive(Debug, Clone, Copy, PartialEq, Eq, Structural)]
pub enum NodeAction {
    Trash,
    Restore,
    Delete,
}

impl NodeAction {
    /// The route of the action on a volume.
    pub open spec fn route(self, volume: Seq<char>) -> Seq<char> {
        match self {
            NodeAction::Trash => "v2/volumes/"@ + volume + "/trash_multiple"@,
            NodeAction::Restore => "v2/volumes/"@ + volume + "/trash/restore_multiple"@,
            NodeAction::Delete => "v2/volumes/"@ + volume + "/trash/delete_multiple"@,
        }
    }

    pub fn path(self, volume_id: &VolumeId) -> (path: String)
        ensures
            path@ == self.route(volume_id@),
            self == NodeAction::Trash ==> path@ == "v2/volumes/"@ + volume_id@ + "/trash_multiple"@,
            self == NodeAction::Restore ==> path@ == "v2/volumes/"@ + volume_id@
                + "/trash/restore_multiple"@,
            self == NodeAction::Delete ==> path@ == "v2/volumes/"@ + volume_id@ + "/trash/delete_multiple"@,
    {
        let mut path: String = owned("v2/volumes/");
        path.append(volume_id.as_str());
        match self {
            NodeAction::Trash => path.append("/trash_multiple"),
            NodeAction::Restore => path.append("/trash/restore_multiple"),
            NodeAction::Delete => path.append("/trash/delete_multiple"),
        }
        path
    }
}

/// What came of one link of a batch: nothing to say when its code is success, and
/// otherwise a refusal with that code, under the status of the batch.
pub open spec fn is_outcome(outcome: (LinkId, Result<(), ProtonError>), pair: LinkIdResponsePair) -> bool {
    &&& outcome.0 == pair.link_id
    &&& match outcome.1 {
        Ok(()) => pair.response.code == ResponseCode::Success,
        Err(ProtonError::Api(e)) => {
            &&& pair.response.code != ResponseCode::Success
            &&& e.code == pair.response.code
            &&& e.http_status == 200
            &&& e.details == pair.response.details
            &&& match pair.response.error_message {
                Some(message) => e.message == message,
                None => e.message@ == Seq::<char>::empty(),
            }
        },
        Err(_) => false,
    }
}

/// Splits the answer to a batch into what came of each link, in the order of the
/// answer.
pub fn aggregate_outcomes(response: AggregateLinksResponse) -> (r: Vec<
    (LinkId, Result<(), ProtonError>),
>)
    ensures
        r@.len() == response.responses@.len(),
        forall|i: int| 0 <= i < r@.len() ==> is_outcome(#[trigger] r@[i], response.responses@[i]),
        r@.len() == response.responses@.len(),
        forall|i: int|
            0 <= i < r@.len() ==> {
                let pair = response.responses@[i];
                &&& (#[trigger] r@[i]).0 == pair.link_id
                &&& r@[i].1 is Ok <==> pair.response.code == ResponseCode::Success
                &&& r@[i].1 matches Err(error) ==> error is Api && error->Api_0.code == pair.response.code
                    && error->Api_0.http_status == 200 && error->Api_0.details == pair.response.details
                    && error->Api_0.message@ == (match pair.response.error_message {
                    Some(message) => message@,
                    None => Seq::<char>::empty(),
                })
            },
{
    let mut rest: Vec<LinkIdResponsePair> = response.responses;
    let mut out: Vec<(LinkId, Result<(), ProtonError>)> = Vec::new();
    let ghost all = rest@;
    while rest.len() > 0
        invariant
            out@.len() + rest@.len() == all.len(),
            rest@ == all.skip(out@.len() as int),
            forall|i: int| 0 <= i < out@.len() ==> is_outcome(#[trigger] out@[i], all[i]),
        decreases rest@.len(),
    {
        let pair: LinkIdResponsePair = rest.remove(0);
        assert(pair == all[out@.len() as int]);
        let outcome: Result<(), ProtonError> = if pair.response.code == ResponseCode::Success {
            Ok(())
        } else {
            let message: String = match pair.response.error_message {
                Some(message) => message,
                None => String::new(),
            };
            Err(
                ProtonError::Api(
                    ProtonApiError {
                        code: pair.response.code,
                        http_status: 200,
                        message,
                        details: pair.response.details,
                    },
                ),
            )
        };
        out.push((pair.link_id, outcome));
        assert(rest@ =~= all.skip(out@.len() as int));
    }
    out
}

} // verus!
