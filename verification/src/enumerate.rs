//! Working through many nodes: which batches are sent, whose keys are needed, and
//! what comes back in which order.

use vstd::prelude::*;

use crate::batching::{
    aggregate_outcomes, batch_count, batch_of, chunked, group_by_volume, is_batching, is_grouping,
    is_outcome, links_on, volumes_of, NodeAction, MAX_BATCH_COUNT,
};
use crate::dtos::{AggregateLinksResponse, LinkDetailsDto, LinkDto, MultipleLinksRequest};
use crate::error::{ProtonError, ResponseCode};
use crate::ids::{LinkId, NodeUid, VolumeId};
use crate::node::Node;
use crate::node_build::{
    are_light_and_full, is_built, is_light_node_of,
    law_light_nodes_lack_only_what_a_file_key_unlocks, DecryptedLink,
};

verus! {

/// Links of one volume that go into one request.
#[derive(Debug, PartialEq, Eq)]
pub struct LinkBatch {
    pub volume_id: VolumeId,
    pub link_ids: Vec<LinkId>,
}

impl View for LinkBatch {
    type V = (Seq<char>, Seq<LinkId>);

    open spec fn view(&self) -> (Seq<char>, Seq<LinkId>) {
        (self.volume_id@, self.link_ids@)
    }
}

/// What batches stand for.
pub open spec fn batch_views(batches: Seq<LinkBatch>) -> Seq<(Seq<char>, Seq<LinkId>)> {
    Seq::new(batches.len(), |i: int| batches[i]@)
}

/// The batches of the links of one volume.
pub open spec fn volume_batches(volume: Seq<char>, links: Seq<LinkId>) -> Seq<
    (Seq<char>, Seq<LinkId>),
> {
    Seq::new(
        batch_count(links.len(), MAX_BATCH_COUNT as nat),
        |k: int| (volume, batch_of(links, MAX_BATCH_COUNT as nat, k)),
    )
}

/// The batches of the first `n` volumes of nodes.
pub open spec fn planned_batches(uids: Seq<NodeUid>, n: nat) -> Seq<(Seq<char>, Seq<LinkId>)>
    decreases n,
{
    if n == 0 {
        Seq::empty()
    } else {
        let volume = volumes_of(uids)[n - 1];
        planned_batches(uids, (n - 1) as nat) + volume_batches(volume, links_on(uids, volume))
    }
}

/// Nodes as batches: by volume, and each volume in batches of at most
/// [`MAX_BATCH_COUNT`] links.
pub fn link_batches(uids: &Vec<NodeUid>) -> (r: Vec<LinkBatch>)
    ensures
        batch_views(r@) == planned_batches(uids@, volumes_of(uids@).len()),
{
    let groups: Vec<(VolumeId, Vec<LinkId>)> = group_by_volume(uids);
    let mut out: Vec<LinkBatch> = Vec::new();
    let mut g: usize = 0;
    assert(batch_views(out@) =~= planned_batches(uids@, 0));
    while g < groups.len()
        invariant
            g <= groups@.len(),
            is_grouping(groups@, uids@),
            batch_views(out@) == planned_batches(uids@, g as nat),
        decreases groups@.len() - g,
    {
        let volume_id: &VolumeId = &groups[g].0;
        let chunks: Vec<Vec<LinkId>> = chunked(&groups[g].1, MAX_BATCH_COUNT);
        let ghost volume = volumes_of(uids@)[g as int];
        let ghost links = links_on(uids@, volume);
        let ghost before = batch_views(out@);
        let mut rest: Vec<Vec<LinkId>> = chunks;
        let ghost all = rest@;
        let ghost mut taken: int = 0;
        while rest.len() > 0
            invariant
                0 <= taken <= all.len(),
                rest@ == all.skip(taken),
                is_batching(all, links, MAX_BATCH_COUNT as nat),
                volume_id@ == volume,
                batch_views(out@) == before + volume_batches(volume, links).take(taken),
            decreases rest@.len(),
        {
            let chunk: Vec<LinkId> = rest.remove(0);
            let ghost prior = batch_views(out@);
            let ghost entry = (volume, batch_of(links, MAX_BATCH_COUNT as nat, taken));
            assert(chunk == all[taken]);
            assert(chunk@ == entry.1);
            out.push(LinkBatch { volume_id: volume_id.clone(), link_ids: chunk });
            proof {
                assert(batch_views(out@) =~= prior.push(entry));
                assert(volume_batches(volume, links)[taken] == entry);
                taken = taken + 1;
                assert(rest@ =~= all.skip(taken));
                assert(batch_views(out@) =~= before + volume_batches(volume, links).take(taken));
            }
        }
        proof {
            assert(volume_batches(volume, links).take(taken) =~= volume_batches(volume, links));
        }
        g += 1;
    }
    out
}

proof fn lemma_planned(uids: Seq<NodeUid>, n: nat, v: int, link: LinkId)
    requires
        n <= volumes_of(uids).len(),
        0 <= v < n,
        links_on(uids, volumes_of(uids)[v]).contains(link),
    ensures
        exists|b: int|
            0 <= b < planned_batches(uids, n).len() && (#[trigger] planned_batches(uids, n)[b]).0
                == volumes_of(uids)[v] && planned_batches(uids, n)[b].1.contains(link),
    decreases n,
{
    let volume = volumes_of(uids)[n - 1];
    let links = links_on(uids, volume);
    let before = planned_batches(uids, (n - 1) as nat);
    let added = volume_batches(volume, links);
    let all = planned_batches(uids, n);
    assert(all == before + added);
    if v < n - 1 {
        lemma_planned(uids, (n - 1) as nat, v, link);
        let b = choose|b: int|
            0 <= b < before.len() && (#[trigger] before[b]).0 == volumes_of(uids)[v]
                && before[b].1.contains(link);
        assert(all[b] == before[b]);
    } else {
        let p = links.index_of(link);
        let size = MAX_BATCH_COUNT as nat;
        let k = p / (size as int);
        assert(k * size <= p < (k + 1) * size);
        assert(k < batch_count(links.len(), size));
        assert(batch_of(links, size, k)[p - k * size] == links[p]);
        assert(added[k].1 == batch_of(links, size, k));
        assert(all[before.len() + k] == added[k]);
    }
}

proof fn lemma_planned_sizes(uids: Seq<NodeUid>, n: nat, b: int)
    requires
        n <= volumes_of(uids).len(),
        0 <= b < planned_batches(uids, n).len(),
    ensures
        0 < planned_batches(uids, n)[b].1.len() <= 150,
        forall|i: int|
            0 <= i < planned_batches(uids, n)[b].1.len() ==> links_on(
                uids,
                planned_batches(uids, n)[b].0,
            ).contains(#[trigger] planned_batches(uids, n)[b].1[i]),
    decreases n,
{
    if n > 0 {
        let volume = volumes_of(uids)[n - 1];
        let links = links_on(uids, volume);
        let before = planned_batches(uids, (n - 1) as nat);
        let added = volume_batches(volume, links);
        let all = planned_batches(uids, n);
        assert(all == before + added);
        if b < before.len() {
            lemma_planned_sizes(uids, (n - 1) as nat, b);
            assert(all[b] == before[b]);
        } else {
            let k = b - before.len();
            crate::batching::law_batches_join_to_the_whole(links, MAX_BATCH_COUNT as nat);
            assert(all[b] == added[k]);
            let batch = batch_of(links, MAX_BATCH_COUNT as nat, k);
            assert(all[b].1 == batch);
            assert forall|i: int| 0 <= i < batch.len() implies links.contains(
                #[trigger] batch[i],
            ) by {
                assert(batch[i] == links[k * MAX_BATCH_COUNT + i]);
            }
        }
    }
}

/// Every node is in a batch of its own volume, no batch is empty or too large for one
/// request, and a batch holds only links of nodes on its volume.
pub proof fn law_every_node_is_in_a_batch(uids: Seq<NodeUid>, k: int, b: int)
    requires
        0 <= k < uids.len(),
    ensures
        ({
            let batches = planned_batches(uids, volumes_of(uids).len());
            &&& exists|j: int|
                0 <= j < batches.len() && (#[trigger] batches[j]).0 == uids[k].volume_id@
                    && batches[j].1.contains(uids[k].link_id)
            &&& 0 <= b < batches.len() ==> 0 < batches[b].1.len() <= 150 && forall|i: int|
                0 <= i < batches[b].1.len() ==> crate::batching::is_node_among(
                    uids,
                    batches[b].0,
                    #[trigger] batches[b].1[i],
                )
        }),
{
    let n = volumes_of(uids).len();
    let batches = planned_batches(uids, n);
    crate::batching::law_grouping_keeps_every_node(uids, uids[k].volume_id@, k);
    let v = volumes_of(uids).index_of(uids[k].volume_id@);
    lemma_planned(uids, n, v, uids[k].link_id);
    if 0 <= b < batches.len() {
        lemma_planned_sizes(uids, n, b);
        crate::batching::law_grouping_keeps_every_node(uids, batches[b].0, k);
        assert forall|i: int| 0 <= i < batches[b].1.len() implies crate::batching::is_node_among(
            uids,
            batches[b].0,
            #[trigger] batches[b].1[i],
        ) by {
            let links = links_on(uids, batches[b].0);
            let j = links.index_of(batches[b].1[i]);
            assert(links[j] == batches[b].1[i]);
        }
    }
}

// ---------------------------------------------------------------------------
// Actions on many nodes
// ---------------------------------------------------------------------------

/// What an action on many nodes does next.
#[derive(Debug, PartialEq, Eq)]
pub enum ActionStep {
    /// Report what came of a node.
    Report(NodeUid, Result<(), ProtonError>),
    /// Send a batch to a route, by `PUT` or by `POST`.
    Send { path: String, by_put: bool, body: MultipleLinksRequest },
    /// Report the failure of a whole request, and stop.
    Fail(ProtonError),
    /// Nothing is left.
    End,
}

/// An action on many nodes under way: the batches still to be sent, the volume of
/// the one that was sent last, and what is still to be reported.
#[derive(Debug, PartialEq, Eq)]
pub struct ActionRun {
    pub action: NodeAction,
    pub batches: Vec<LinkBatch>,
    pub sent_to: Option<VolumeId>,
    pub pending: Vec<(NodeUid, Result<(), ProtonError>)>,
}

/// Whether the outcomes are those of an answer about links on a volume.
pub open spec fn are_node_outcomes(
    outcomes: Seq<(NodeUid, Result<(), ProtonError>)>,
    volume_id: VolumeId,
    response: AggregateLinksResponse,
) -> bool {
    &&& outcomes.len() == response.responses@.len()
    &&& forall|i: int|
        0 <= i < outcomes.len() ==> (#[trigger] outcomes[i]).0.volume_id == volume_id
            && is_outcome((outcomes[i].0.link_id, outcomes[i].1), response.responses@[i])
}

/// What came of each node that an answer reports on, in its order.
pub fn node_outcomes(volume_id: &VolumeId, response: AggregateLinksResponse) -> (r: Vec<
    (NodeUid, Result<(), ProtonError>),
>)
    ensures
        are_node_outcomes(r@, *volume_id, response),
{
    let mut rest: Vec<(LinkId, Result<(), ProtonError>)> = aggregate_outcomes(response);
    let mut out: Vec<(NodeUid, Result<(), ProtonError>)> = Vec::new();
    let ghost all = rest@;
    while rest.len() > 0
        invariant
            out@.len() + rest@.len() == all.len(),
            rest@ == all.skip(out@.len() as int),
            forall|i: int|
                0 <= i < out@.len() ==> (#[trigger] out@[i]).0.volume_id == *volume_id
                    && out@[i].0.link_id == all[i].0 && out@[i].1 == all[i].1,
        decreases rest@.len(),
    {
        let (link_id, outcome): (LinkId, Result<(), ProtonError>) = rest.remove(0);
        assert((link_id, outcome) == all[out@.len() as int]);
        out.push((NodeUid::new(volume_id.clone(), link_id), outcome));
        assert(rest@ =~= all.skip(out@.len() as int));
    }
    proof {
        assert forall|i: int| 0 <= i < out@.len() implies (#[trigger] out@[i]).0.volume_id
            == *volume_id && is_outcome(
            (out@[i].0.link_id, out@[i].1),
            response.responses@[i],
        ) by {
            assert(is_outcome(all[i], response.responses@[i]));
            assert((out@[i].0.link_id, out@[i].1) == all[i]);
        }
    }
    out
}

/// Each node that an answer reports on succeeded just when its code says so, and a
/// failure has the code of the answer.
pub proof fn law_outcomes_follow_the_codes(
    outcomes: Seq<(NodeUid, Result<(), ProtonError>)>,
    volume_id: VolumeId,
    response: AggregateLinksResponse,
    i: int,
)
    requires
        are_node_outcomes(outcomes, volume_id, response),
        0 <= i < outcomes.len(),
    ensures
        outcomes.len() == response.responses@.len(),
        outcomes[i].0.volume_id == volume_id,
        outcomes[i].0.link_id == response.responses@[i].link_id,
        outcomes[i].1 is Ok <==> response.responses@[i].response.code == ResponseCode::Success,
        outcomes[i].1 is Err ==> outcomes[i].1->Err_0 is Api && outcomes[i].1->Err_0->Api_0.code
            == response.responses@[i].response.code && outcomes[i].1->Err_0->Api_0.http_status
            == 200 && outcomes[i].1->Err_0->Api_0.details
            == response.responses@[i].response.details,
{
    assert(is_outcome((outcomes[i].0.link_id, outcomes[i].1), response.responses@[i]));
}

impl ActionRun {
    /// An action on nodes, of which nothing is done yet.
    pub fn start(action: NodeAction, uids: &Vec<NodeUid>) -> (run: ActionRun)
        ensures
            run.action == action,
            batch_views(run.batches@) == planned_batches(uids@, volumes_of(uids@).len()),
            run.sent_to is None,
            run.pending@.len() == 0,
    {
        ActionRun { action, batches: link_batches(uids), sent_to: None, pending: Vec::new() }
    }

    /// What to do next: report what came back, or else send the next batch.
    /// Restoring goes by `PUT`, the other actions by `POST`.
    pub fn next(&mut self) -> (step: ActionStep)
        ensures
            final(self).action == old(self).action,
            if old(self).pending@.len() > 0 {
                &&& step == ActionStep::Report(old(self).pending@[0].0, old(self).pending@[0].1)
                &&& final(self).pending@ == old(self).pending@.skip(1)
                &&& final(self).batches == old(self).batches
                &&& final(self).sent_to == old(self).sent_to
            } else if old(self).batches@.len() > 0 {
                let batch = old(self).batches@[0];
                &&& step matches ActionStep::Send { path, by_put, body }
                &&& path@ == old(self).action.route(batch.volume_id@)
                &&& by_put == (old(self).action == NodeAction::Restore)
                &&& body.link_ids == batch.link_ids
                &&& final(self).batches@ == old(self).batches@.skip(1)
                &&& final(self).sent_to == Some(batch.volume_id)
                &&& final(self).pending == old(self).pending
            } else {
                step == ActionStep::End && *final(self) == *old(self)
            },
    {
        if self.pending.len() > 0 {
            let ghost before = self.pending@;
            let (uid, outcome): (NodeUid, Result<(), ProtonError>) = self.pending.remove(0);
            assert(self.pending@ =~= before.skip(1));
            return ActionStep::Report(uid, outcome);
        }
        if self.batches.len() > 0 {
            let ghost before = self.batches@;
            let batch: LinkBatch = self.batches.remove(0);
            assert(self.batches@ =~= before.skip(1));
            let path: String = self.action.path(&batch.volume_id);
            self.sent_to = Some(batch.volume_id);
            let by_put: bool = match self.action {
                NodeAction::Restore => true,
                NodeAction::Trash | NodeAction::Delete => false,
            };
            return ActionStep::Send {
                path,
                by_put,
                body: MultipleLinksRequest { link_ids: batch.link_ids },
            };
        }
        ActionStep::End
    }

    /// Takes in the answer to the batch that was sent. A request that failed as a
    /// whole says nothing about its nodes: the failure is reported and nothing
    /// after it is sent.
    pub fn answered(&mut self, response: Result<AggregateLinksResponse, ProtonError>) -> (failure:
        Option<ActionStep>)
        requires
            old(self).sent_to is Some,
            old(self).pending@.len() == 0,
        ensures
            final(self).action == old(self).action,
            match response {
                Ok(answer) => failure is None && final(self).batches == old(self).batches
                    && are_node_outcomes(final(self).pending@, old(self).sent_to->0, answer),
                Err(e) => failure == Some(ActionStep::Fail(e)) && final(self).batches@.len() == 0
                    && final(self).pending@.len() == 0,
            },
    {
        match response {
            Ok(answer) => {
                match &self.sent_to {
                    Some(volume_id) => {
                        self.pending = node_outcomes(volume_id, answer);
                    },
                    None => {},
                }
                None
            },
            Err(e) => {
                self.batches = Vec::new();
                self.pending = Vec::new();
                Some(ActionStep::Fail(e))
            },
        }
    }
}

// ---------------------------------------------------------------------------
// Building many nodes
// ---------------------------------------------------------------------------

/// The parent of a link, as text.
pub open spec fn parent_text(link: LinkDto) -> Option<Seq<char>> {
    match link.parent_id {
        Some(id) => Some(id@),
        None => None,
    }
}

/// The parent that an entry is for.
pub open spec fn entry_parent(parent: Option<LinkId>) -> Option<Seq<char>> {
    match parent {
        Some(id) => Some(id@),
        None => None,
    }
}

/// The unlocked keys of parents, so that siblings share one unlock.
#[derive(Debug, PartialEq, Eq)]
pub struct ParentKeys {
    pub entries: Vec<(Option<LinkId>, String)>,
}

impl ParentKeys {
    /// Whether the key of the parent is known.
    pub open spec fn knows(self, parent: Option<Seq<char>>) -> bool {
        exists|i: int|
            0 <= i < self.entries@.len() && entry_parent((#[trigger] self.entries@[i]).0) == parent
    }

    /// Where the key of the parent stands.
    pub open spec fn slot(self, parent: Option<Seq<char>>) -> int {
        choose|i: int|
            0 <= i < self.entries@.len() && entry_parent((#[trigger] self.entries@[i]).0) == parent
    }

    /// The key of the parent.
    pub open spec fn key(self, parent: Option<Seq<char>>) -> String {
        self.entries@[self.slot(parent)].1
    }

    /// Each parent has one key at most.
    pub open spec fn well_formed(self) -> bool {
        forall|i: int, j: int|
            0 <= i < j < self.entries@.len() ==> entry_parent((#[trigger] self.entries@[i]).0)
                != entry_parent((#[trigger] self.entries@[j]).0)
    }

    pub fn new() -> (keys: ParentKeys)
        ensures
            keys.well_formed(),
            keys.entries@.len() == 0,
    {
        ParentKeys { entries: Vec::new() }
    }

    fn position(&self, parent: &Option<LinkId>) -> (r: Option<usize>)
        ensures
            match r {
                Some(i) => i < self.entries@.len() && entry_parent(self.entries@[i as int].0)
                    == entry_parent(*parent),
                None => !self.knows(entry_parent(*parent)),
            },
    {
        let mut i: usize = 0;
        while i < self.entries.len()
            invariant
                i <= self.entries@.len(),
                forall|j: int|
                    0 <= j < i ==> entry_parent((#[trigger] self.entries@[j]).0) != entry_parent(
                        *parent,
                    ),
            decreases self.entries@.len() - i,
        {
            let same: bool = match (&self.entries[i].0, parent) {
                (Some(a), Some(b)) => a.same_as(b),
                (None, None) => true,
                _ => false,
            };
            if same {
                return Some(i);
            }
            i += 1;
        }
        None
    }

    /// Whether the key of the parent of a link is still to be resolved.
    pub fn is_missing(&self, link: &LinkDto) -> (r: bool)
        ensures
            r == !self.knows(parent_text(*link)),
            r <==> forall|i: int|
                0 <= i < self.entries@.len() ==> ((#[trigger] self.entries@[i]).0 is Some
                    != link.parent_id is Some || (link.parent_id is Some && self.entries@[i].0->0@
                    != link.parent_id->0@)),
    {
        match self.position(&link.parent_id) {
            Some(i) => {
                assert(entry_parent(self.entries@[i as int].0) == parent_text(*link));
                false
            },
            None => true,
        }
    }

    /// Takes in what came of resolving the key of the parent of a link. A failure
    /// leaves the key missing, so that the next sibling tries again.
    pub fn resolved(&mut self, link: &LinkDto, key: Result<String, ProtonError>)
        requires
            old(self).well_formed(),
            !old(self).knows(parent_text(*link)),
        ensures
            final(self).well_formed(),
            match key {
                Ok(key) => final(self).entries@ == old(self).entries@.push((link.parent_id, key)),
                Err(_) => *final(self) == *old(self),
            },
    {
        match key {
            Ok(key) => {
                let ghost before = *self;
                self.entries.push((link.parent_id.clone(), key));
                proof {
                    assert forall|i: int, j: int|
                        0 <= i < j < self.entries@.len() implies entry_parent(
                        (#[trigger] self.entries@[i]).0,
                    ) != entry_parent((#[trigger] self.entries@[j]).0) by {
                        assert(self.entries@[i] == before.entries@[i]);
                        if j < before.entries@.len() {
                            assert(self.entries@[j] == before.entries@[j]);
                        }
                    }
                }
            },
            Err(_) => {},
        }
    }

    /// The links whose parent has a key, each with that key, in order. The others
    /// are passed over.
    pub fn buildable(&self, links: Vec<LinkDetailsDto>) -> (r: Vec<(LinkDetailsDto, String)>)
        requires
            self.well_formed(),
        ensures
            r@ == with_keys(*self, links@),
    {
        let mut rest: Vec<LinkDetailsDto> = links;
        let mut out: Vec<(LinkDetailsDto, String)> = Vec::new();
        let ghost all = rest@;
        let ghost mut taken: int = 0;
        assert(all.take(0) =~= Seq::<LinkDetailsDto>::empty());
        while rest.len() > 0
            invariant
                0 <= taken <= all.len(),
                rest@ == all.skip(taken),
                self.well_formed(),
                out@ == with_keys(*self, all.take(taken)),
            decreases rest@.len(),
        {
            let details: LinkDetailsDto = rest.remove(0);
            proof {
                assert(details == all[taken]);
                assert(all.take(taken + 1).drop_last() =~= all.take(taken));
            }
            match self.position(&details.link.parent_id) {
                Some(i) => {
                    proof {
                        let parent = parent_text(details.link);
                        let k = self.slot(parent);
                        assert(entry_parent(self.entries@[i as int].0) == parent);
                        if i < k {
                            assert(entry_parent(self.entries@[i as int].0) != entry_parent(
                                self.entries@[k].0,
                            ));
                        } else if k < i {
                            assert(entry_parent(self.entries@[k].0) != entry_parent(
                                self.entries@[i as int].0,
                            ));
                        }
                    }
                    out.push((details, self.entries[i].1.clone()));
                },
                None => {},
            }
            proof {
                taken = taken + 1;
                assert(rest@ =~= all.skip(taken));
            }
        }
        assert(all.take(taken) =~= all);
        out
    }
}

/// The links whose parent has a key, each with that key.
pub open spec fn with_keys(keys: ParentKeys, links: Seq<LinkDetailsDto>) -> Seq<
    (LinkDetailsDto, String),
>
    decreases links.len(),
{
    if links.len() == 0 {
        Seq::empty()
    } else {
        let before = with_keys(keys, links.drop_last());
        let parent = parent_text(links.last().link);
        if keys.knows(parent) {
            before.push((links.last(), keys.key(parent)))
        } else {
            before
        }
    }
}

/// What came of the attempts that succeeded.
pub open spec fn successes<T>(results: Seq<Result<T, ProtonError>>) -> Seq<T>
    decreases results.len(),
{
    if results.len() == 0 {
        Seq::empty()
    } else {
        let before = successes(results.drop_last());
        match results.last() {
            Ok(item) => before.push(item),
            Err(_) => before,
        }
    }
}

/// Appends what could be built, in order. What could not be is passed over.
pub fn collect_built<T>(items: &mut Vec<T>, results: Vec<Result<T, ProtonError>>)
    ensures
        final(items)@ == old(items)@ + successes(results@),
{
    let mut rest: Vec<Result<T, ProtonError>> = results;
    let ghost all = rest@;
    let ghost mut taken: int = 0;
    assert(all.take(0) =~= Seq::<Result<T, ProtonError>>::empty());
    assert(items@ =~= old(items)@ + successes(all.take(0)));
    while rest.len() > 0
        invariant
            0 <= taken <= all.len(),
            rest@ == all.skip(taken),
            items@ == old(items)@ + successes(all.take(taken)),
        decreases rest@.len(),
    {
        let result: Result<T, ProtonError> = rest.remove(0);
        proof {
            assert(result == all[taken]);
            assert(all.take(taken + 1).drop_last() =~= all.take(taken));
        }
        match result {
            Ok(item) => items.push(item),
            Err(_) => {},
        }
        proof {
            taken = taken + 1;
            assert(rest@ =~= all.skip(taken));
            assert(items@ =~= old(items)@ + successes(all.take(taken)));
        }
    }
    assert(all.take(taken) =~= all);
}

/// What is collected is what succeeded, in order.
pub proof fn law_what_failed_is_passed_over<T>(results: Seq<Result<T, ProtonError>>)
    ensures
        successes(results) == results.filter(|r: Result<T, ProtonError>| r is Ok).map_values(
            |r: Result<T, ProtonError>| r->Ok_0,
        ),
    decreases results.len(),
{
    reveal(Seq::filter);
    let good = |r: Result<T, ProtonError>| r is Ok;
    let item = |r: Result<T, ProtonError>| r->Ok_0;
    if results.len() > 0 {
        let fewer = results.drop_last();
        law_what_failed_is_passed_over(fewer);
        assert(results.filter(good).map_values(item) =~= if good(results.last()) {
            fewer.filter(good).map_values(item).push(item(results.last()))
        } else {
            fewer.filter(good).map_values(item)
        });
    } else {
        assert(results.filter(good).map_values(item) =~= Seq::<T>::empty());
    }
}

/// A link is built with the key of its own parent, and passed over where there is none.
pub proof fn law_links_are_built_with_the_key_of_their_parent(
    keys: ParentKeys,
    links: Seq<LinkDetailsDto>,
    i: int,
    k: int,
)
    requires
        keys.well_formed(),
    ensures
        with_keys(keys, links).len() <= links.len(),
        0 <= i < with_keys(keys, links).len() ==> {
            let (built, key) = with_keys(keys, links)[i];
            &&& links.contains(built)
            &&& exists|j: int|
                #![trigger keys.entries@[j]]
                {
                    &&& 0 <= j < keys.entries@.len()
                    &&& keys.entries@[j].1 == key
                    &&& keys.entries@[j].0 is Some == built.link.parent_id is Some
                    &&& keys.entries@[j].0 is Some ==> keys.entries@[j].0->0@
                        == built.link.parent_id->0@
                }
        },
        0 <= k < links.len() && (exists|j: int|
            #![trigger keys.entries@[j]]
            {
                &&& 0 <= j < keys.entries@.len()
                &&& keys.entries@[j].0 is Some == links[k].link.parent_id is Some
                &&& keys.entries@[j].0 is Some ==> keys.entries@[j].0->0@
                    == links[k].link.parent_id->0@
            }) ==> exists|j: int|
            0 <= j < with_keys(keys, links).len() && (#[trigger] with_keys(keys, links)[j]).0
                == links[k],
    decreases links.len(),
{
    if links.len() > 0 {
        let fewer = links.drop_last();
        let before = with_keys(keys, fewer);
        let all = with_keys(keys, links);
        let last = links.last();
        let parent = parent_text(last.link);
        law_links_are_built_with_the_key_of_their_parent(keys, fewer, i, k);
        assert(links[links.len() - 1] == last);
        if 0 <= i < before.len() {
            assert(all[i] == before[i]);
            let at = fewer.index_of(before[i].0);
            assert(links[at] == before[i].0);
        } else if 0 <= i < all.len() {
            let slot = keys.slot(parent);
            assert(entry_parent(keys.entries@[slot].0) == parent);
            assert(keys.entries@[slot].1 == all[i].1);
        }
        if 0 <= k < links.len() && exists|j: int|
            #![trigger keys.entries@[j]]
            {
                &&& 0 <= j < keys.entries@.len()
                &&& keys.entries@[j].0 is Some == links[k].link.parent_id is Some
                &&& keys.entries@[j].0 is Some ==> keys.entries@[j].0->0@
                    == links[k].link.parent_id->0@
            } {
            if k < fewer.len() {
                assert(fewer[k] == links[k]);
                let j = choose|j: int|
                    0 <= j < before.len() && (#[trigger] before[j]).0 == fewer[k];
                assert(all[j] == before[j]);
            } else {
                let j = choose|j: int|
                    #![trigger keys.entries@[j]]
                    {
                        &&& 0 <= j < keys.entries@.len()
                        &&& keys.entries@[j].0 is Some == links[k].link.parent_id is Some
                        &&& keys.entries@[j].0 is Some ==> keys.entries@[j].0->0@
                            == links[k].link.parent_id->0@
                    };
                assert(entry_parent(keys.entries@[j].0) == parent);
                assert(keys.knows(parent));
                assert(all[before.len() as int].0 == links[k]);
            }
        }
    }
}

/// A light listing gives the nodes of a full one, in the same order: each of them is
/// the full node but for what the key of a file unlocks.
pub proof fn law_light_listing_gives_the_same_nodes(
    volume_id: VolumeId,
    details: Seq<LinkDetailsDto>,
    light: Seq<DecryptedLink>,
    full: Seq<DecryptedLink>,
    light_results: Seq<Result<Node, ProtonError>>,
    full_results: Seq<Result<Node, ProtonError>>,
)
    requires
        light.len() == details.len(),
        full.len() == details.len(),
        light_results.len() == details.len(),
        full_results.len() == details.len(),
        forall|i: int|
            #![trigger details[i]]
            0 <= i < details.len() ==> {
                &&& are_light_and_full(details[i].link, light[i], full[i])
                &&& is_built(light_results[i], volume_id, details[i], light[i])
                &&& is_built(full_results[i], volume_id, details[i], full[i])
            },
    ensures
        successes(light_results).len() == successes(full_results).len(),
        forall|k: int|
            0 <= k < successes(full_results).len() ==> is_light_node_of(
                successes(light_results)[k],
                #[trigger] successes(full_results)[k],
            ),
    decreases details.len(),
{
    if details.len() > 0 {
        let fewer = details.drop_last();
        assert forall|i: int|
            #![trigger fewer[i]]
            0 <= i < fewer.len() implies are_light_and_full(
            fewer[i].link,
            light.drop_last()[i],
            full.drop_last()[i],
        ) && is_built(light_results.drop_last()[i], volume_id, fewer[i], light.drop_last()[i])
            && is_built(full_results.drop_last()[i], volume_id, fewer[i], full.drop_last()[i]) by {
            assert(fewer[i] == details[i]);
        }
        law_light_listing_gives_the_same_nodes(
            volume_id,
            fewer,
            light.drop_last(),
            full.drop_last(),
            light_results.drop_last(),
            full_results.drop_last(),
        );
        let last = details.len() - 1;
        assert(details[last] == details.last());
        law_light_nodes_lack_only_what_a_file_key_unlocks(
            volume_id,
            details.last(),
            light.last(),
            full.last(),
            light_results.last(),
            full_results.last(),
        );
    }
}

} // verus!
