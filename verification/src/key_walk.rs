//! Finding the key that a link is locked with. The key of a link is locked with
//! that of its parent, so the walk climbs to the nearest ancestor whose key is
//! known, or to the root, whose key is locked with that of a share; from there it
//! unlocks its way down.

use vstd::prelude::*;
use vstd::string::StringExecFns;

use crate::batching::MAX_BATCH_COUNT;
use crate::cache::{has_key, kept_under, touched, with_entry};
use crate::drive_cache::DriveCache;
use crate::dtos::LinkDto;
use crate::error::{invalid, ProtonError};
use crate::ids::{uid_text, LinkId, NodeUid, VolumeId};
use crate::text::owned;

verus! {

impl Clone for LinkDto {
    fn clone(&self) -> (r: LinkDto)
        ensures
            r == *self,
    {
        LinkDto {
            id: self.id.clone(),
            link_type: self.link_type,
            parent_id: self.parent_id.clone(),
            state: self.state,
            creation_time: self.creation_time,
            modification_time: self.modification_time,
            trash_time: self.trash_time,
            name: self.name.clone(),
            name_hash: self.name_hash.clone(),
            key: self.key.clone(),
            passphrase: self.passphrase.clone(),
            passphrase_signature: self.passphrase_signature.clone(),
            signature_email: self.signature_email.clone(),
            name_signature_email: self.name_signature_email.clone(),
        }
    }
}

/// Where the key at the top of a walk comes from.
#[derive(Debug, PartialEq, Eq)]
pub enum WalkBase {
    /// It was known.
    Known(String),
    /// It is that of the Photos share.
    Photos,
    /// It is that of the share whose root is this link.
    Root(LinkId),
}

/// What a walk does next.
#[derive(Debug, PartialEq, Eq)]
pub enum KeyStep {
    /// Fetch this ancestor, and as many above it as can be named.
    Climb(LinkId),
    /// The top is reached; unlock from here.
    Top(WalkBase),
}

/// A walk from a link to the key that it is locked with: the ancestors found so
/// far, the nearest first, and the next one.
#[derive(Debug, PartialEq, Eq)]
pub struct KeyWalk {
    pub volume_id: VolumeId,
    pub link_id: LinkId,
    pub for_photos: bool,
    pub ancestry: Vec<LinkDto>,
    pub current: Option<LinkId>,
}

/// What is said of an ancestor that is not there.
pub open spec fn missing_ancestor(uid: (Seq<char>, Seq<char>)) -> Seq<char> {
    "ancestor "@ + uid_text(uid) + " not found"@
}

/// Whether link `i` is the last one with the id.
pub open spec fn last_with_id(links: Seq<LinkDto>, id: Seq<char>, i: int) -> bool {
    &&& 0 <= i < links.len()
    &&& links[i].id@ == id
    &&& forall|j: int| i < j < links.len() ==> (#[trigger] links[j]).id@ != id
}

/// Whether some link has the id.
pub open spec fn has_id(links: Seq<LinkDto>, id: Seq<char>) -> bool {
    exists|i: int| 0 <= i < links.len() && (#[trigger] links[i]).id@ == id
}

/// The link with the id. Of several, the last one.
pub open spec fn link_with_id(links: Seq<LinkDto>, id: Seq<char>) -> LinkDto {
    links[choose|i: int| last_with_id(links, id, i)]
}

/// The link with the id. Of several, the last one.
pub fn find_link(links: &Vec<LinkDto>, id: &LinkId) -> (r: Option<LinkDto>)
    ensures
        match r {
            Some(link) => has_id(links@, id@) && link == link_with_id(links@, id@),
            None => !has_id(links@, id@),
        },
        r is Some <==> exists|i: int| 0 <= i < links@.len() && (#[trigger] links@[i]).id@ == id@,
        r is Some ==> exists|i: int|
            #![trigger links@[i]]
            0 <= i < links@.len() && r->0 == links@[i] && links@[i].id@ == id@ && (forall|j: int|
                i < j < links@.len() ==> (#[trigger] links@[j]).id@ != id@),
{
    let mut i: usize = links.len();
    while i > 0
        invariant
            i <= links@.len(),
            forall|j: int| i <= j < links@.len() ==> (#[trigger] links@[j]).id@ != id@,
        decreases i,
    {
        i -= 1;
        if links[i].id.same_as(id) {
            proof {
                assert(last_with_id(links@, id@, i as int));
                let k = choose|k: int| last_with_id(links@, id@, k);
                if k < i {
                    assert(links@[i as int].id@ != id@);
                } else if i < k {
                    assert(links@[k].id@ != id@);
                }
            }
            return Some(links[i].clone());
        }
    }
    None
}

/// A link is found by its id where one has it. Of several, the last one counts.
pub proof fn law_links_are_found_by_their_id(links: Seq<LinkDto>, id: Seq<char>, i: int)
    ensures
        has_id(links, id) <==> exists|j: int| 0 <= j < links.len() && (#[trigger] links[j]).id@ == id,
        has_id(links, id) ==> link_with_id(links, id).id@ == id && links.contains(
            link_with_id(links, id),
        ),
        0 <= i < links.len() && links[i].id@ == id && (forall|j: int|
            i < j < links.len() ==> (#[trigger] links[j]).id@ != id) ==> link_with_id(links, id)
            == links[i],
{
    if has_id(links, id) {
        lemma_link_with_id(links, id);
        let k = choose|k: int| last_with_id(links, id, k);
        let at = choose|k: int| 0 <= k < links.len() && (#[trigger] links[k]).id@ == id;
        lemma_some_last(links, id, at);
        assert(links[k] == link_with_id(links, id));
    }
    if 0 <= i < links.len() && links[i].id@ == id && (forall|j: int|
        i < j < links.len() ==> (#[trigger] links[j]).id@ != id) {
        assert(last_with_id(links, id, i));
        let k = choose|k: int| last_with_id(links, id, k);
        assert(links[k].id@ == id && links[i].id@ == id);
        assert(k == i);
    }
}

/// The links of a run, found among the fetched ones, for the first `n` of the run.
pub open spec fn run_links(links: Seq<LinkDto>, run: Seq<LinkId>, n: int) -> Seq<LinkDto>
    decreases n,
{
    if n <= 0 {
        Seq::empty()
    } else {
        run_links(links, run, n - 1).push(link_with_id(links, run[n - 1]@))
    }
}

/// Whether link `i` of the run can be taken from the fetched ones: it is there, and
/// did not occur in the run before.
pub open spec fn is_available(links: Seq<LinkDto>, run: Seq<LinkId>, i: int) -> bool {
    has_id(links, run[i]@) && forall|j: int| 0 <= j < i ==> (#[trigger] run[j])@ != run[i]@
}

/// Whether the link occurs among the first `n` of the run.
fn occurs_before(run: &Vec<LinkId>, n: usize, id: &LinkId) -> (r: bool)
    requires
        n <= run@.len(),
    ensures
        r == exists|j: int| 0 <= j < n && (#[trigger] run@[j])@ == id@,
{
    let mut j: usize = 0;
    while j < n
        invariant
            j <= n <= run@.len(),
            forall|k: int| 0 <= k < j ==> (#[trigger] run@[k])@ != id@,
        decreases n - j,
    {
        if run[j].same_as(id) {
            return true;
        }
        j += 1;
    }
    false
}

impl KeyWalk {
    /// A walk from a link.
    pub fn start(volume_id: &VolumeId, link: &LinkDto, for_photos: bool) -> (walk: KeyWalk)
        ensures
            walk.volume_id == *volume_id,
            walk.link_id == link.id,
            walk.for_photos == for_photos,
            walk.ancestry@.len() == 0,
            walk.current == link.parent_id,
    {
        KeyWalk {
            volume_id: volume_id.clone(),
            link_id: link.id.clone(),
            for_photos,
            ancestry: Vec::new(),
            current: link.parent_id.clone(),
        }
    }

    /// What to do next. The walk ends at an ancestor whose key is known, and at the
    /// root: that is the last ancestor found, or the link itself when it has no
    /// parent.
    pub fn next(&self, cache: &mut DriveCache) -> (step: KeyStep)
        requires
            old(cache).well_formed(),
        ensures
            final(cache).well_formed(),
            final(cache).same_shares(*old(cache)),
            final(cache).context_share_ids == old(cache).context_share_ids,
            match self.current {
                Some(parent) => {
                    let uid = (self.volume_id@, parent@);
                    &&& final(cache).folder_keys.entries() == touched(
                        old(cache).folder_keys.entries(),
                        uid,
                    )
                    &&& if has_key(old(cache).folder_keys.entries(), uid) {
                        step matches KeyStep::Top(WalkBase::Known(key)) && kept_under(
                            old(cache).folder_keys.entries(),
                            uid,
                        ) == Some(key@)
                    } else {
                        step == KeyStep::Climb(parent)
                    }
                },
                None => {
                    &&& final(cache).folder_keys == old(cache).folder_keys
                    &&& if self.for_photos {
                        step == KeyStep::Top(WalkBase::Photos)
                    } else if self.ancestry@.len() > 0 {
                        step == KeyStep::Top(WalkBase::Root(self.ancestry@.last().id))
                    } else {
                        step == KeyStep::Top(WalkBase::Root(self.link_id))
                    }
                },
            },
    {
        match &self.current {
            Some(parent) => {
                let uid: NodeUid = NodeUid::new(self.volume_id.clone(), parent.clone());
                match cache.folder_keys.get(&uid) {
                    Some(key) => KeyStep::Top(WalkBase::Known(key)),
                    None => KeyStep::Climb(parent.clone()),
                }
            },
            None => {
                if self.for_photos {
                    KeyStep::Top(WalkBase::Photos)
                } else if self.ancestry.len() > 0 {
                    KeyStep::Top(
                        WalkBase::Root(self.ancestry[self.ancestry.len() - 1].id.clone()),
                    )
                } else {
                    KeyStep::Top(WalkBase::Root(self.link_id.clone()))
                }
            },
        }
    }

    /// Takes in a run of ancestors, in the order of the run. One that was not
    /// fetched is an error.
    pub fn climbed(&mut self, run: &Vec<LinkId>, links: &Vec<LinkDto>) -> (r: Result<
        (),
        ProtonError,
    >)
        requires
            run@.len() > 0,
        ensures
            final(self).volume_id == old(self).volume_id,
            final(self).link_id == old(self).link_id,
            final(self).for_photos == old(self).for_photos,
            match r {
                Ok(()) => {
                    &&& forall|i: int|
                        #![trigger run@[i]]
                        0 <= i < run@.len() ==> is_available(links@, run@, i)
                    &&& final(self).ancestry@ == old(self).ancestry@ + run_links(
                        links@,
                        run@,
                        run@.len() as int,
                    )
                    &&& final(self).current == link_with_id(links@, run@.last()@).parent_id
                },
                Err(e) => exists|i: int|
                    #![trigger run@[i]]
                    0 <= i < run@.len() && !is_available(links@, run@, i) && invalid(
                        e,
                        missing_ancestor((old(self).volume_id@, run@[i]@)),
                    ) && forall|j: int|
                        #![trigger run@[j]]
                        0 <= j < i ==> is_available(links@, run@, j),
            },
    {
        let ghost start = self.ancestry@;
        let mut i: usize = 0;
        assert(self.ancestry@ =~= start + run_links(links@, run@, 0));
        while i < run.len()
            invariant
                i <= run@.len(),
                run@.len() > 0,
                self.volume_id == old(self).volume_id,
                self.link_id == old(self).link_id,
                self.for_photos == old(self).for_photos,
                self.ancestry@ == start + run_links(links@, run@, i as int),
                i > 0 ==> self.current == link_with_id(links@, run@[i - 1]@).parent_id,
                forall|j: int|
                    #![trigger run@[j]]
                    0 <= j < i ==> is_available(links@, run@, j),
            decreases run@.len() - i,
        {
            let found: Option<LinkDto> = if occurs_before(run, i, &run[i]) {
                None
            } else {
                find_link(links, &run[i])
            };
            match found {
                Some(ancestor) => {
                    self.current = ancestor.parent_id.clone();
                    self.ancestry.push(ancestor);
                },
                None => {
                    let uid: NodeUid = NodeUid::new(self.volume_id.clone(), run[i].clone());
                    let mut message: String = owned("ancestor ");
                    message.append(uid.to_text().as_str());
                    message.append(" not found");
                    let refusal = ProtonError::invalid_operation(message.as_str());
                    assert(invalid(
                        refusal,
                        missing_ancestor((old(self).volume_id@, run@[i as int]@)),
                    ));
                    return Err(refusal);
                },
            }
            i += 1;
            assert(self.ancestry@ =~= start + run_links(links@, run@, i as int));
        }
        Ok(())
    }

    /// The ancestor to unlock next, on the way down: the topmost of those that are
    /// left.
    pub fn to_unlock(&self) -> (r: Option<&LinkDto>)
        ensures
            match r {
                Some(link) => self.ancestry@.len() > 0 && *link == self.ancestry@.last(),
                None => self.ancestry@.len() == 0,
            },
    {
        if self.ancestry.len() > 0 {
            Some(&self.ancestry[self.ancestry.len() - 1])
        } else {
            None
        }
    }

    /// Takes in the unlocked key of that ancestor, and keeps it.
    pub fn unlocked(&mut self, node_key: &String, cache: &mut DriveCache)
        requires
            old(self).ancestry@.len() > 0,
            old(cache).well_formed(),
        ensures
            final(self).ancestry@ == old(self).ancestry@.drop_last(),
            final(self).volume_id == old(self).volume_id,
            final(self).link_id == old(self).link_id,
            final(self).for_photos == old(self).for_photos,
            final(self).current == old(self).current,
            final(cache).well_formed(),
            final(cache).same_shares(*old(cache)),
            final(cache).context_share_ids == old(cache).context_share_ids,
            final(cache).folder_keys.entries() == with_entry(
                old(cache).folder_keys.entries(),
                old(cache).folder_keys.bound(),
                (old(self).volume_id@, old(self).ancestry@.last().id@),
                node_key@,
            ),
    {
        match self.ancestry.pop() {
            Some(ancestor) => {
                let uid: NodeUid = NodeUid::new(self.volume_id.clone(), ancestor.id);
                cache.folder_keys.put(&uid, node_key.clone());
            },
            None => {},
        }
    }
}

/// Whether the links lead up from a node with the parent `first`: the first link is
/// that parent, each further one the parent of the one before, and `above` is the
/// parent of the last.
pub open spec fn is_lineage(
    ancestry: Seq<LinkDto>,
    first: Option<Seq<char>>,
    above: Option<Seq<char>>,
) -> bool {
    &&& ancestry.len() == 0 ==> first == above
    &&& ancestry.len() > 0 ==> first == Some(ancestry[0].id@) && parent_view(ancestry.last())
        == above
    &&& forall|i: int|
        #![trigger ancestry[i]]
        0 <= i < ancestry.len() - 1 ==> parent_view(ancestry[i]) == Some(ancestry[i + 1].id@)
}

/// The id of a link's parent.
pub open spec fn parent_view(link: LinkDto) -> Option<Seq<char>> {
    match link.parent_id {
        Some(parent) => Some(parent@),
        None => None,
    }
}

proof fn lemma_run_link(links: Seq<LinkDto>, run: Seq<LinkId>, n: int, i: int)
    requires
        0 <= i < n,
    ensures
        run_links(links, run, n).len() == n,
        run_links(links, run, n)[i] == link_with_id(links, run[i]@),
    decreases n,
{
    reveal_with_fuel(run_links, 2);
    if n > 1 {
        lemma_run_link(links, run, n - 1, 0);
    }
    if i < n - 1 {
        lemma_run_link(links, run, n - 1, i);
    }
}

proof fn lemma_link_with_id(links: Seq<LinkDto>, id: Seq<char>)
    requires
        has_id(links, id),
    ensures
        link_with_id(links, id).id@ == id,
{
    let at = choose|i: int| 0 <= i < links.len() && (#[trigger] links[i]).id@ == id;
    lemma_some_last(links, id, at);
}

proof fn lemma_some_last(links: Seq<LinkDto>, id: Seq<char>, at: int)
    requires
        0 <= at < links.len(),
        links[at].id@ == id,
    ensures
        exists|i: int| last_with_id(links, id, i),
    decreases links.len() - at,
{
    if forall|j: int| at < j < links.len() ==> (#[trigger] links[j]).id@ != id {
        assert(last_with_id(links, id, at));
    } else {
        let later = choose|j: int| at < j < links.len() && (#[trigger] links[j]).id@ == id;
        lemma_some_last(links, id, later);
    }
}

/// A walk climbs the tree: where a run starts at the next ancestor and names the
/// parent of each of its links in turn, what was found so far and the run together
/// lead up from the node again. So the walk unlocks each ancestor with the key of
/// its parent, and ends with the key of the parent of the node.
pub proof fn law_walk_climbs_the_tree(
    ancestry: Seq<LinkDto>,
    first: Option<Seq<char>>,
    run: Seq<LinkId>,
    links: Seq<LinkDto>,
)
    requires
        run.len() > 0,
        is_lineage(ancestry, first, Some(run[0]@)),
        forall|i: int|
            #![trigger run[i]]
            0 <= i < run.len() ==> is_available(links, run, i),
        forall|i: int|
            #![trigger run[i]]
            0 <= i < run.len() - 1 ==> parent_view(link_with_id(links, run[i]@)) == Some(
                run[i + 1]@,
            ),
    ensures
        is_lineage(
            ancestry + run_links(links, run, run.len() as int),
            first,
            parent_view(link_with_id(links, run.last()@)),
        ),
{
    let found = run_links(links, run, run.len() as int);
    let joined = ancestry + found;
    lemma_run_link(links, run, run.len() as int, run.len() - 1);
    assert forall|i: int| 0 <= i < run.len() implies (#[trigger] found[i]).id@ == run[i]@
        && found[i] == link_with_id(links, run[i]@) by {
        lemma_run_link(links, run, run.len() as int, i);
        assert(is_available(links, run, i));
        lemma_link_with_id(links, run[i]@);
    }
    assert(joined.last() == found.last());
    assert forall|i: int|
        #![trigger joined[i]]
        0 <= i < joined.len() - 1 implies parent_view(joined[i]) == Some(joined[i + 1].id@) by {
        if i < ancestry.len() - 1 {
            assert(joined[i] == ancestry[i] && joined[i + 1] == ancestry[i + 1]);
        } else if i == ancestry.len() - 1 {
            assert(joined[i] == ancestry.last());
            assert(joined[i + 1] == found[0]);
        } else {
            let k = i - ancestry.len();
            assert(joined[i] == found[k] && joined[i + 1] == found[k + 1]);
            assert(found[k] == link_with_id(links, run[k]@));
        }
    }
    if ancestry.len() > 0 {
        assert(joined[0] == ancestry[0]);
    } else {
        assert(joined[0] == found[0]);
    }
}

// ---------------------------------------------------------------------------
// Runs of ancestors
// ---------------------------------------------------------------------------

/// A run of ancestors that can be named without asking the server, from the first
/// one upwards. It never grows beyond what fits into one request.
#[derive(Debug, PartialEq, Eq)]
pub struct AncestorRun {
    pub volume_id: VolumeId,
    pub run: Vec<LinkId>,
    pub ended: bool,
}

impl AncestorRun {
    pub open spec fn well_formed(self) -> bool {
        0 < self.run@.len() <= MAX_BATCH_COUNT
    }

    pub fn start(volume_id: &VolumeId, first: &LinkId) -> (run: AncestorRun)
        ensures
            run.well_formed(),
            run.volume_id == *volume_id,
            run.run@ == seq![*first],
            !run.ended,
    {
        let mut links: Vec<LinkId> = Vec::new();
        links.push(first.clone());
        assert(links@ =~= seq![*first]);
        AncestorRun { volume_id: volume_id.clone(), run: links, ended: false }
    }

    /// The node to look up next: the topmost of the run, unless the run has ended
    /// or is full.
    pub fn next(&self) -> (r: Option<NodeUid>)
        requires
            self.well_formed(),
        ensures
            match r {
                Some(uid) => !self.ended && self.run@.len() < MAX_BATCH_COUNT && uid == (NodeUid {
                    volume_id: self.volume_id,
                    link_id: self.run@.last(),
                }),
                None => self.ended || self.run@.len() == MAX_BATCH_COUNT,
            },
    {
        if self.ended || self.run.len() >= MAX_BATCH_COUNT {
            None
        } else {
            Some(
                NodeUid::new(
                    self.volume_id.clone(),
                    self.run[self.run.len() - 1].clone(),
                ),
            )
        }
    }

    /// Takes in the parent of the node that was looked up: `None` where the node is
    /// not stored or has no parent. The run ends there, and below a parent whose
    /// key is known.
    pub fn looked(&mut self, parent: Option<NodeUid>, cache: &mut DriveCache)
        requires
            old(self).well_formed(),
            old(self).run@.len() < MAX_BATCH_COUNT,
            old(cache).well_formed(),
        ensures
            final(self).well_formed(),
            final(self).volume_id == old(self).volume_id,
            final(cache).well_formed(),
            final(cache).same_shares(*old(cache)),
            final(cache).context_share_ids == old(cache).context_share_ids,
            match parent {
                Some(uid) => {
                    &&& final(cache).folder_keys.entries() == touched(
                        old(cache).folder_keys.entries(),
                        uid@,
                    )
                    &&& if has_key(old(cache).folder_keys.entries(), uid@) {
                        final(self).ended && final(self).run == old(self).run
                    } else {
                        final(self).run@ == old(self).run@.push(uid.link_id) && final(self).ended
                            == old(self).ended
                    }
                },
                None => final(self).ended && final(self).run == old(self).run && *final(cache)
                    == *old(cache),
            },
    {
        match parent {
            Some(uid) => {
                match cache.folder_keys.get(&uid) {
                    Some(_) => {
                        self.ended = true;
                    },
                    None => {
                        self.run.push(uid.link_id);
                    },
                }
            },
            None => {
                self.ended = true;
            },
        }
    }
}

/// The route of the details of links on a volume: the photos volume has its own.
pub fn link_details_path(volume_id: &VolumeId, for_photos: bool) -> (path: String)
    ensures
        path@ == (if for_photos {
            "photos/volumes/"@
        } else {
            "v2/volumes/"@
        }) + volume_id@ + "/links"@,
{
    let mut path: String = if for_photos {
        owned("photos/volumes/")
    } else {
        owned("v2/volumes/")
    };
    path.append(volume_id.as_str());
    path.append("/links");
    path
}

/// What siblings that wait for the same key wait on: their parent, or a link
/// itself when it has none.
pub fn parent_key_target(volume_id: &VolumeId, link: &LinkDto) -> (r: NodeUid)
    ensures
        r == (NodeUid {
            volume_id: *volume_id,
            link_id: match link.parent_id {
                Some(parent) => parent,
                None => link.id,
            },
        }),
{
    let link_id: LinkId = match &link.parent_id {
        Some(parent) => parent.clone(),
        None => link.id.clone(),
    };
    NodeUid::new(volume_id.clone(), link_id)
}

/// The links of a run are those with the ids of the run, in its order.
pub proof fn law_a_run_is_found_link_by_link(links: Seq<LinkDto>, run: Seq<LinkId>, i: int)
    requires
        0 <= i < run.len(),
        forall|j: int|
            #![trigger run[j]]
            0 <= j < run.len() ==> is_available(links, run, j),
    ensures
        run_links(links, run, run.len() as int).len() == run.len(),
        run_links(links, run, run.len() as int)[i].id@ == run[i]@,
        links.contains(run_links(links, run, run.len() as int)[i]),
        forall|j: int, k: int| 0 <= j < k < run.len() ==> #[trigger] run[j]@ != #[trigger] run[k]@,
{
    lemma_run_link(links, run, run.len() as int, i);
    assert(is_available(links, run, i));
    law_links_are_found_by_their_id(links, run[i]@, 0);
    assert forall|j: int, k: int| 0 <= j < k < run.len() implies #[trigger] run[j]@
        != #[trigger] run[k]@ by {
        assert(is_available(links, run, k));
    }
}

/// A link of a run can be taken exactly where it was fetched and is not in the run
/// before.
pub proof fn law_when_a_link_of_a_run_can_be_taken(
    links: Seq<LinkDto>,
    run: Seq<LinkId>,
    i: int,
)
    ensures
        is_available(links, run, i) <==> (exists|j: int|
            0 <= j < links.len() && (#[trigger] links[j]).id@ == run[i]@) && (forall|j: int|
            0 <= j < i ==> (#[trigger] run[j])@ != run[i]@),
{
}

/// An ancestor that is not there is named.
pub proof fn law_a_missing_ancestor_is_named(volume: Seq<char>, link: Seq<char>, link_dto: LinkDto)
    ensures
        missing_ancestor((volume, link)) == "ancestor "@ + volume + seq!['~'] + link
            + " not found"@,
        parent_view(link_dto) is Some <==> link_dto.parent_id is Some,
        link_dto.parent_id is Some ==> parent_view(link_dto) == Some(link_dto.parent_id->0@),
{
    assert(missing_ancestor((volume, link)) =~= "ancestor "@ + volume + seq!['~'] + link
        + " not found"@);
}

} // verus!
