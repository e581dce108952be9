//! Moving and renaming: which nodes a move carries, what is sent for each, and
//! what is reported of each.

use vstd::prelude::*;
use vstd::string::{StrSliceExecFns, StringExecFns};

use crate::batching::{batch_of, chunked, is_batching, is_outcome, MAX_BATCH_COUNT};
use crate::digest::{hex_text, hmac_sha256_of, name_hash, name_hash_text};
use crate::dtos::{
    AggregateLinksResponse, LinkDetailsDto, LinkDto, LinkIdResponsePair, MoveLinkRequest,
    MoveMultipleLinksItem, MoveMultipleLinksRequest, RenameLinkRequest,
};
use crate::error::{
    invalid, missing_node, node_not_found, ProtonApiError, ProtonError, ResponseCode,
};
use crate::ids::{uid_text, LinkId, NodeUid, VolumeId};
use crate::key_walk::{find_link, has_id, link_with_id};
use crate::text::owned;

verus! {

/// What a move sends of a node: its passphrase locked with the key of the new
/// parent, its name encrypted to that key, and its name hashes there and here.
#[derive(Debug, PartialEq, Eq)]
pub struct MoveParts {
    pub passphrase: String,
    pub encrypted_name: String,
    pub name_hash: String,
    pub original_hash: String,
}

// ---------------------------------------------------------------------------
// What a move carries
// ---------------------------------------------------------------------------

/// Whether a link is among the links.
pub open spec fn lists_link(links: Seq<LinkId>, id: Seq<char>) -> bool {
    exists|i: int| 0 <= i < links.len() && (#[trigger] links[i])@ == id
}

/// The links that a move to a volume carries: those of the nodes that are on the
/// volume, each once, in the order in which they first occur.
pub open spec fn moved_links(uids: Seq<NodeUid>, volume: Seq<char>) -> Seq<LinkId>
    decreases uids.len(),
{
    if uids.len() == 0 {
        Seq::empty()
    } else {
        let before = moved_links(uids.drop_last(), volume);
        let last = uids.last();
        if last.volume_id@ == volume && !lists_link(before, last.link_id@) {
            before.push(last.link_id)
        } else {
            before
        }
    }
}

fn lists(links: &Vec<LinkId>, id: &LinkId) -> (r: bool)
    ensures
        r == lists_link(links@, id@),
{
    let mut i: usize = 0;
    while i < links.len()
        invariant
            i <= links@.len(),
            forall|j: int| 0 <= j < i ==> (#[trigger] links@[j])@ != id@,
        decreases links@.len() - i,
    {
        if links[i].same_as(id) {
            return true;
        }
        i += 1;
    }
    false
}

/// The links that a move carries.
pub fn move_targets(uids: &Vec<NodeUid>, new_parent: &NodeUid) -> (r: Vec<LinkId>)
    ensures
        r@ == moved_links(uids@, new_parent.volume_id@),
{
    let mut out: Vec<LinkId> = Vec::new();
    let mut i: usize = 0;
    assert(uids@.take(0) =~= Seq::<NodeUid>::empty());
    while i < uids.len()
        invariant
            i <= uids@.len(),
            out@ == moved_links(uids@.take(i as int), new_parent.volume_id@),
        decreases uids@.len() - i,
    {
        let uid: &NodeUid = &uids[i];
        assert(uids@.take(i + 1).drop_last() =~= uids@.take(i as int));
        if uid.volume_id.same_as(&new_parent.volume_id) && !lists(&out, &uid.link_id) {
            out.push(uid.link_id.clone());
        }
        i += 1;
    }
    assert(uids@.take(i as int) =~= uids@);
    out
}

/// The requests that a move takes: the links it carries, in batches of at most
/// [`MAX_BATCH_COUNT`].
pub fn move_batches(uids: &Vec<NodeUid>, new_parent: &NodeUid) -> (r: Vec<Vec<LinkId>>)
    ensures
        is_batching(r@, moved_links(uids@, new_parent.volume_id@), MAX_BATCH_COUNT as nat),
        ({
            let flat = Seq::new(r@.len(), |k: int| r@[k]@).flatten();
            flat == moved_links(uids@, new_parent.volume_id@)
        }),
        forall|k: int| 0 <= k < r@.len() ==> 0 < (#[trigger] r@[k])@.len() <= 150,
{
    let targets: Vec<LinkId> = move_targets(uids, new_parent);
    chunked(&targets, MAX_BATCH_COUNT)
}

/// A move carries each node of the volume exactly once, however often it is
/// listed, and carries nothing else.
pub proof fn law_each_node_is_carried_once(uids: Seq<NodeUid>, volume: Seq<char>)
    ensures
        forall|i: int, j: int|
            0 <= i < j < moved_links(uids, volume).len() ==> (#[trigger] moved_links(
                uids,
                volume,
            )[i])@ != (#[trigger] moved_links(uids, volume)[j])@,
        forall|k: int|
            0 <= k < uids.len() && (#[trigger] uids[k]).volume_id@ == volume ==> lists_link(
                moved_links(uids, volume),
                uids[k].link_id@,
            ),
        forall|i: int|
            0 <= i < moved_links(uids, volume).len() ==> crate::batching::is_node_among(
                uids,
                volume,
                #[trigger] moved_links(uids, volume)[i],
            ),
    decreases uids.len(),
{
    if uids.len() > 0 {
        let fewer = uids.drop_last();
        let before = moved_links(fewer, volume);
        let after = moved_links(uids, volume);
        law_each_node_is_carried_once(fewer, volume);
        assert forall|i: int, j: int| 0 <= i < j < after.len() implies (#[trigger] after[i])@ != (
        #[trigger] after[j])@ by {
            assert(after[i] == before[i]);
            if j < before.len() {
                assert(after[j] == before[j]);
            }
        }
        assert forall|k: int|
            0 <= k < uids.len() && (#[trigger] uids[k]).volume_id@ == volume implies lists_link(
            after,
            uids[k].link_id@,
        ) by {
            if k < fewer.len() {
                assert(fewer[k] == uids[k]);
                let i = choose|i: int| 0 <= i < before.len() && (#[trigger] before[i])@ == fewer[k].link_id@;
                assert(after[i] == before[i]);
            } else if lists_link(before, uids[k].link_id@) {
                let i = choose|i: int| 0 <= i < before.len() && (#[trigger] before[i])@ == uids[k].link_id@;
                assert(after[i] == before[i]);
            } else {
                assert(after[before.len() as int] == uids[k].link_id);
            }
        }
        assert forall|i: int| 0 <= i < after.len() implies crate::batching::is_node_among(
            uids,
            volume,
            #[trigger] after[i],
        ) by {
            if i < before.len() {
                assert(after[i] == before[i]);
                assert(crate::batching::is_node_among(fewer, volume, before[i]));
                let k = choose|k: int|
                    0 <= k < fewer.len() && (#[trigger] fewer[k]).volume_id@ == volume
                        && fewer[k].link_id == before[i];
                assert(uids[k] == fewer[k]);
            } else {
                assert(uids[uids.len() - 1].link_id == after[i]);
            }
        }
    }
}

/// The links of a move come in the order in which their nodes are first mentioned.
pub proof fn law_links_go_in_the_order_of_first_mention(
    uids: Seq<NodeUid>,
    volume: Seq<char>,
) -> (at: Seq<int>)
    ensures
        at.len() == moved_links(uids, volume).len(),
        forall|i: int, j: int| 0 <= i < j < at.len() ==> #[trigger] at[i] < #[trigger] at[j],
        forall|i: int|
            0 <= i < at.len() ==> {
                &&& 0 <= #[trigger] at[i] < uids.len()
                &&& uids[at[i]].volume_id@ == volume
                &&& moved_links(uids, volume)[i] == uids[at[i]].link_id
                &&& forall|j: int|
                    0 <= j < at[i] && (#[trigger] uids[j]).volume_id@ == volume
                        ==> uids[j].link_id@ != uids[at[i]].link_id@
            },
    decreases uids.len(),
{
    if uids.len() == 0 {
        Seq::empty()
    } else {
        let fewer = uids.drop_last();
        let before = law_links_go_in_the_order_of_first_mention(fewer, volume);
        let links = moved_links(fewer, volume);
        let last = uids.last();
        law_each_node_is_carried_once(fewer, volume);
        assert forall|i: int| 0 <= i < before.len() implies {
            &&& uids[#[trigger] before[i]] == fewer[before[i]]
            &&& forall|j: int|
                0 <= j < before[i] && (#[trigger] uids[j]).volume_id@ == volume
                    ==> uids[j].link_id@ != uids[before[i]].link_id@
        } by {
            assert forall|j: int|
                0 <= j < before[i] && (#[trigger] uids[j]).volume_id@
                    == volume implies uids[j].link_id@ != uids[before[i]].link_id@ by {
                assert(uids[j] == fewer[j]);
            }
        }
        if last.volume_id@ == volume && !lists_link(links, last.link_id@) {
            let at = before.push(uids.len() - 1);
            assert forall|j: int|
                0 <= j < uids.len() - 1 && (#[trigger] uids[j]).volume_id@
                    == volume implies uids[j].link_id@ != last.link_id@ by {
                assert(uids[j] == fewer[j]);
                assert(lists_link(links, fewer[j].link_id@));
            }
            at
        } else {
            before
        }
    }
}

/// What is known of the links of a batch: each with its details, where they were
/// fetched.
pub fn found_links(batch: &Vec<LinkId>, links: &Vec<LinkDto>) -> (r: Vec<Option<LinkDto>>)
    ensures
        r@.len() == batch@.len(),
        forall|i: int|
            0 <= i < batch@.len() ==> match #[trigger] r@[i] {
                Some(link) => has_id(links@, batch@[i]@) && link == link_with_id(
                    links@,
                    batch@[i]@,
                ),
                None => !has_id(links@, batch@[i]@),
            },
{
    let mut out: Vec<Option<LinkDto>> = Vec::new();
    let mut i: usize = 0;
    while i < batch.len()
        invariant
            i <= batch@.len(),
            out@.len() == i,
            forall|j: int|
                0 <= j < i ==> match #[trigger] out@[j] {
                    Some(link) => has_id(links@, batch@[j]@) && link == link_with_id(
                        links@,
                        batch@[j]@,
                    ),
                    None => !has_id(links@, batch@[j]@),
                },
        decreases batch@.len() - i,
    {
        out.push(find_link(links, &batch[i]));
        i += 1;
    }
    out
}

// ---------------------------------------------------------------------------
// What is sent
// ---------------------------------------------------------------------------

/// The name hash that a node is known under, where that takes no decryption: the
/// stored one, unless it is empty, and otherwise that of the link.
pub fn cached_original_name_hash(stored: Option<String>, link: &LinkDto) -> (r: Option<String>)
    ensures
        r == (match stored {
            Some(hash) => if hash@.len() > 0 {
                Some(hash)
            } else {
                link.name_hash
            },
            None => link.name_hash,
        }),
{
    match stored {
        Some(hash) => {
            if hash.as_str().unicode_len() > 0 {
                Some(hash)
            } else {
                link.name_hash.clone()
            }
        },
        None => link.name_hash.clone(),
    }
}

/// The folder that a node is moved out of. The root of a tree is in none.
pub fn move_source(uid: &NodeUid, link: &LinkDto) -> (r: Result<NodeUid, ProtonError>)
    ensures
        match link.parent_id {
            Some(parent) => r == Ok::<NodeUid, ProtonError>(
                NodeUid { volume_id: uid.volume_id, link_id: parent },
            ),
            None => r is Err && invalid(r->Err_0, "cannot move the root node"@),
        },
{
    match &link.parent_id {
        Some(parent) => Ok(NodeUid::new(uid.volume_id.clone(), parent.clone())),
        None => Err(ProtonError::invalid_operation("cannot move the root node")),
    }
}

/// What a move sends of a node. The new name hash is taken under the hash key of
/// the new parent.
pub fn build_move_parts(
    name: &[u8],
    dest_hash_key: &[u8],
    passphrase: String,
    encrypted_name: String,
    original_hash: String,
) -> (parts: MoveParts)
    ensures
        parts.passphrase == passphrase,
        parts.encrypted_name == encrypted_name,
        parts.original_hash == original_hash,
        parts.name_hash@ == name_hash_text(dest_hash_key@, name@),
        parts.name_hash@ == hex_text(hmac_sha256_of(dest_hash_key@, name@)),
{
    MoveParts {
        passphrase,
        encrypted_name,
        name_hash: name_hash(dest_hash_key, name),
        original_hash,
    }
}

/// What is said of a move to another volume.
pub open spec fn across_volumes() -> Seq<char> {
    "cross-volume move is not supported"@
}

/// A node moves within its volume only.
pub fn check_same_volume(uid: &NodeUid, new_parent: &NodeUid) -> (r: Result<(), ProtonError>)
    ensures
        match r {
            Ok(()) => uid.volume_id@ == new_parent.volume_id@,
            Err(e) => uid.volume_id@ != new_parent.volume_id@ && invalid(e, across_volumes()),
        },
        r is Ok <==> uid.volume_id@ == new_parent.volume_id@,
        r is Err ==> invalid(r->Err_0, "cross-volume move is not supported"@),
{
    if uid.volume_id.same_as(&new_parent.volume_id) {
        Ok(())
    } else {
        Err(ProtonError::invalid_operation("cross-volume move is not supported"))
    }
}

/// The request that moves one node.
pub open spec fn single_move(new_parent: NodeUid, parts: MoveParts, email: String) -> MoveLinkRequest {
    MoveLinkRequest {
        parent_link_id: new_parent.link_id,
        passphrase: parts.passphrase,
        passphrase_signature: None,
        name: parts.encrypted_name,
        name_signature_email: email,
        name_hash: parts.name_hash,
        original_hash: parts.original_hash,
    }
}

/// The request that moves one node. The signature of the passphrase stays valid
/// and is not sent again.
pub fn move_request(new_parent: &NodeUid, parts: MoveParts, email: String) -> (r: MoveLinkRequest)
    ensures
        r == (MoveLinkRequest {
            parent_link_id: new_parent.link_id,
            passphrase: parts.passphrase,
            passphrase_signature: None,
            name: parts.encrypted_name,
            name_signature_email: email,
            name_hash: parts.name_hash,
            original_hash: parts.original_hash,
        }),
        r == single_move(*new_parent, parts, email),
{
    MoveLinkRequest {
        parent_link_id: new_parent.link_id.clone(),
        passphrase: parts.passphrase,
        passphrase_signature: None,
        name: parts.encrypted_name,
        name_signature_email: email,
        name_hash: parts.name_hash,
        original_hash: parts.original_hash,
    }
}

/// The entry of a batch for one node.
pub open spec fn move_item(link_id: LinkId, parts: MoveParts) -> MoveMultipleLinksItem {
    MoveMultipleLinksItem {
        link_id,
        name: parts.encrypted_name,
        passphrase: parts.passphrase,
        name_hash: parts.name_hash,
        original_hash: parts.original_hash,
        passphrase_signature: None,
    }
}

/// What came of preparing a link of a batch: nothing where the link was not found.
pub type Prepared = Option<Result<MoveParts, ProtonError>>;

/// The entries of a batch: one for each link that could be prepared, in order.
pub open spec fn move_items(batch: Seq<LinkId>, prepared: Seq<Prepared>) -> Seq<
    MoveMultipleLinksItem,
>
    decreases prepared.len(),
{
    if prepared.len() == 0 {
        Seq::empty()
    } else {
        let before = move_items(batch, prepared.drop_last());
        match prepared.last() {
            Some(Ok(parts)) => before.push(move_item(batch[prepared.len() - 1], parts)),
            _ => before,
        }
    }
}

/// The request that moves the links of a batch that could be prepared, or nothing
/// when none could be.
pub fn move_multiple_request(
    new_parent: &NodeUid,
    batch: &Vec<LinkId>,
    prepared: &Vec<Prepared>,
    email: &String,
) -> (r: Option<MoveMultipleLinksRequest>)
    requires
        prepared@.len() == batch@.len(),
    ensures
        match r {
            Some(request) => {
                &&& request.links@ == move_items(batch@, prepared@)
                &&& request.links@.len() > 0
                &&& request.parent_link_id == new_parent.link_id
                &&& request.name_signature_email == *email
                &&& request.signature_email is None
            },
            None => move_items(batch@, prepared@).len() == 0,
        },
        r is Some <==> exists|i: int|
            0 <= i < prepared@.len() && #[trigger] prepared@[i] is Some && prepared@[i]->0 is Ok,
        r is Some ==> exists|at: Seq<int>|
            #![trigger at.len()]
            {
                &&& at.len() == r->0.links@.len()
                &&& forall|k: int, l: int| 0 <= k < l < at.len() ==> #[trigger] at[k] < #[trigger] at[l]
                &&& forall|i: int|
                    0 <= i < prepared@.len() && #[trigger] prepared@[i] is Some
                        && prepared@[i]->0 is Ok ==> at.contains(i)
                &&& forall|k: int|
                    0 <= k < at.len() ==> {
                        &&& 0 <= #[trigger] at[k] < prepared@.len()
                        &&& prepared@[at[k]] matches Some(Ok(parts))
                        &&& r->0.links@[k].link_id == batch@[at[k]]
                        &&& r->0.links@[k].name == parts.encrypted_name
                        &&& r->0.links@[k].passphrase == parts.passphrase
                        &&& r->0.links@[k].name_hash == parts.name_hash
                        &&& r->0.links@[k].original_hash == parts.original_hash
                        &&& r->0.links@[k].passphrase_signature is None
                    }
            },
{
    let mut items: Vec<MoveMultipleLinksItem> = Vec::new();
    let mut i: usize = 0;
    assert(prepared@.take(0) =~= Seq::<Prepared>::empty());
    while i < prepared.len()
        invariant
            i <= prepared@.len(),
            prepared@.len() == batch@.len(),
            items@ == move_items(batch@, prepared@.take(i as int)),
        decreases prepared@.len() - i,
    {
        assert(prepared@.take(i + 1).drop_last() =~= prepared@.take(i as int));
        match &prepared[i] {
            Some(Ok(parts)) => {
                items.push(
                    MoveMultipleLinksItem {
                        link_id: batch[i].clone(),
                        name: parts.encrypted_name.clone(),
                        passphrase: parts.passphrase.clone(),
                        name_hash: parts.name_hash.clone(),
                        original_hash: parts.original_hash.clone(),
                        passphrase_signature: None,
                    },
                );
            },
            _ => {},
        }
        i += 1;
    }
    assert(prepared@.take(i as int) =~= prepared@);
    let ghost at = law_a_batch_carries_each_prepared_node(batch@, prepared@);
    proof {
        if items@.len() > 0 {
            let first = at[0];
            assert(prepared@[first] is Some && prepared@[first]->0 is Ok);
        }
        assert forall|j: int|
            0 <= j < prepared@.len() && #[trigger] prepared@[j] is Some
                && prepared@[j]->0 is Ok implies items@.len() > 0 by {
            assert(at.contains(j));
        }
    }
    if items.len() == 0 {
        None
    } else {
        Some(
            MoveMultipleLinksRequest {
                parent_link_id: new_parent.link_id.clone(),
                links: items,
                name_signature_email: email.clone(),
                signature_email: None,
            },
        )
    }
}

/// A batch carries each node that could be prepared, and no other, in the order of the
/// batch. The item of a node names its link, and has its name, its passphrase and its
/// hash under the new parent beside the hash that it has now.
pub proof fn law_a_batch_carries_each_prepared_node(
    batch: Seq<LinkId>,
    prepared: Seq<Prepared>,
) -> (at: Seq<int>)
    requires
        prepared.len() <= batch.len(),
    ensures
        at.len() == move_items(batch, prepared).len(),
        forall|k: int, l: int| 0 <= k < l < at.len() ==> #[trigger] at[k] < #[trigger] at[l],
        forall|i: int|
            0 <= i < prepared.len() && #[trigger] prepared[i] is Some && prepared[i]->0 is Ok
                ==> at.contains(i),
        forall|k: int|
            0 <= k < at.len() ==> {
                let item = move_items(batch, prepared)[k];
                &&& 0 <= #[trigger] at[k] < prepared.len()
                &&& prepared[at[k]] matches Some(Ok(parts))
                &&& item.link_id == batch[at[k]]
                &&& item.name == parts.encrypted_name
                &&& item.passphrase == parts.passphrase
                &&& item.name_hash == parts.name_hash
                &&& item.original_hash == parts.original_hash
                &&& item.passphrase_signature is None
            },
    decreases prepared.len(),
{
    if prepared.len() == 0 {
        Seq::empty()
    } else {
        let fewer = prepared.drop_last();
        let before = law_a_batch_carries_each_prepared_node(batch, fewer);
        let last = prepared.len() - 1;
        let at = match prepared.last() {
            Some(Ok(_)) => before.push(last),
            _ => before,
        };
        assert forall|k: int| 0 <= k < before.len() implies prepared[#[trigger] before[k]]
            == fewer[before[k]] by {}
        assert forall|i: int|
            0 <= i < prepared.len() && #[trigger] prepared[i] is Some
                && prepared[i]->0 is Ok implies at.contains(i) by {
            if i < last {
                assert(fewer[i] == prepared[i]);
                let k = before.index_of(i);
                assert(at[k] == i);
            } else {
                assert(at[before.len() as int] == i);
            }
        }
        at
    }
}

/// A batch of one carries what a single move of the node carries.
pub proof fn law_a_batch_of_one_is_a_single_move(
    link_id: LinkId,
    parts: MoveParts,
    single: MoveLinkRequest,
    new_parent: NodeUid,
    email: String,
)
    requires
        single == single_move(new_parent, parts, email),
    ensures
        ({
            let items = move_items(seq![link_id], seq![Some(Ok::<MoveParts, ProtonError>(parts))]);
            &&& items.len() == 1
            &&& items[0].link_id == link_id
            &&& items[0].name == single.name
            &&& single.name == parts.encrypted_name
            &&& items[0].passphrase == single.passphrase
            &&& single.passphrase == parts.passphrase
            &&& items[0].passphrase_signature == single.passphrase_signature
            &&& single.passphrase_signature == None::<String>
            &&& items[0].name_hash == single.name_hash
            &&& single.name_hash == parts.name_hash
            &&& items[0].original_hash == single.original_hash
            &&& single.original_hash == parts.original_hash
            &&& single.parent_link_id == new_parent.link_id
            &&& single.name_signature_email == email
        }),
{
    let prepared = seq![Some(Ok::<MoveParts, ProtonError>(parts))];
    assert(prepared.drop_last() =~= Seq::<Prepared>::empty());
    reveal_with_fuel(move_items, 2);
}

/// The route that moves one node.
pub fn move_path(uid: &NodeUid) -> (path: String)
    ensures
        path@ == "v2/volumes/"@ + uid.volume_id@ + "/links/"@ + uid.link_id@ + "/move"@,
{
    let mut path: String = owned("v2/volumes/");
    path.append(uid.volume_id.as_str());
    path.append("/links/");
    path.append(uid.link_id.as_str());
    path.append("/move");
    path
}

/// The route that moves a batch.
pub fn move_multiple_path(volume_id: &VolumeId) -> (path: String)
    ensures
        path@ == "volumes/"@ + volume_id@ + "/links/move-multiple"@,
{
    let mut path: String = owned("volumes/");
    path.append(volume_id.as_str());
    path.append("/links/move-multiple");
    path
}

// ---------------------------------------------------------------------------
// What is reported
// ---------------------------------------------------------------------------

/// Whether answer `i` is the last one about the link.
pub open spec fn last_answer(answers: Seq<LinkIdResponsePair>, id: Seq<char>, i: int) -> bool {
    &&& 0 <= i < answers.len()
    &&& answers[i].link_id@ == id
    &&& forall|j: int| i < j < answers.len() ==> (#[trigger] answers[j]).link_id@ != id
}

/// Whether there is an answer about the link.
pub open spec fn is_answered(answers: Seq<LinkIdResponsePair>, id: Seq<char>) -> bool {
    exists|i: int| 0 <= i < answers.len() && (#[trigger] answers[i]).link_id@ == id
}

/// The answer about the link. Of several, the last one.
pub open spec fn answer_about(answers: Seq<LinkIdResponsePair>, id: Seq<char>) -> LinkIdResponsePair {
    answers[choose|i: int| last_answer(answers, id, i)]
}

/// Whether `outcome` is what came of a link of a batch. A link that was not found
/// or could not be prepared fails on its own. The others share the fate of the
/// request when it failed, and otherwise have the answer about them.
pub open spec fn is_move_outcome(
    outcome: Result<(), ProtonError>,
    uid: (Seq<char>, Seq<char>),
    prepared: Prepared,
    answer: Result<AggregateLinksResponse, String>,
) -> bool {
    match prepared {
        None => outcome is Err && invalid(outcome->Err_0, missing_node(uid)),
        Some(Err(e)) => outcome == Err::<(), ProtonError>(e),
        Some(Ok(_)) => match answer {
            Err(message) => outcome is Err && invalid(outcome->Err_0, message@),
            Ok(answer) => if is_answered(answer.responses@, uid.1) {
                let about = answer_about(answer.responses@, uid.1);
                is_outcome((about.link_id, outcome), about)
            } else {
                outcome is Err && invalid(
                    outcome->Err_0,
                    "move returned no response for link "@ + uid.1,
                )
            },
        },
    }
}

/// What came of a link, by the answer about it.
fn outcome_of(pair: &LinkIdResponsePair) -> (r: Result<(), ProtonError>)
    ensures
        is_outcome((pair.link_id, r), *pair),
{
    if pair.response.code == ResponseCode::Success {
        Ok(())
    } else {
        let message: String = match &pair.response.error_message {
            Some(message) => message.clone(),
            None => String::new(),
        };
        Err(
            ProtonError::Api(
                ProtonApiError {
                    code: pair.response.code,
                    http_status: 200,
                    message,
                    details: pair.response.details.clone(),
                },
            ),
        )
    }
}

/// What came of a link that was sent, by the answer to its batch.
fn answered_outcome(answer: &AggregateLinksResponse, id: &LinkId) -> (r: Result<(), ProtonError>)
    ensures
        if is_answered(answer.responses@, id@) {
            let about = answer_about(answer.responses@, id@);
            is_outcome((about.link_id, r), about)
        } else {
            r is Err && invalid(r->Err_0, "move returned no response for link "@ + id@)
        },
{
    let answers: &Vec<LinkIdResponsePair> = &answer.responses;
    let mut i: usize = answers.len();
    while i > 0
        invariant
            i <= answers@.len(),
            *answers == answer.responses,
            forall|j: int| i <= j < answers@.len() ==> (#[trigger] answers@[j]).link_id@ != id@,
        decreases i,
    {
        i -= 1;
        if answers[i].link_id.same_as(id) {
            proof {
                assert(last_answer(answers@, id@, i as int));
                let k = choose|k: int| last_answer(answers@, id@, k);
                if k < i {
                    assert(answers@[i as int].link_id@ != id@);
                } else if i < k {
                    assert(answers@[k].link_id@ != id@);
                }
            }
            return outcome_of(&answers[i]);
        }
    }
    let mut message: String = owned("move returned no response for link ");
    message.append(id.as_str());
    Err(ProtonError::InvalidOperation(message))
}

/// What came of each link of a batch, in the order of the batch. `answer` is what
/// the request for those that could be prepared came back with: the server's
/// answer, or how the failure of the whole request reads. A batch of which nothing
/// was sent has an empty answer.
pub fn batch_outcomes(
    new_parent: &NodeUid,
    batch: &Vec<LinkId>,
    prepared: Vec<Prepared>,
    answer: Result<AggregateLinksResponse, String>,
) -> (r: Vec<(LinkId, Result<(), ProtonError>)>)
    requires
        prepared@.len() == batch@.len(),
    ensures
        r@.len() == batch@.len(),
        forall|i: int|
            0 <= i < r@.len() ==> (#[trigger] r@[i]).0 == batch@[i] && is_move_outcome(
                r@[i].1,
                (new_parent.volume_id@, batch@[i]@),
                prepared@[i],
                answer,
            ),
{
    let ghost all = prepared@;
    let mut rest: Vec<Prepared> = prepared;
    let mut out: Vec<(LinkId, Result<(), ProtonError>)> = Vec::new();
    let mut i: usize = 0;
    while i < batch.len()
        invariant
            i <= batch@.len(),
            all.len() == batch@.len(),
            rest@ == all.skip(i as int),
            out@.len() == i,
            forall|j: int|
                0 <= j < i ==> (#[trigger] out@[j]).0 == batch@[j] && is_move_outcome(
                    out@[j].1,
                    (new_parent.volume_id@, batch@[j]@),
                    all[j],
                    answer,
                ),
        decreases batch@.len() - i,
    {
        let entry: Prepared = rest.remove(0);
        assert(entry == all[i as int]);
        let outcome: Result<(), ProtonError> = match entry {
            None => {
                let uid: NodeUid = NodeUid::new(new_parent.volume_id.clone(), batch[i].clone());
                Err(node_not_found(&uid))
            },
            Some(Err(e)) => Err(e),
            Some(Ok(_)) => match &answer {
                Err(message) => Err(ProtonError::InvalidOperation(message.clone())),
                Ok(answer) => answered_outcome(answer, &batch[i]),
            },
        };
        out.push((batch[i].clone(), outcome));
        i += 1;
        assert(rest@ =~= all.skip(i as int));
    }
    out
}

/// Each node of a batch gets the outcome that its own story calls for. One that is not
/// there is reported missing, and one that could not be prepared fails as it did. The
/// failure of the whole request is the failure of everything it carried. Otherwise the
/// last answer about the link decides: it succeeded just when its code says so.
pub proof fn law_each_outcome_tells_what_happened(
    outcome: Result<(), ProtonError>,
    volume: Seq<char>,
    link: Seq<char>,
    prepared: Prepared,
    answer: Result<AggregateLinksResponse, String>,
    k: int,
)
    requires
        is_move_outcome(outcome, (volume, link), prepared, answer),
    ensures
        prepared is None ==> outcome is Err && outcome->Err_0 is InvalidOperation
            && outcome->Err_0->InvalidOperation_0@ == "node "@ + volume + seq!['~'] + link
            + " not found"@,
        prepared matches Some(Err(e)) ==> outcome == Err::<(), ProtonError>(e),
        prepared is Some && prepared->0 is Ok && answer is Err ==> outcome is Err
            && outcome->Err_0 is InvalidOperation && outcome->Err_0->InvalidOperation_0@
            == answer->Err_0@,
        prepared is Some && prepared->0 is Ok && answer is Ok && (forall|i: int|
            0 <= i < answer->Ok_0.responses@.len() ==> (
            #[trigger] answer->Ok_0.responses@[i]).link_id@ != link) ==> outcome is Err
            && outcome->Err_0 is InvalidOperation && outcome->Err_0->InvalidOperation_0@
            == "move returned no response for link "@ + link,
        prepared is Some && prepared->0 is Ok && answer is Ok && 0 <= k
            < answer->Ok_0.responses@.len() && answer->Ok_0.responses@[k].link_id@ == link && (
        forall|i: int|
            k < i < answer->Ok_0.responses@.len() ==> (
            #[trigger] answer->Ok_0.responses@[i]).link_id@ != link) ==> {
            let said = answer->Ok_0.responses@[k].response;
            &&& outcome is Ok <==> said.code == ResponseCode::Success
            &&& outcome is Err ==> outcome->Err_0 is Api && outcome->Err_0->Api_0.code == said.code
                && outcome->Err_0->Api_0.http_status == 200 && outcome->Err_0->Api_0.details
                == said.details
        },
{
    if prepared is None {
        assert("node "@ + uid_text((volume, link)) + " not found"@ =~= "node "@ + volume + seq![
            '~',
        ] + link + " not found"@);
    }
    if answer is Ok && 0 <= k < answer->Ok_0.responses@.len()
        && answer->Ok_0.responses@[k].link_id@ == link && (forall|i: int|
        k < i < answer->Ok_0.responses@.len() ==> (#[trigger] answer->Ok_0.responses@[i]).link_id@
            != link) {
        let answers = answer->Ok_0.responses@;
        assert(last_answer(answers, link, k));
        let slot = choose|i: int| last_answer(answers, link, i);
        assert(answers[k].link_id@ == link && answers[slot].link_id@ == link);
        assert(slot == k);
    }
}

/// What came of links, gathered over all batches.
pub type LinkOutcomes = Seq<(LinkId, Result<(), ProtonError>)>;

/// Whether outcome `i` is the last one of the link.
pub open spec fn last_outcome(outcomes: LinkOutcomes, id: Seq<char>, i: int) -> bool {
    &&& 0 <= i < outcomes.len()
    &&& outcomes[i].0@ == id
    &&& forall|j: int| i < j < outcomes.len() ==> (#[trigger] outcomes[j]).0@ != id
}

/// Whether the link has an outcome.
pub open spec fn has_outcome(outcomes: LinkOutcomes, id: Seq<char>) -> bool {
    exists|i: int| 0 <= i < outcomes.len() && (#[trigger] outcomes[i]).0@ == id
}

/// Where the outcome of the link stands. Of several, the last one counts.
pub open spec fn outcome_slot(outcomes: LinkOutcomes, id: Seq<char>) -> int {
    choose|i: int| last_outcome(outcomes, id, i)
}

/// Whether the node at `i` is on the volume and was listed before.
pub open spec fn is_repeat(uids: Seq<NodeUid>, volume: Seq<char>, i: int) -> bool {
    exists|j: int|
        0 <= j < i && (#[trigger] uids[j]).volume_id@ == volume && uids[j].link_id@
            == uids[i].link_id@
}

/// Whether `outcome` is what is reported of the node at `i`. A node of another
/// volume is refused. The first mention of a node has the outcome of its link, and
/// a later one either success or how the failure of the first reads.
pub open spec fn is_reported(
    outcome: Result<(), ProtonError>,
    uids: Seq<NodeUid>,
    volume: Seq<char>,
    outcomes: LinkOutcomes,
    told: Seq<String>,
    i: int,
) -> bool {
    let uid = uids[i];
    if uid.volume_id@ != volume {
        outcome is Err && invalid(outcome->Err_0, across_volumes())
    } else if !has_outcome(outcomes, uid.link_id@) {
        outcome is Err && invalid(
            outcome->Err_0,
            "move produced no outcome for node "@ + uid_text(uid@),
        )
    } else {
        let slot = outcome_slot(outcomes, uid.link_id@);
        match outcomes[slot].1 {
            Ok(()) => outcome is Ok,
            Err(e) => if is_repeat(uids, volume, i) {
                outcome is Err && invalid(outcome->Err_0, told[slot]@)
            } else {
                outcome == Err::<(), ProtonError>(e)
            },
        }
    }
}

fn find_outcome(outcomes: &Vec<(LinkId, Result<(), ProtonError>)>, id: &LinkId) -> (r: Option<
    usize,
>)
    ensures
        match r {
            Some(i) => has_outcome(outcomes@, id@) && i < outcomes@.len() && i == outcome_slot(
                outcomes@,
                id@,
            ),
            None => !has_outcome(outcomes@, id@),
        },
{
    let mut i: usize = outcomes.len();
    while i > 0
        invariant
            i <= outcomes@.len(),
            forall|j: int| i <= j < outcomes@.len() ==> (#[trigger] outcomes@[j]).0@ != id@,
        decreases i,
    {
        i -= 1;
        if outcomes[i].0.same_as(id) {
            proof {
                assert(last_outcome(outcomes@, id@, i as int));
                let k = outcome_slot(outcomes@, id@);
                if k < i {
                    assert(outcomes@[i as int].0@ != id@);
                } else if i < k {
                    assert(outcomes@[k].0@ != id@);
                }
            }
            return Some(i);
        }
    }
    None
}

fn repeats(uids: &Vec<NodeUid>, volume_id: &VolumeId, i: usize) -> (r: bool)
    requires
        i < uids@.len(),
    ensures
        r == is_repeat(uids@, volume_id@, i as int),
{
    let mut j: usize = 0;
    while j < i
        invariant
            j <= i < uids@.len(),
            forall|k: int|
                0 <= k < j ==> !((#[trigger] uids@[k]).volume_id@ == volume_id@
                    && uids@[k].link_id@ == uids@[i as int].link_id@),
        decreases i - j,
    {
        if uids[j].volume_id.same_as(volume_id) && uids[j].link_id.same_as(&uids[i].link_id) {
            return true;
        }
        j += 1;
    }
    false
}

/// What is reported of a move: one outcome for each node listed, in that order.
/// `told` says how the failure of each link reads.
pub fn move_outcomes(
    uids: &Vec<NodeUid>,
    new_parent: &NodeUid,
    outcomes: &Vec<(LinkId, Result<(), ProtonError>)>,
    told: &Vec<String>,
) -> (r: Vec<(NodeUid, Result<(), ProtonError>)>)
    requires
        told@.len() == outcomes@.len(),
    ensures
        r@.len() == uids@.len(),
        forall|i: int|
            0 <= i < r@.len() ==> (#[trigger] r@[i]).0 == uids@[i] && is_reported(
                r@[i].1,
                uids@,
                new_parent.volume_id@,
                outcomes@,
                told@,
                i,
            ),
{
    let mut out: Vec<(NodeUid, Result<(), ProtonError>)> = Vec::new();
    let mut i: usize = 0;
    while i < uids.len()
        invariant
            i <= uids@.len(),
            told@.len() == outcomes@.len(),
            out@.len() == i,
            forall|j: int|
                0 <= j < i ==> (#[trigger] out@[j]).0 == uids@[j] && is_reported(
                    out@[j].1,
                    uids@,
                    new_parent.volume_id@,
                    outcomes@,
                    told@,
                    j,
                ),
        decreases uids@.len() - i,
    {
        let uid: &NodeUid = &uids[i];
        let outcome: Result<(), ProtonError> = match check_same_volume(uid, new_parent) {
            Err(e) => Err(e),
            Ok(()) => match find_outcome(outcomes, &uid.link_id) {
                Some(k) => match &outcomes[k].1 {
                    Ok(()) => Ok(()),
                    Err(e) => {
                        if repeats(uids, &new_parent.volume_id, i) {
                            Err(ProtonError::InvalidOperation(told[k].clone()))
                        } else {
                            Err(e.clone())
                        }
                    },
                },
                None => {
                    let mut message: String = owned("move produced no outcome for node ");
                    message.append(uid.to_text().as_str());
                    Err(ProtonError::InvalidOperation(message))
                },
            },
        };
        assert(is_reported(outcome, uids@, new_parent.volume_id@, outcomes@, told@, i as int));
        out.push((uid.clone(), outcome));
        i += 1;
    }
    out
}

/// What is reported of a node is what came of it. A node elsewhere is refused, and one
/// of which nothing is known is said to have no outcome. Of any other node the last
/// outcome of its link is reported, in the words of that failure where the node was
/// mentioned before.
pub proof fn law_reports_tell_what_came_of_a_node(
    report: Result<(), ProtonError>,
    uids: Seq<NodeUid>,
    volume: Seq<char>,
    outcomes: LinkOutcomes,
    told: Seq<String>,
    i: int,
    k: int,
)
    requires
        0 <= i < uids.len(),
        is_reported(report, uids, volume, outcomes, told, i),
    ensures
        uids[i].volume_id@ != volume ==> report is Err && report->Err_0 is InvalidOperation
            && report->Err_0->InvalidOperation_0@ == "cross-volume move is not supported"@,
        uids[i].volume_id@ == volume && (forall|j: int|
            0 <= j < outcomes.len() ==> (#[trigger] outcomes[j]).0@ != uids[i].link_id@)
            ==> report is Err && report->Err_0 is InvalidOperation
            && report->Err_0->InvalidOperation_0@ == "move produced no outcome for node "@
            + uids[i].volume_id@ + seq!['~'] + uids[i].link_id@,
        uids[i].volume_id@ == volume && 0 <= k < outcomes.len() && outcomes[k].0@
            == uids[i].link_id@ && (forall|j: int|
            k < j < outcomes.len() ==> (#[trigger] outcomes[j]).0@ != uids[i].link_id@) ==> {
            &&& report is Ok <==> outcomes[k].1 is Ok
            &&& report is Err && (exists|j: int|
                0 <= j < i && (#[trigger] uids[j]).volume_id@ == volume && uids[j].link_id@
                    == uids[i].link_id@) ==> report->Err_0 is InvalidOperation
                && report->Err_0->InvalidOperation_0@ == told[k]@
            &&& report is Err && (forall|j: int|
                0 <= j < i && (#[trigger] uids[j]).volume_id@ == volume ==> uids[j].link_id@
                    != uids[i].link_id@) ==> report == Err::<(), ProtonError>(
                outcomes[k].1->Err_0,
            )
        },
{
    let link = uids[i].link_id@;
    assert("move produced no outcome for node "@ + uid_text(uids[i]@)
        =~= "move produced no outcome for node "@ + uids[i].volume_id@ + seq!['~'] + link);
    if 0 <= k < outcomes.len() && outcomes[k].0@ == link && (forall|j: int|
        k < j < outcomes.len() ==> (#[trigger] outcomes[j]).0@ != link) {
        assert(last_outcome(outcomes, link, k));
        let slot = choose|j: int| last_outcome(outcomes, link, j);
        assert(outcomes[k].0@ == link && outcomes[slot].0@ == link);
        assert(slot == k);
        assert(outcome_slot(outcomes, link) == k);
        assert(has_outcome(outcomes, link));
    }
}

/// Once every link that a move carries has an outcome, every node of the volume has
/// one: a node succeeds exactly when its link did, at each of its mentions, and a
/// node of another volume never does.
pub proof fn law_every_mention_shares_one_fate(
    uids: Seq<NodeUid>,
    volume: Seq<char>,
    outcomes: LinkOutcomes,
    told: Seq<String>,
    reported: Seq<Result<(), ProtonError>>,
    i: int,
)
    requires
        0 <= i < uids.len(),
        reported.len() == uids.len(),
        forall|k: int|
            0 <= k < uids.len() ==> is_reported(
                #[trigger] reported[k],
                uids,
                volume,
                outcomes,
                told,
                k,
            ),
        forall|k: int|
            0 <= k < moved_links(uids, volume).len() ==> has_outcome(
                outcomes,
                (#[trigger] moved_links(uids, volume)[k])@,
            ),
    ensures
        uids[i].volume_id@ != volume ==> reported[i] is Err,
        uids[i].volume_id@ == volume ==> has_outcome(outcomes, uids[i].link_id@) && (reported[i]
            is Ok <==> outcomes[outcome_slot(outcomes, uids[i].link_id@)].1 is Ok),
        forall|j: int|
            0 <= j < uids.len() && (#[trigger] uids[j])@ == uids[i]@ ==> (reported[j] is Ok
                <==> reported[i] is Ok),
{
    law_each_node_is_carried_once(uids, volume);
    let links = moved_links(uids, volume);
    assert(is_reported(reported[i], uids, volume, outcomes, told, i));
    if uids[i].volume_id@ == volume {
        assert(lists_link(links, uids[i].link_id@));
        let k = choose|k: int| 0 <= k < links.len() && (#[trigger] links[k])@ == uids[i].link_id@;
        assert(has_outcome(outcomes, links[k]@));
    }
    assert forall|j: int| 0 <= j < uids.len() && (#[trigger] uids[j])@ == uids[i]@ implies (
    reported[j] is Ok <==> reported[i] is Ok) by {
        assert(is_reported(reported[j], uids, volume, outcomes, told, j));
    }
}

/// The outcomes of batches, one after the other.
pub open spec fn gathered(parts: Seq<LinkOutcomes>) -> LinkOutcomes
    decreases parts.len(),
{
    if parts.len() == 0 {
        Seq::empty()
    } else {
        gathered(parts.drop_last()) + parts.last()
    }
}

proof fn lemma_gathered_keeps(parts: Seq<LinkOutcomes>, b: int, i: int)
    requires
        0 <= b < parts.len(),
        0 <= i < parts[b].len(),
    ensures
        gathered(parts).contains(parts[b][i]),
    decreases parts.len(),
{
    let before = gathered(parts.drop_last());
    let wanted = parts[b][i];
    if b == parts.len() - 1 {
        assert(gathered(parts)[before.len() + i] == wanted);
    } else {
        lemma_gathered_keeps(parts.drop_last(), b, i);
        let at = choose|k: int| 0 <= k < before.len() && before[k] == wanted;
        assert(gathered(parts)[at] == wanted);
    }
}

/// When each batch of a move says what came of each of its links, every link that
/// the move carries has an outcome.
pub proof fn law_every_link_has_an_outcome(
    uids: Seq<NodeUid>,
    volume: Seq<char>,
    batches: Seq<Vec<LinkId>>,
    parts: Seq<LinkOutcomes>,
)
    requires
        is_batching(batches, moved_links(uids, volume), MAX_BATCH_COUNT as nat),
        parts.len() == batches.len(),
        forall|b: int|
            0 <= b < batches.len() ==> (#[trigger] parts[b]).len() == batches[b]@.len(),
        forall|b: int, i: int|
            0 <= b < batches.len() && 0 <= i < batches[b]@.len() ==> (
            #[trigger] parts[b][i]).0 == batches[b]@[i],
    ensures
        forall|k: int|
            0 <= k < moved_links(uids, volume).len() ==> has_outcome(
                gathered(parts),
                (#[trigger] moved_links(uids, volume)[k])@,
            ),
{
    let all = moved_links(uids, volume);
    let size = MAX_BATCH_COUNT as int;
    assert forall|k: int| 0 <= k < all.len() implies has_outcome(
        gathered(parts),
        (#[trigger] all[k])@,
    ) by {
        let b = k / size;
        let i = k % size;
        assert(k == b * size + i);
        assert(0 <= b < batches.len());
        assert(batches[b]@ == batch_of(all, size as nat, b));
        assert(batches[b]@[i] == all[k]);
        lemma_gathered_keeps(parts, b, i);
        let found = parts[b][i];
        let at = choose|j: int| 0 <= j < gathered(parts).len() && gathered(parts)[j] == found;
        assert(gathered(parts)[at].0@ == all[k]@);
    }
}

// ---------------------------------------------------------------------------
// Renaming
// ---------------------------------------------------------------------------

/// The folder of a node that is to be renamed. The node has to be there, and the
/// root of a tree has no name of its own to change.
pub fn rename_parent(uid: &NodeUid, details: &Vec<LinkDetailsDto>) -> (r: Result<
    NodeUid,
    ProtonError,
>)
    ensures
        if details@.len() == 0 {
            r is Err && invalid(r->Err_0, missing_node(uid@))
        } else {
            match details@[0].link.parent_id {
                Some(parent) => r == Ok::<NodeUid, ProtonError>(
                    NodeUid { volume_id: uid.volume_id, link_id: parent },
                ),
                None => r is Err && invalid(r->Err_0, "cannot rename the root node"@),
            }
        },
{
    if details.len() == 0 {
        return Err(node_not_found(uid));
    }
    match &details[0].link.parent_id {
        Some(parent) => Ok(NodeUid::new(uid.volume_id.clone(), parent.clone())),
        None => Err(ProtonError::invalid_operation("cannot rename the root node")),
    }
}

/// The request that renames a node.
pub fn rename_request(
    new_name: &str,
    parent_hash_key: &[u8],
    encrypted_name: String,
    email: String,
    media_type: Option<String>,
    original_hash: String,
) -> (r: RenameLinkRequest)
    ensures
        r.name == encrypted_name,
        r.name_hash@ == name_hash_text(parent_hash_key@, vstd::utf8::encode_utf8(new_name@)),
        r.name_signature_email == email,
        r.media_type == media_type,
        r.original_hash == original_hash,
        r.name_hash@ == hex_text(
            hmac_sha256_of(parent_hash_key@, vstd::utf8::encode_utf8(new_name@)),
        ),
{
    RenameLinkRequest {
        name: encrypted_name,
        name_hash: name_hash(parent_hash_key, new_name.as_bytes()),
        name_signature_email: email,
        media_type,
        original_hash,
    }
}

/// The route that renames a node.
pub fn rename_path(uid: &NodeUid) -> (path: String)
    ensures
        path@ == "v2/volumes/"@ + uid.volume_id@ + "/links/"@ + uid.link_id@ + "/rename"@,
{
    let mut path: String = owned("v2/volumes/");
    path.append(uid.volume_id.as_str());
    path.append("/links/");
    path.append(uid.link_id.as_str());
    path.append("/rename");
    path
}

} // verus!
