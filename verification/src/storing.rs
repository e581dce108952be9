//! Storing encrypted blocks: where each of them goes, and what is done when that
//! fails.

use vstd::prelude::*;
use vstd::string::StringExecFns;

use crate::content::{by_type, digests_of};
use crate::digest::{base64_text, sha256_of};
use crate::drafts::RevisionDraft;
use crate::dtos::{
    BlockCreationRequest, BlockUploadPreparationRequest, BlockUploadPreparationResponse,
    BlockUploadTarget, BlockVerifier, ThumbnailCreationRequest, ThumbnailDto,
};
use crate::error::{
    invalid, is_expired_upload_token, is_upload_timeout, ProtonError, ResponseCode,
};
use crate::ids::{LinkId, VolumeId};
use crate::text::{decimal, owned, push_decimal, push_signed, signed_decimal, trimmed_text};
use crate::upload::{
    assemble_manifest, law_download_rebuilds_the_manifest, manifest_of, stored_digests,
    EncryptedThumbnail, PreparedBlock, MAX_BLOCK_UPLOAD_ATTEMPTS, MAX_CONCURRENT_BLOCK_UPLOADS,
};

verus! {

// ---------------------------------------------------------------------------
// Targets
// ---------------------------------------------------------------------------

/// What a target says it is for: the index of a content block, or the type of a
/// thumbnail.
pub open spec fn label_of(target: BlockUploadTarget, thumbnail: bool) -> Option<i32> {
    if thumbnail {
        target.thumbnail_type
    } else {
        target.index
    }
}

/// Whether target `i` is the first one that says it is for this.
pub open spec fn first_labelled(
    targets: Seq<BlockUploadTarget>,
    thumbnail: bool,
    label: Option<i32>,
    i: int,
) -> bool {
    &&& 0 <= i < targets.len()
    &&& label_of(targets[i], thumbnail) == label
    &&& forall|j: int| 0 <= j < i ==> label_of(#[trigger] targets[j], thumbnail) != label
}

/// Whether some target says it is for this.
pub open spec fn is_labelled(
    targets: Seq<BlockUploadTarget>,
    thumbnail: bool,
    label: Option<i32>,
) -> bool {
    exists|i: int|
        0 <= i < targets.len() && label_of(#[trigger] targets[i], thumbnail) == label
}

/// Where the target for a block stands: the first one that names it, and otherwise
/// the first one that names none.
pub open spec fn target_place(
    targets: Seq<BlockUploadTarget>,
    thumbnail: bool,
    wanted: i32,
) -> Option<int> {
    if is_labelled(targets, thumbnail, Some(wanted)) {
        Some(choose|i: int| first_labelled(targets, thumbnail, Some(wanted), i))
    } else if is_labelled(targets, thumbnail, None) {
        Some(choose|i: int| first_labelled(targets, thumbnail, None, i))
    } else {
        None
    }
}

fn find_labelled(
    targets: &Vec<BlockUploadTarget>,
    thumbnail: bool,
    label: Option<i32>,
) -> (r: Option<usize>)
    ensures
        match r {
            Some(i) => is_labelled(targets@, thumbnail, label) && first_labelled(
                targets@,
                thumbnail,
                label,
                i as int,
            ),
            None => !is_labelled(targets@, thumbnail, label),
        },
{
    let mut i: usize = 0;
    while i < targets.len()
        invariant
            i <= targets@.len(),
            forall|j: int|
                0 <= j < i ==> label_of(#[trigger] targets@[j], thumbnail) != label,
        decreases targets@.len() - i,
    {
        let found: Option<i32> = if thumbnail {
            targets[i].thumbnail_type
        } else {
            targets[i].index
        };
        let same: bool = match (found, label) {
            (Some(a), Some(b)) => a == b,
            (None, None) => true,
            _ => false,
        };
        if same {
            assert(first_labelled(targets@, thumbnail, label, i as int));
            assert(label_of(targets@[i as int], thumbnail) == label);
            return Some(i);
        }
        i += 1;
    }
    None
}

proof fn lemma_first_is_one(
    targets: Seq<BlockUploadTarget>,
    thumbnail: bool,
    label: Option<i32>,
    i: int,
)
    requires
        first_labelled(targets, thumbnail, label, i),
    ensures
        i == (choose|k: int| first_labelled(targets, thumbnail, label, k)),
{
    let k = choose|k: int| first_labelled(targets, thumbnail, label, k);
    if i < k {
        assert(label_of(targets[i], thumbnail) != label);
    } else if k < i {
        assert(label_of(targets[k], thumbnail) != label);
    }
}

fn take_target(targets: &mut Vec<BlockUploadTarget>, thumbnail: bool, wanted: i32) -> (r: Option<
    BlockUploadTarget,
>)
    ensures
        match target_place(old(targets)@, thumbnail, wanted) {
            Some(p) => 0 <= p < old(targets)@.len() && r == Some(old(targets)@[p]) && final(targets)@ == old(targets)@.remove(p),
            None => r is None && final(targets)@ == old(targets)@,
        },
{
    match find_labelled(targets, thumbnail, Some(wanted)) {
        Some(i) => {
            proof {
                lemma_first_is_one(targets@, thumbnail, Some(wanted), i as int);
            }
            Some(targets.remove(i))
        },
        None => match find_labelled(targets, thumbnail, None) {
            Some(i) => {
                proof {
                    lemma_first_is_one(targets@, thumbnail, None, i as int);
                }
                Some(targets.remove(i))
            },
            None => None,
        },
    }
}

/// Takes the target for a content block out of the targets. A server that does not
/// say which target is for which block means them in the order of the request.
pub fn take_block_target(targets: &mut Vec<BlockUploadTarget>, index: i32) -> (r: Option<
    BlockUploadTarget,
>)
    ensures
        match target_place(old(targets)@, false, index) {
            Some(p) => 0 <= p < old(targets)@.len() && r == Some(old(targets)@[p]) && final(targets)@ == old(targets)@.remove(p),
            None => r is None && final(targets)@ == old(targets)@,
        },
        r is Some <==> exists|i: int|
            #![trigger old(targets)@[i]]
            0 <= i < old(targets)@.len() && (old(targets)@[i].index == Some(index) || old(
                targets,
            )@[i].index is None),
        (exists|i: int|
            0 <= i < old(targets)@.len() && (#[trigger] old(targets)@[i]).index == Some(index))
            ==> r is Some && (r->0).index == Some(index),
        r is Some ==> exists|p: int|
            #![trigger old(targets)@[p]]
            {
                &&& 0 <= p < old(targets)@.len()
                &&& r->0 == old(targets)@[p]
                &&& (r->0).index == Some(index) || (r->0).index is None
                &&& final(targets)@ == old(targets)@.remove(p)
                &&& forall|j: int|
                    0 <= j < p ==> (#[trigger] old(targets)@[j]).index != old(targets)@[p].index
            },
        r is None ==> final(targets)@ == old(targets)@,
{
    proof {
        lemma_place_fits(targets@, false, index);
    }
    take_target(targets, false, index)
}

/// Takes the target for a thumbnail out of the targets.
pub fn take_thumbnail_target(targets: &mut Vec<BlockUploadTarget>, thumbnail_type: i32) -> (r:
    Option<BlockUploadTarget>)
    ensures
        match target_place(old(targets)@, true, thumbnail_type) {
            Some(p) => 0 <= p < old(targets)@.len() && r == Some(old(targets)@[p]) && final(targets)@ == old(targets)@.remove(p),
            None => r is None && final(targets)@ == old(targets)@,
        },
        r is Some <==> exists|i: int|
            #![trigger old(targets)@[i]]
            0 <= i < old(targets)@.len() && (old(targets)@[i].thumbnail_type == Some(thumbnail_type) || old(
                targets,
            )@[i].thumbnail_type is None),
        (exists|i: int|
            0 <= i < old(targets)@.len() && (#[trigger] old(targets)@[i]).thumbnail_type == Some(thumbnail_type))
            ==> r is Some && (r->0).thumbnail_type == Some(thumbnail_type),
        r is Some ==> exists|p: int|
            #![trigger old(targets)@[p]]
            {
                &&& 0 <= p < old(targets)@.len()
                &&& r->0 == old(targets)@[p]
                &&& (r->0).thumbnail_type == Some(thumbnail_type) || (r->0).thumbnail_type is None
                &&& final(targets)@ == old(targets)@.remove(p)
                &&& forall|j: int|
                    0 <= j < p ==> (#[trigger] old(targets)@[j]).thumbnail_type != old(targets)@[p].thumbnail_type
            },
        r is None ==> final(targets)@ == old(targets)@,
{
    proof {
        lemma_place_fits(targets@, true, thumbnail_type);
    }
    take_target(targets, true, thumbnail_type)
}

/// The targets that are left once those for the first `n` blocks are taken.
pub open spec fn targets_left(
    targets: Seq<BlockUploadTarget>,
    thumbnail: bool,
    wanted: Seq<i32>,
    n: int,
) -> Seq<BlockUploadTarget>
    decreases n,
{
    if n <= 0 {
        targets
    } else {
        let before = targets_left(targets, thumbnail, wanted, n - 1);
        match target_place(before, thumbnail, wanted[n - 1]) {
            Some(p) => before.remove(p),
            None => before,
        }
    }
}

/// Whether there is a target for block `i`, once those before it have theirs.
pub open spec fn is_placed(
    targets: Seq<BlockUploadTarget>,
    thumbnail: bool,
    wanted: Seq<i32>,
    i: int,
) -> bool {
    target_place(targets_left(targets, thumbnail, wanted, i), thumbnail, wanted[i]) is Some
}

/// The target for block `i`.
pub open spec fn target_for(
    targets: Seq<BlockUploadTarget>,
    thumbnail: bool,
    wanted: Seq<i32>,
    i: int,
) -> BlockUploadTarget {
    let left = targets_left(targets, thumbnail, wanted, i);
    left[target_place(left, thumbnail, wanted[i])->0]
}

/// No target is used twice: each block that gets one leaves one less.
pub proof fn law_each_target_is_used_once(
    targets: Seq<BlockUploadTarget>,
    thumbnail: bool,
    wanted: Seq<i32>,
    n: int,
)
    requires
        0 <= n <= wanted.len(),
        forall|i: int| 0 <= i < n ==> #[trigger] is_placed(targets, thumbnail, wanted, i),
    ensures
        targets_left(targets, thumbnail, wanted, n).len() + n == targets.len(),
        n > 0 ==> targets_left(targets, thumbnail, wanted, n - 1).contains(
            target_for(targets, thumbnail, wanted, n - 1),
        ),
    decreases n,
{
    if n > 0 {
        law_each_target_is_used_once(targets, thumbnail, wanted, n - 1);
        assert(is_placed(targets, thumbnail, wanted, n - 1));
        let before = targets_left(targets, thumbnail, wanted, n - 1);
        let w = wanted[n - 1];
        lemma_place_is_inside(before, thumbnail, w);
    }
}

/// The place of a target fits what it is for: named for it where some target is.
proof fn lemma_place_fits(targets: Seq<BlockUploadTarget>, thumbnail: bool, wanted: i32)
    ensures
        target_place(targets, thumbnail, wanted) is Some <==> is_labelled(
            targets,
            thumbnail,
            Some(wanted),
        ) || is_labelled(targets, thumbnail, None),
        target_place(targets, thumbnail, wanted) matches Some(p) ==> 0 <= p < targets.len()
            && first_labelled(targets, thumbnail, label_of(targets[p], thumbnail), p) && (label_of(
            targets[p],
            thumbnail,
        ) == Some(wanted) || (label_of(targets[p], thumbnail) is None && !is_labelled(
            targets,
            thumbnail,
            Some(wanted),
        ))),
{
    if is_labelled(targets, thumbnail, Some(wanted)) {
        lemma_first_exists(targets, thumbnail, Some(wanted));
    } else if is_labelled(targets, thumbnail, None) {
        lemma_first_exists(targets, thumbnail, None);
    }
}

proof fn lemma_named_target_is_left(
    targets: Seq<BlockUploadTarget>,
    thumbnail: bool,
    wanted: Seq<i32>,
    n: int,
    i: int,
)
    requires
        0 <= n <= i < wanted.len(),
        forall|a: int| 0 <= a < i ==> wanted[a] != wanted[i],
        is_labelled(targets, thumbnail, Some(wanted[i])),
    ensures
        is_labelled(targets_left(targets, thumbnail, wanted, n), thumbnail, Some(wanted[i])),
        forall|k: int|
            0 <= k < targets_left(targets, thumbnail, wanted, n).len() ==> targets.contains(
                #[trigger] targets_left(targets, thumbnail, wanted, n)[k],
            ),
    decreases n,
{
    if n > 0 {
        lemma_named_target_is_left(targets, thumbnail, wanted, n - 1, i);
        let before = targets_left(targets, thumbnail, wanted, n - 1);
        let after = targets_left(targets, thumbnail, wanted, n);
        lemma_place_fits(before, thumbnail, wanted[n - 1]);
        let k = choose|k: int|
            0 <= k < before.len() && label_of(#[trigger] before[k], thumbnail) == Some(wanted[i]);
        match target_place(before, thumbnail, wanted[n - 1]) {
            Some(p) => {
                assert(wanted[n - 1] != wanted[i]);
                assert(p != k);
                let at = if k < p {
                    k
                } else {
                    k - 1
                };
                assert(after[at] == before[k]);
                assert forall|j: int| 0 <= j < after.len() implies targets.contains(
                    #[trigger] after[j],
                ) by {
                    if j < p {
                        assert(after[j] == before[j]);
                    } else {
                        assert(after[j] == before[j + 1]);
                    }
                }
            },
            None => {},
        }
    } else {
        assert forall|k: int| 0 <= k < targets.len() implies targets.contains(
            #[trigger] targets[k],
        ) by {}
    }
}

/// Where the server names what a target is for, each block goes to the target that is
/// named for it, whatever order the targets come in.
pub proof fn law_named_targets_reach_their_blocks(
    targets: Seq<BlockUploadTarget>,
    wanted: Seq<i32>,
    i: int,
    k: int,
)
    requires
        0 <= i < wanted.len(),
        forall|a: int| 0 <= a < i ==> wanted[a] != wanted[i],
        0 <= k < targets.len(),
    ensures
        targets[k].index == Some(wanted[i]) ==> is_placed(targets, false, wanted, i) && target_for(
            targets,
            false,
            wanted,
            i,
        ).index == Some(wanted[i]) && targets.contains(target_for(targets, false, wanted, i)),
        targets[k].thumbnail_type == Some(wanted[i]) ==> is_placed(targets, true, wanted, i)
            && target_for(targets, true, wanted, i).thumbnail_type == Some(wanted[i])
            && targets.contains(target_for(targets, true, wanted, i)),
{
    if targets[k].index == Some(wanted[i]) {
        assert(label_of(targets[k], false) == Some(wanted[i]));
        lemma_named_target_is_left(targets, false, wanted, i, i);
        lemma_place_fits(targets_left(targets, false, wanted, i), false, wanted[i]);
    }
    if targets[k].thumbnail_type == Some(wanted[i]) {
        assert(label_of(targets[k], true) == Some(wanted[i]));
        lemma_named_target_is_left(targets, true, wanted, i, i);
        lemma_place_fits(targets_left(targets, true, wanted, i), true, wanted[i]);
    }
}

/// A server that names no target means them in the order of the request.
pub proof fn law_nameless_targets_go_in_order(
    targets: Seq<BlockUploadTarget>,
    thumbnail: bool,
    wanted: Seq<i32>,
    i: int,
)
    requires
        0 <= i < wanted.len(),
        i < targets.len(),
        forall|k: int|
            0 <= k < targets.len() ==> (#[trigger] targets[k]).index is None
                && targets[k].thumbnail_type is None,
    ensures
        is_placed(targets, thumbnail, wanted, i),
        target_for(targets, thumbnail, wanted, i) == targets[i],
{
    lemma_nameless_left(targets, thumbnail, wanted, i);
    let left = targets_left(targets, thumbnail, wanted, i);
    assert(left[0] == targets[i]);
    assert(label_of(left[0], thumbnail) is None);
    lemma_place_fits(left, thumbnail, wanted[i]);
    assert forall|k: int| 0 <= k < left.len() implies label_of(#[trigger] left[k], thumbnail)
        is None by {
        assert(left[k] == targets[i + k]);
    }
}

proof fn lemma_nameless_left(
    targets: Seq<BlockUploadTarget>,
    thumbnail: bool,
    wanted: Seq<i32>,
    n: int,
)
    requires
        0 <= n <= wanted.len(),
        n <= targets.len(),
        forall|k: int|
            0 <= k < targets.len() ==> (#[trigger] targets[k]).index is None
                && targets[k].thumbnail_type is None,
    ensures
        targets_left(targets, thumbnail, wanted, n) == targets.skip(n),
    decreases n,
{
    if n > 0 {
        lemma_nameless_left(targets, thumbnail, wanted, n - 1);
        let before = targets.skip(n - 1);
        assert forall|k: int| 0 <= k < before.len() implies label_of(#[trigger] before[k], thumbnail)
            is None by {
            assert(before[k] == targets[n - 1 + k]);
        }
        assert(label_of(before[0], thumbnail) is None);
        lemma_place_fits(before, thumbnail, wanted[n - 1]);
        assert(target_place(before, thumbnail, wanted[n - 1]) == Some(0int));
        assert(before.remove(0) =~= targets.skip(n));
    } else {
        assert(targets.skip(0) =~= targets);
    }
}

proof fn lemma_place_is_inside(targets: Seq<BlockUploadTarget>, thumbnail: bool, wanted: i32)
    ensures
        target_place(targets, thumbnail, wanted) matches Some(p) ==> 0 <= p < targets.len(),
{
    if is_labelled(targets, thumbnail, Some(wanted)) {
        lemma_first_exists(targets, thumbnail, Some(wanted));
    } else if is_labelled(targets, thumbnail, None) {
        lemma_first_exists(targets, thumbnail, None);
    }
}

proof fn lemma_first_exists(
    targets: Seq<BlockUploadTarget>,
    thumbnail: bool,
    label: Option<i32>,
)
    requires
        is_labelled(targets, thumbnail, label),
    ensures
        exists|i: int| first_labelled(targets, thumbnail, label, i),
    decreases targets.len(),
{
    let i = choose|i: int|
        0 <= i < targets.len() && label_of(#[trigger] targets[i], thumbnail) == label;
    let fewer = targets.take(i);
    if is_labelled(fewer, thumbnail, label) {
        lemma_first_exists(fewer, thumbnail, label);
        let k = choose|k: int| first_labelled(fewer, thumbnail, label, k);
        assert forall|j: int| 0 <= j < k implies label_of(#[trigger] targets[j], thumbnail)
            != label by {
            assert(fewer[j] == targets[j]);
        }
        assert(first_labelled(targets, thumbnail, label, k));
    } else {
        assert forall|j: int| 0 <= j < i implies label_of(#[trigger] targets[j], thumbnail)
            != label by {
            assert(fewer[j] == targets[j]);
        }
        assert(first_labelled(targets, thumbnail, label, i));
    }
}

// ---------------------------------------------------------------------------
// Asking for targets
// ---------------------------------------------------------------------------

/// What a block belongs to.
#[derive(Debug, Clone, PartialEq, Eq)]
pub struct UploadContext {
    pub address_id: String,
    pub volume_id: VolumeId,
    pub link_id: LinkId,
    pub revision_id: String,
}

impl UploadContext {
    pub fn from_draft(draft: &RevisionDraft) -> (context: UploadContext)
        ensures
            context.address_id == draft.address_id,
            context.volume_id == draft.volume_id,
            context.link_id == draft.link_id,
            context.revision_id == draft.revision_id,
    {
        UploadContext {
            address_id: draft.address_id.clone(),
            volume_id: draft.volume_id.clone(),
            link_id: draft.link_id.clone(),
            revision_id: draft.revision_id.clone(),
        }
    }

    /// The request for the targets of blocks and thumbnails.
    pub fn preparation_request(
        &self,
        blocks: Vec<BlockCreationRequest>,
        thumbnails: Vec<ThumbnailCreationRequest>,
    ) -> (r: BlockUploadPreparationRequest)
        ensures
            r == (BlockUploadPreparationRequest {
                address_id: self.address_id,
                volume_id: self.volume_id,
                link_id: self.link_id,
                revision_id: self.revision_id,
                blocks,
                thumbnails,
            }),
    {
        BlockUploadPreparationRequest {
            address_id: self.address_id.clone(),
            volume_id: self.volume_id.clone(),
            link_id: self.link_id.clone(),
            revision_id: self.revision_id.clone(),
            blocks,
            thumbnails,
        }
    }
}

impl Clone for BlockCreationRequest {
    fn clone(&self) -> (r: BlockCreationRequest)
        ensures
            r == *self,
    {
        BlockCreationRequest {
            index: self.index,
            size: self.size,
            encrypted_signature: self.encrypted_signature.clone(),
            hash: self.hash.clone(),
            verifier: BlockVerifier { token: self.verifier.token.clone() },
        }
    }
}

impl Clone for ThumbnailCreationRequest {
    fn clone(&self) -> (r: ThumbnailCreationRequest)
        ensures
            r == *self,
    {
        ThumbnailCreationRequest {
            size: self.size,
            thumbnail_type: self.thumbnail_type,
            hash: self.hash.clone(),
        }
    }
}

/// What asks for the targets of a batch.
pub fn batch_requests(batch: &Vec<PreparedBlock>, thumbnails: &Vec<EncryptedThumbnail>) -> (r: (
    Vec<BlockCreationRequest>,
    Vec<ThumbnailCreationRequest>,
))
    ensures
        r.0@.len() == batch@.len(),
        r.1@.len() == thumbnails@.len(),
        forall|i: int| 0 <= i < batch@.len() ==> #[trigger] r.0@[i] == batch@[i].request,
        forall|i: int| 0 <= i < thumbnails@.len() ==> #[trigger] r.1@[i] == thumbnails@[i].request,
{
    let mut blocks: Vec<BlockCreationRequest> = Vec::new();
    let mut i: usize = 0;
    while i < batch.len()
        invariant
            i <= batch@.len(),
            blocks@.len() == i,
            forall|j: int| 0 <= j < i ==> #[trigger] blocks@[j] == batch@[j].request,
        decreases batch@.len() - i,
    {
        blocks.push(batch[i].request.clone());
        i += 1;
    }
    let mut previews: Vec<ThumbnailCreationRequest> = Vec::new();
    let mut k: usize = 0;
    while k < thumbnails.len()
        invariant
            k <= thumbnails@.len(),
            previews@.len() == k,
            forall|j: int| 0 <= j < k ==> #[trigger] previews@[j] == thumbnails@[j].request,
        decreases thumbnails@.len() - k,
    {
        previews.push(thumbnails[k].request.clone());
        k += 1;
    }
    (blocks, previews)
}

/// One thing to store, and where. A thumbnail has no index, and no request that
/// could ask for another target.
#[derive(Debug, PartialEq, Eq)]
pub struct UploadJob {
    pub index: Option<i32>,
    pub ciphertext: Vec<u8>,
    pub digest: [u8; 32],
    pub request: Option<BlockCreationRequest>,
    pub target: BlockUploadTarget,
}

/// The types of encrypted thumbnails.
pub open spec fn thumbnail_labels(thumbnails: Seq<EncryptedThumbnail>) -> Seq<i32> {
    Seq::new(thumbnails.len(), |i: int| thumbnails[i].thumbnail_type)
}

/// The indices of encrypted blocks.
pub open spec fn block_labels(batch: Seq<PreparedBlock>) -> Seq<i32> {
    Seq::new(batch.len(), |i: int| batch[i].request.index)
}

/// Whether there is a target for each.
pub open spec fn all_placed(
    targets: Seq<BlockUploadTarget>,
    thumbnail: bool,
    wanted: Seq<i32>,
    n: int,
) -> bool {
    forall|i: int| 0 <= i < n ==> #[trigger] is_placed(targets, thumbnail, wanted, i)
}

/// The job of a thumbnail.
pub open spec fn thumbnail_job(thumbnail: EncryptedThumbnail, target: BlockUploadTarget) -> UploadJob {
    UploadJob {
        index: None,
        ciphertext: thumbnail.ciphertext,
        digest: thumbnail.digest,
        request: None,
        target,
    }
}

/// The job of a content block.
pub open spec fn block_job(block: PreparedBlock, target: BlockUploadTarget) -> UploadJob {
    UploadJob {
        index: Some(block.request.index),
        ciphertext: block.ciphertext,
        digest: block.digest,
        request: Some(block.request),
        target,
    }
}

/// What is said when a thumbnail has no target.
pub open spec fn unplaced_thumbnail(thumbnail_type: int) -> Seq<char> {
    "thumbnail upload preparation returned no target for type "@ + signed_decimal(thumbnail_type)
}

/// What is said when a content block has no target.
pub open spec fn unplaced_block(index: int) -> Seq<char> {
    "block upload preparation returned no target for block "@ + signed_decimal(index)
}

/// The targets for blocks, or the first block that has none.
fn take_targets(targets: Vec<BlockUploadTarget>, thumbnail: bool, wanted: &Vec<i32>) -> (r: Result<
    Vec<BlockUploadTarget>,
    usize,
>)
    ensures
        match r {
            Ok(taken) => {
                &&& taken@.len() == wanted@.len()
                &&& all_placed(targets@, thumbnail, wanted@, wanted@.len() as int)
                &&& forall|i: int|
                    0 <= i < taken@.len() ==> #[trigger] taken@[i] == target_for(
                        targets@,
                        thumbnail,
                        wanted@,
                        i,
                    )
            },
            Err(i) => {
                &&& i < wanted@.len()
                &&& all_placed(targets@, thumbnail, wanted@, i as int)
                &&& !is_placed(targets@, thumbnail, wanted@, i as int)
            },
        },
{
    let ghost given = targets@;
    let mut rest: Vec<BlockUploadTarget> = targets;
    let mut taken: Vec<BlockUploadTarget> = Vec::new();
    let mut i: usize = 0;
    while i < wanted.len()
        invariant
            i <= wanted@.len(),
            taken@.len() == i,
            given == targets@,
            rest@ == targets_left(given, thumbnail, wanted@, i as int),
            all_placed(given, thumbnail, wanted@, i as int),
            forall|j: int|
                0 <= j < i ==> #[trigger] taken@[j] == target_for(given, thumbnail, wanted@, j),
        decreases wanted@.len() - i,
    {
        match take_target(&mut rest, thumbnail, wanted[i]) {
            Some(target) => {
                assert(is_placed(given, thumbnail, wanted@, i as int));
                taken.push(target);
            },
            None => {
                assert(!is_placed(given, thumbnail, wanted@, i as int));
                return Err(i);
            },
        }
        i += 1;
    }
    Ok(taken)
}

/// Thumbnails with their targets.
fn thumbnail_jobs(thumbnails: Vec<EncryptedThumbnail>, targets: Vec<BlockUploadTarget>) -> (jobs:
    Vec<UploadJob>)
    requires
        targets@.len() == thumbnails@.len(),
    ensures
        jobs@.len() == thumbnails@.len(),
        forall|i: int|
            0 <= i < jobs@.len() ==> #[trigger] jobs@[i] == thumbnail_job(
                thumbnails@[i],
                targets@[i],
            ),
{
    let ghost all = thumbnails@;
    let ghost given = targets@;
    let mut rest: Vec<EncryptedThumbnail> = thumbnails;
    let mut places: Vec<BlockUploadTarget> = targets;
    let mut jobs: Vec<UploadJob> = Vec::new();
    while rest.len() > 0
        invariant
            given.len() == all.len(),
            jobs@.len() + rest@.len() == all.len(),
            rest@ == all.skip(jobs@.len() as int),
            places@ == given.skip(jobs@.len() as int),
            forall|i: int|
                0 <= i < jobs@.len() ==> #[trigger] jobs@[i] == thumbnail_job(all[i], given[i]),
        decreases rest@.len(),
    {
        let thumbnail: EncryptedThumbnail = rest.remove(0);
        let target: BlockUploadTarget = places.remove(0);
        jobs.push(
            UploadJob {
                index: None,
                ciphertext: thumbnail.ciphertext,
                digest: thumbnail.digest,
                request: None,
                target,
            },
        );
        assert(rest@ =~= all.skip(jobs@.len() as int));
        assert(places@ =~= given.skip(jobs@.len() as int));
    }
    jobs
}

/// Content blocks with their targets.
fn block_jobs(batch: Vec<PreparedBlock>, targets: Vec<BlockUploadTarget>) -> (jobs: Vec<UploadJob>)
    requires
        targets@.len() == batch@.len(),
    ensures
        jobs@.len() == batch@.len(),
        forall|i: int|
            0 <= i < jobs@.len() ==> #[trigger] jobs@[i] == block_job(batch@[i], targets@[i]),
{
    let ghost all = batch@;
    let ghost given = targets@;
    let mut rest: Vec<PreparedBlock> = batch;
    let mut places: Vec<BlockUploadTarget> = targets;
    let mut jobs: Vec<UploadJob> = Vec::new();
    while rest.len() > 0
        invariant
            given.len() == all.len(),
            jobs@.len() + rest@.len() == all.len(),
            rest@ == all.skip(jobs@.len() as int),
            places@ == given.skip(jobs@.len() as int),
            forall|i: int|
                0 <= i < jobs@.len() ==> #[trigger] jobs@[i] == block_job(all[i], given[i]),
        decreases rest@.len(),
    {
        let block: PreparedBlock = rest.remove(0);
        let target: BlockUploadTarget = places.remove(0);
        jobs.push(
            UploadJob {
                index: Some(block.request.index),
                ciphertext: block.ciphertext,
                digest: block.digest,
                request: Some(block.request),
                target,
            },
        );
        assert(rest@ =~= all.skip(jobs@.len() as int));
        assert(places@ =~= given.skip(jobs@.len() as int));
    }
    jobs
}

/// What is stored for a batch: its thumbnails and then its blocks, each with the
/// target that the server gave for it. One without a target stops the batch.
pub fn upload_jobs(
    batch: Vec<PreparedBlock>,
    thumbnails: Vec<EncryptedThumbnail>,
    prepared: BlockUploadPreparationResponse,
) -> (r: Result<Vec<UploadJob>, ProtonError>)
    ensures
        ({
            let types = thumbnail_labels(thumbnails@);
            let indices = block_labels(batch@);
            let for_thumbnails = prepared.thumbnail_upload_targets@;
            let for_blocks = prepared.upload_targets@;
            match r {
                Ok(jobs) => {
                    &&& all_placed(for_thumbnails, true, types, types.len() as int)
                    &&& all_placed(for_blocks, false, indices, indices.len() as int)
                    &&& jobs@.len() == thumbnails@.len() + batch@.len()
                    &&& forall|i: int|
                        0 <= i < thumbnails@.len() ==> #[trigger] jobs@[i] == thumbnail_job(
                            thumbnails@[i],
                            target_for(for_thumbnails, true, types, i),
                        )
                    &&& forall|i: int|
                        0 <= i < batch@.len() ==> #[trigger] jobs@.skip(
                            thumbnails@.len() as int,
                        )[i] == block_job(batch@[i], target_for(for_blocks, false, indices, i))
                    &&& forall|i: int|
                        0 <= i < thumbnails@.len() ==> {
                            &&& (#[trigger] jobs@[i]).index is None
                            &&& jobs@[i].ciphertext == thumbnails@[i].ciphertext
                            &&& jobs@[i].digest == thumbnails@[i].digest
                            &&& jobs@[i].request is None
                        }
                    &&& forall|i: int|
                        thumbnails@.len() <= i < jobs@.len() ==> {
                            let block = batch@[i - thumbnails@.len()];
                            &&& (#[trigger] jobs@[i]).index == Some(block.request.index)
                            &&& jobs@[i].ciphertext == block.ciphertext
                            &&& jobs@[i].digest == block.digest
                            &&& jobs@[i].request == Some(block.request)
                            &&& block.digest@ == sha256_of(block.ciphertext@)
                                ==> jobs@[i].digest@ == sha256_of(jobs@[i].ciphertext@)
                        }
                },
                Err(e) => {
                    ||| exists|i: int|
                        #![trigger thumbnails@[i]]
                        {
                            &&& 0 <= i < thumbnails@.len()
                            &&& all_placed(for_thumbnails, true, types, i)
                            &&& !is_placed(for_thumbnails, true, types, i)
                            &&& invalid(
                                e,
                                unplaced_thumbnail(thumbnails@[i].thumbnail_type as int),
                            )
                            &&& invalid(
                                e,
                                "thumbnail upload preparation returned no target for type "@
                                    + signed_decimal(thumbnails@[i].thumbnail_type as int),
                            )
                        }
                    ||| all_placed(for_thumbnails, true, types, types.len() as int) && exists|
                        i: int,
                    |
                        #![trigger batch@[i]]
                        {
                            &&& 0 <= i < batch@.len()
                            &&& all_placed(for_blocks, false, indices, i)
                            &&& !is_placed(for_blocks, false, indices, i)
                            &&& invalid(e, unplaced_block(batch@[i].request.index as int))
                            &&& invalid(
                                e,
                                "block upload preparation returned no target for block "@
                                    + signed_decimal(batch@[i].request.index as int),
                            )
                        }
                },
            }
        }),
{
    let mut types: Vec<i32> = Vec::new();
    let mut i: usize = 0;
    while i < thumbnails.len()
        invariant
            i <= thumbnails@.len(),
            types@ == thumbnail_labels(thumbnails@).take(i as int),
        decreases thumbnails@.len() - i,
    {
        types.push(thumbnails[i].thumbnail_type);
        i += 1;
        assert(types@ =~= thumbnail_labels(thumbnails@).take(i as int));
    }
    assert(types@ =~= thumbnail_labels(thumbnails@));
    let mut indices: Vec<i32> = Vec::new();
    let mut k: usize = 0;
    while k < batch.len()
        invariant
            k <= batch@.len(),
            indices@ == block_labels(batch@).take(k as int),
        decreases batch@.len() - k,
    {
        indices.push(batch[k].request.index);
        k += 1;
        assert(indices@ =~= block_labels(batch@).take(k as int));
    }
    assert(indices@ =~= block_labels(batch@));
    let for_thumbnails: Vec<BlockUploadTarget> = match take_targets(
        prepared.thumbnail_upload_targets,
        true,
        &types,
    ) {
        Ok(taken) => taken,
        Err(missing) => {
            let mut message: String = owned(
                "thumbnail upload preparation returned no target for type ",
            );
            push_signed(&mut message, types[missing] as i64);
            assert(thumbnails@[missing as int].thumbnail_type == types@[missing as int]);
            return Err(ProtonError::InvalidOperation(message));
        },
    };
    let for_blocks: Vec<BlockUploadTarget> = match take_targets(
        prepared.upload_targets,
        false,
        &indices,
    ) {
        Ok(taken) => taken,
        Err(missing) => {
            let mut message: String = owned(
                "block upload preparation returned no target for block ",
            );
            push_signed(&mut message, indices[missing] as i64);
            assert(batch@[missing as int].request.index == indices@[missing as int]);
            return Err(ProtonError::InvalidOperation(message));
        },
    };
    let mut jobs: Vec<UploadJob> = thumbnail_jobs(thumbnails, for_thumbnails);
    let mut more: Vec<UploadJob> = block_jobs(batch, for_blocks);
    let ghost first = jobs@;
    let ghost second = more@;
    jobs.append(&mut more);
    proof {
        assert(jobs@ =~= first + second);
        assert(jobs@.skip(first.len() as int) =~= second);
        assert forall|i: int| 0 <= i < first.len() implies #[trigger] jobs@[i] == first[i] by {}
        assert forall|i: int| first.len() <= i < jobs@.len() implies #[trigger] jobs@[i]
            == second[i - first.len()] by {}
    }
    Ok(jobs)
}

// ---------------------------------------------------------------------------
// Storing one block
// ---------------------------------------------------------------------------

/// What is done about a block that could not be stored.
#[derive(Debug, PartialEq, Eq)]
pub enum UploadStep {
    /// Try again. After a timeout, one block at a time from now on.
    Retry { serialize: bool },
    /// Ask for another target, and try again there.
    Renew(BlockCreationRequest),
    /// Give up.
    Fail(ProtonError),
}

/// A block that is being stored.
#[derive(Debug, PartialEq, Eq)]
pub struct BlockUpload {
    pub job: UploadJob,
    pub attempt: usize,
}

/// How many places a block takes of those there are: all of them once uploads were
/// found to time out, so that the blocks go one at a time.
pub fn slots_wanted(serialized: bool) -> (r: u32)
    ensures
        r == (if serialized {
            MAX_CONCURRENT_BLOCK_UPLOADS as int
        } else {
            1
        }),
{
    if serialized {
        MAX_CONCURRENT_BLOCK_UPLOADS as u32
    } else {
        1
    }
}

impl BlockUpload {
    pub open spec fn well_formed(self) -> bool {
        self.attempt < MAX_BLOCK_UPLOAD_ATTEMPTS
    }

    pub fn start(job: UploadJob) -> (upload: BlockUpload)
        ensures
            upload.well_formed(),
            upload.job == job,
            upload.attempt == 0,
    {
        BlockUpload { job, attempt: 0 }
    }

    /// The block is stored: what goes into the manifest, if it is a content block.
    pub fn stored(self) -> (r: Option<(i32, [u8; 32])>)
        ensures
            r == (match self.job.index {
                Some(index) => Some((index, self.job.digest)),
                None => None,
            }),
    {
        match self.job.index {
            Some(index) => Some((index, self.job.digest)),
            None => None,
        }
    }

    /// Takes in why an attempt failed. The last attempt's failure stands. After a
    /// timeout uploads go one at a time; a target that has expired is replaced,
    /// where that can be asked for.
    pub fn failed(&mut self, error: ProtonError) -> (step: UploadStep)
        requires
            old(self).well_formed(),
        ensures
            final(self).job == old(self).job,
            final(self).attempt == old(self).attempt + 1,
            !(step is Fail) ==> final(self).well_formed(),
            if old(self).attempt + 1 >= MAX_BLOCK_UPLOAD_ATTEMPTS {
                step == UploadStep::Fail(error)
            } else if error is Transport && error->timeout {
                step == (UploadStep::Retry { serialize: true })
            } else if (error.status() == Some(404u16) || error.code() == Some(
                ResponseCode::DoesNotExist,
            )) && old(self).job.request is Some {
                step == UploadStep::Renew(old(self).job.request->0)
            } else {
                step == (UploadStep::Retry { serialize: false })
            },
    {
        self.attempt = self.attempt + 1;
        if self.attempt >= MAX_BLOCK_UPLOAD_ATTEMPTS {
            return UploadStep::Fail(error);
        }
        if is_upload_timeout(&error) {
            return UploadStep::Retry { serialize: true };
        }
        if is_expired_upload_token(&error) {
            if let Some(request) = &self.job.request {
                return UploadStep::Renew(request.clone());
            }
        }
        UploadStep::Retry { serialize: false }
    }

    /// Takes in the answer to the request for another target.
    pub fn renewed(&mut self, prepared: BlockUploadPreparationResponse) -> (r: Result<
        (),
        ProtonError,
    >)
        ensures
            final(self).attempt == old(self).attempt,
            match r {
                Ok(()) => prepared.upload_targets@.len() > 0 && final(self).job == (UploadJob {
                    target: prepared.upload_targets@[0],
                    ..old(self).job
                }),
                Err(e) => prepared.upload_targets@.len() == 0 && *final(self) == *old(self)
                    && invalid(e, "block upload preparation returned no target"@),
            },
    {
        let mut targets: Vec<BlockUploadTarget> = prepared.upload_targets;
        if targets.len() == 0 {
            return Err(
                ProtonError::invalid_operation("block upload preparation returned no target"),
            );
        }
        self.job.target = targets.remove(0);
        Ok(())
    }
}

// ---------------------------------------------------------------------------
// Storing all blocks
// ---------------------------------------------------------------------------

/// Blocks being stored batch by batch: the thumbnails that still wait for a batch,
/// and what is stored. Thumbnails go with the first batch.
#[derive(Debug, PartialEq, Eq)]
pub struct BatchRun {
    pub pending_thumbnails: Vec<EncryptedThumbnail>,
    pub stored: Vec<(i32, [u8; 32])>,
}

impl BatchRun {
    pub fn start(thumbnails: Vec<EncryptedThumbnail>) -> (run: BatchRun)
        ensures
            run.pending_thumbnails == thumbnails,
            run.stored@.len() == 0,
    {
        BatchRun { pending_thumbnails: thumbnails, stored: Vec::new() }
    }

    /// The thumbnails that go with the next batch: all of them with the first, and
    /// none with any other.
    pub fn thumbnails_for_batch(&mut self) -> (r: Vec<EncryptedThumbnail>)
        ensures
            r@ == old(self).pending_thumbnails@,
            final(self).pending_thumbnails@.len() == 0,
            final(self).stored == old(self).stored,
    {
        let mut taken: Vec<EncryptedThumbnail> = Vec::new();
        taken.append(&mut self.pending_thumbnails);
        assert(taken@ =~= old(self).pending_thumbnails@);
        taken
    }

    /// Takes in what was stored of a batch.
    pub fn stored_batch(&mut self, outcomes: Vec<Option<(i32, [u8; 32])>>)
        ensures
            final(self).pending_thumbnails == old(self).pending_thumbnails,
            final(self).stored@ == old(self).stored@ + content_entries(outcomes@),
    {
        let ghost start = self.stored@;
        let mut i: usize = 0;
        assert(outcomes@.take(0) =~= Seq::<Option<(i32, [u8; 32])>>::empty());
        assert(self.stored@ =~= start + content_entries(outcomes@.take(0)));
        while i < outcomes.len()
            invariant
                i <= outcomes@.len(),
                self.pending_thumbnails == old(self).pending_thumbnails,
                self.stored@ == start + content_entries(outcomes@.take(i as int)),
            decreases outcomes@.len() - i,
        {
            assert(outcomes@.take(i + 1).drop_last() =~= outcomes@.take(i as int));
            match outcomes[i] {
                Some(entry) => self.stored.push(entry),
                None => {},
            }
            i += 1;
            assert(self.stored@ =~= start + content_entries(outcomes@.take(i as int)));
        }
        assert(outcomes@.take(i as int) =~= outcomes@);
    }
}

/// What goes into the manifest of what was stored.
pub open spec fn content_entries(outcomes: Seq<Option<(i32, [u8; 32])>>) -> Seq<(i32, [u8; 32])>
    decreases outcomes.len(),
{
    if outcomes.len() == 0 {
        Seq::empty()
    } else {
        let before = content_entries(outcomes.drop_last());
        match outcomes.last() {
            Some(entry) => before.push(entry),
            None => before,
        }
    }
}

/// What writing the blocks of a revision came to.
#[derive(Debug, PartialEq, Eq)]
pub struct BlockWriteResult {
    pub manifest: Vec<u8>,
    pub block_sizes: Vec<i32>,
    pub total_size: i64,
    pub sha1_hex: String,
}

/// What is said when not every block was stored.
pub open spec fn short_store(stored: nat, read: nat) -> Seq<char> {
    "upload stored "@ + decimal(stored) + " of "@ + decimal(read) + " content blocks"@
}

/// What writing the blocks came to. Every block that was read must have been
/// stored.
pub fn write_result(
    thumbnail_digests: &[[u8; 32]],
    stored: Vec<(i32, [u8; 32])>,
    read: (Vec<i32>, i64, String),
) -> (r: Result<BlockWriteResult, ProtonError>)
    ensures
        match r {
            Ok(written) => {
                &&& stored@.len() == read.0@.len()
                &&& written.manifest@ == manifest_of(thumbnail_digests@, stored@)
                &&& written.block_sizes == read.0
                &&& written.total_size == read.1
                &&& written.sha1_hex == read.2
            },
            Err(e) => stored@.len() != read.0@.len() && invalid(
                e,
                short_store(stored@.len(), read.0@.len()),
            ) && invalid(
                e,
                "upload stored "@ + decimal(stored@.len()) + " of "@ + decimal(read.0@.len())
                    + " content blocks"@,
            ),
        },
{
    let (block_sizes, total_size, sha1_hex): (Vec<i32>, i64, String) = read;
    if stored.len() != block_sizes.len() {
        let mut message: String = owned("upload stored ");
        push_decimal(&mut message, stored.len() as u64);
        message.append(" of ");
        push_decimal(&mut message, block_sizes.len() as u64);
        message.append(" content blocks");
        return Err(ProtonError::InvalidOperation(message));
    }
    Ok(
        BlockWriteResult {
            manifest: assemble_manifest(thumbnail_digests, stored),
            block_sizes,
            total_size,
            sha1_hex,
        },
    )
}

/// What goes into the manifest is what was stored and has an index, in the order in
/// which it was stored.
pub proof fn law_manifest_entries_are_what_was_stored(outcomes: Seq<Option<(i32, [u8; 32])>>)
    ensures
        content_entries(outcomes) == outcomes.filter(
            |outcome: Option<(i32, [u8; 32])>| outcome is Some,
        ).map_values(|outcome: Option<(i32, [u8; 32])>| outcome->0),
    decreases outcomes.len(),
{
    reveal(Seq::filter);
    if outcomes.len() > 0 {
        law_manifest_entries_are_what_was_stored(outcomes.drop_last());
    }
    assert(content_entries(outcomes) =~= outcomes.filter(
        |outcome: Option<(i32, [u8; 32])>| outcome is Some,
    ).map_values(|outcome: Option<(i32, [u8; 32])>| outcome->0));
}

/// An upload signs the manifest that a download rebuilds: the jobs of encrypted blocks
/// give as manifest the digests of the very ciphertexts that they store.
pub proof fn law_upload_signs_what_a_download_rebuilds(
    batch: Seq<PreparedBlock>,
    targets: Seq<BlockUploadTarget>,
    jobs: Seq<UploadJob>,
    entries: Seq<(i32, [u8; 32])>,
    thumbnails: Seq<ThumbnailDto>,
    digests: Seq<[u8; 32]>,
)
    requires
        batch.len() <= usize::MAX,
        targets.len() == batch.len(),
        jobs.len() == batch.len(),
        entries.len() == batch.len(),
        forall|i: int|
            0 <= i < batch.len() ==> (#[trigger] batch[i]).digest@ == sha256_of(
                batch[i].ciphertext@,
            ),
        forall|i: int, j: int|
            0 <= i < j < batch.len() ==> (#[trigger] batch[i]).request.index < (
            #[trigger] batch[j]).request.index,
        forall|i: int|
            0 <= i < batch.len() ==> #[trigger] jobs[i] == block_job(batch[i], targets[i]),
        forall|i: int|
            0 <= i < batch.len() ==> jobs[i].index is Some && #[trigger] entries[i] == (
                jobs[i].index->0,
                jobs[i].digest,
            ),
        thumbnails.len() == digests.len(),
        forall|i: int|
            0 <= i < digests.len() ==> (#[trigger] by_type(thumbnails)[i]).hash_digest is Some
                && trimmed_text(by_type(thumbnails)[i].hash_digest->0@) == base64_text(digests[i]@),
        by_type(thumbnails).len() == digests.len(),
    ensures
        forall|i: int|
            0 <= i < jobs.len() ==> (#[trigger] jobs[i]).digest@ == sha256_of(jobs[i].ciphertext@)
                && jobs[i].ciphertext == batch[i].ciphertext && jobs[i].index == Some(
                batch[i].request.index,
            ) && jobs[i].target == targets[i],
        manifest_of(digests, entries) == digests_of(by_type(thumbnails)) + stored_digests(
            Seq::new(jobs.len(), |i: int| jobs[i].ciphertext@),
        ),
{
    let ciphertexts = Seq::new(jobs.len(), |i: int| jobs[i].ciphertext@);
    assert forall|i: int| 0 <= i < entries.len() implies (#[trigger] entries[i]).1@ == sha256_of(
        ciphertexts[i],
    ) by {
        assert(jobs[i] == block_job(batch[i], targets[i]));
        assert(batch[i].digest@ == sha256_of(batch[i].ciphertext@));
    }
    assert forall|i: int, j: int| 0 <= i < j < entries.len() implies (#[trigger] entries[i]).0 < (
    #[trigger] entries[j]).0 by {
        assert(jobs[i] == block_job(batch[i], targets[i]));
        assert(jobs[j] == block_job(batch[j], targets[j]));
        assert(batch[i].request.index < batch[j].request.index);
    }
    law_download_rebuilds_the_manifest(thumbnails, digests, ciphertexts, entries);
}

/// A job goes to the target of its own block or thumbnail: where a target names the index
/// of a block, or the type of a thumbnail, that is no other's, the job is sent to a target
/// that names it.
pub proof fn law_jobs_go_to_the_target_that_names_them(
    batch: Seq<PreparedBlock>,
    thumbnails: Seq<EncryptedThumbnail>,
    targets: Seq<BlockUploadTarget>,
    i: int,
    k: int,
)
    requires
        0 <= k < targets.len(),
    ensures
        0 <= i < batch.len() && targets[k].index == Some(batch[i].request.index) && (forall|a: int|
            0 <= a < i ==> (#[trigger] batch[a]).request.index != batch[i].request.index) ==> {
            let job = block_job(batch[i], target_for(targets, false, block_labels(batch), i));
            &&& is_placed(targets, false, block_labels(batch), i)
            &&& job.target.index == job.index
            &&& job.index == Some(batch[i].request.index)
            &&& job.ciphertext == batch[i].ciphertext
            &&& job.digest == batch[i].digest
            &&& job.request == Some(batch[i].request)
            &&& targets.contains(job.target)
        },
        0 <= i < thumbnails.len() && targets[k].thumbnail_type == Some(
            thumbnails[i].thumbnail_type,
        ) && (forall|a: int|
            0 <= a < i ==> (#[trigger] thumbnails[a]).thumbnail_type
                != thumbnails[i].thumbnail_type) ==> {
            let job = thumbnail_job(
                thumbnails[i],
                target_for(targets, true, thumbnail_labels(thumbnails), i),
            );
            &&& is_placed(targets, true, thumbnail_labels(thumbnails), i)
            &&& job.target.thumbnail_type == Some(thumbnails[i].thumbnail_type)
            &&& job.index is None
            &&& job.request is None
            &&& job.ciphertext == thumbnails[i].ciphertext
            &&& job.digest == thumbnails[i].digest
            &&& targets.contains(job.target)
        },
{
    let indices = block_labels(batch);
    let types = thumbnail_labels(thumbnails);
    if 0 <= i < batch.len() && targets[k].index == Some(batch[i].request.index) && (forall|a: int|
        0 <= a < i ==> (#[trigger] batch[a]).request.index != batch[i].request.index) {
        assert forall|a: int| 0 <= a < i implies indices[a] != indices[i] by {
            assert(batch[a].request.index != batch[i].request.index);
        }
        law_named_targets_reach_their_blocks(targets, indices, i, k);
    }
    if 0 <= i < thumbnails.len() && targets[k].thumbnail_type == Some(
        thumbnails[i].thumbnail_type,
    ) && (forall|a: int|
        0 <= a < i ==> (#[trigger] thumbnails[a]).thumbnail_type != thumbnails[i].thumbnail_type) {
        assert forall|a: int| 0 <= a < i implies types[a] != types[i] by {
            assert(thumbnails[a].thumbnail_type != thumbnails[i].thumbnail_type);
        }
        law_named_targets_reach_their_blocks(targets, types, i, k);
    }
}

} // verus!
