//! The photo library: photos that are there already, and tags.

use vstd::prelude::*;
use vstd::string::{StrSliceExecFns, StringExecFns};

use crate::digest::{hex_text, name_hash, name_hash_text, sha1_hex, sha1_of};
use crate::dtos::{
    FindPhotoDuplicatesRequest, FindPhotoDuplicatesResponse, PhotoDuplicateDto, PhotoTagsRequest,
};
use crate::error::{invalid, ProtonError};
use crate::ids::{LinkId, NodeUid, VolumeId};
use crate::photos::{PhotoTag, PhotoTagsUpdate};
use crate::sealing::{tag_wires, wires_of_tags};
use crate::text::{chars_of, owned};

verus! {

// ---------------------------------------------------------------------------
// Duplicates
// ---------------------------------------------------------------------------

/// A character with a small letter in place of a capital, within ASCII.
pub open spec fn ascii_folded(c: char) -> char {
    if 'A' <= c && c <= 'Z' {
        ((c as u32) + 32) as char
    } else {
        c
    }
}

/// Whether two texts are the same but for the case of ASCII letters.
pub open spec fn same_but_case(a: Seq<char>, b: Seq<char>) -> bool {
    &&& a.len() == b.len()
    &&& forall|i: int| 0 <= i < a.len() ==> ascii_folded(#[trigger] a[i]) == ascii_folded(b[i])
}

fn fold_ascii(c: char) -> (r: char)
    ensures
        r == ascii_folded(c),
{
    let v: u32 = c as u32;
    if 65 <= v && v <= 90 {
        ((v + 32) as u8) as char
    } else {
        c
    }
}

/// Whether two texts are the same but for the case of ASCII letters.
pub fn eq_ignore_ascii_case(a: &str, b: &str) -> (r: bool)
    ensures
        r == same_but_case(a@, b@),
{
    let left: Vec<char> = chars_of(a);
    let right: Vec<char> = chars_of(b);
    if left.len() != right.len() {
        return false;
    }
    let mut i: usize = 0;
    while i < left.len()
        invariant
            i <= left@.len() == right@.len(),
            left@ == a@,
            right@ == b@,
            forall|j: int| 0 <= j < i ==> ascii_folded(#[trigger] a@[j]) == ascii_folded(b@[j]),
        decreases left@.len() - i,
    {
        if fold_ascii(left[i]) != fold_ascii(right[i]) {
            assert(ascii_folded(a@[i as int]) != ascii_folded(b@[i as int]));
            return false;
        }
        i += 1;
    }
    true
}

/// Whether a photo that has one of the names can be a duplicate: it is active, and
/// both its hashes are known.
pub open spec fn is_candidate(dto: PhotoDuplicateDto) -> bool {
    &&& dto.link_id is Some
    &&& dto.link_state == Some(1i32)
    &&& dto.name_hash@.len() > 0
    &&& dto.content_hash@.len() > 0
}

/// Whether a photo is a duplicate: its name and its content both match.
pub open spec fn is_duplicate(
    dto: PhotoDuplicateDto,
    name_hash: Seq<char>,
    content_hash: Seq<char>,
) -> bool {
    &&& is_candidate(dto)
    &&& same_but_case(dto.name_hash@, name_hash)
    &&& same_but_case(dto.content_hash@, content_hash)
}

/// The links of the photos that are duplicates, in order.
pub open spec fn duplicate_links(
    found: Seq<PhotoDuplicateDto>,
    name_hash: Seq<char>,
    content_hash: Seq<char>,
) -> Seq<LinkId>
    decreases found.len(),
{
    if found.len() == 0 {
        Seq::empty()
    } else {
        let before = duplicate_links(found.drop_last(), name_hash, content_hash);
        if is_duplicate(found.last(), name_hash, content_hash) {
            before.push(found.last().link_id->0)
        } else {
            before
        }
    }
}

/// Whether the nodes are the links on a volume.
pub open spec fn are_nodes_of(uids: Seq<NodeUid>, volume_id: VolumeId, links: Seq<LinkId>) -> bool {
    &&& uids.len() == links.len()
    &&& forall|i: int|
        0 <= i < uids.len() ==> #[trigger] uids[i] == (NodeUid { volume_id, link_id: links[i] })
}

/// The photos that have the name and the content, by their hashes.
pub fn matching_photos(
    volume_id: &VolumeId,
    found: &Vec<PhotoDuplicateDto>,
    name_hash: &str,
    content_hash: &str,
) -> (r: Vec<NodeUid>)
    ensures
        are_nodes_of(r@, *volume_id, duplicate_links(found@, name_hash@, content_hash@)),
{
    let mut out: Vec<NodeUid> = Vec::new();
    let mut i: usize = 0;
    assert(found@.take(0) =~= Seq::<PhotoDuplicateDto>::empty());
    while i < found.len()
        invariant
            i <= found@.len(),
            are_nodes_of(
                out@,
                *volume_id,
                duplicate_links(found@.take(i as int), name_hash@, content_hash@),
            ),
        decreases found@.len() - i,
    {
        assert(found@.take(i + 1).drop_last() =~= found@.take(i as int));
        let dto: &PhotoDuplicateDto = &found[i];
        let active: bool = match dto.link_state {
            Some(state) => state == 1,
            None => false,
        };
        if active && dto.name_hash.as_str().unicode_len() > 0
            && dto.content_hash.as_str().unicode_len() > 0 && eq_ignore_ascii_case(
            dto.name_hash.as_str(),
            name_hash,
        ) && eq_ignore_ascii_case(dto.content_hash.as_str(), content_hash) {
            if let Some(link_id) = &dto.link_id {
                out.push(NodeUid::new(volume_id.clone(), link_id.clone()));
            }
        }
        i += 1;
    }
    assert(found@.take(i as int) =~= found@);
    out
}

/// The hash of a photo's content: that of its SHA-1 in hex, under the hash key of
/// the folder.
pub open spec fn content_hash_text(hash_key: Seq<u8>, contents: Seq<u8>) -> Seq<char> {
    name_hash_text(hash_key, vstd::utf8::encode_utf8(hex_text(sha1_of(contents))))
}

/// The request that asks for photos with a name.
pub fn duplicates_request(hash_key: &[u8], name: &str) -> (r: FindPhotoDuplicatesRequest)
    ensures
        r.name_hashes@.len() == 1,
        r.name_hashes@[0]@ == name_hash_text(hash_key@, vstd::utf8::encode_utf8(name@)),
{
    let mut name_hashes: Vec<String> = Vec::new();
    name_hashes.push(name_hash(hash_key, name.as_bytes()));
    FindPhotoDuplicatesRequest { name_hashes }
}

/// The photos that have the same name and the same content, out of those that the
/// server found by name.
pub fn find_photo_duplicates(
    volume_id: &VolumeId,
    hash_key: &[u8],
    name: &str,
    contents: &[u8],
    response: &FindPhotoDuplicatesResponse,
) -> (r: Vec<NodeUid>)
    ensures
        are_nodes_of(
            r@,
            *volume_id,
            duplicate_links(
                response.duplicate_hashes@,
                name_hash_text(hash_key@, vstd::utf8::encode_utf8(name@)),
                content_hash_text(hash_key@, contents@),
            ),
        ),
{
    let name_hash_digits: String = name_hash(hash_key, name.as_bytes());
    let sha1: String = sha1_hex(contents);
    let content_hash: String = name_hash(hash_key, sha1.as_str().as_bytes());
    matching_photos(
        volume_id,
        &response.duplicate_hashes,
        name_hash_digits.as_str(),
        content_hash.as_str(),
    )
}

/// The route that asks for duplicates.
pub fn duplicates_path(volume_id: &VolumeId) -> (path: String)
    ensures
        path@ == "volumes/"@ + volume_id@ + "/photos/duplicates"@,
{
    let mut path: String = owned("volumes/");
    path.append(volume_id.as_str());
    path.append("/photos/duplicates");
    path
}

// ---------------------------------------------------------------------------
// Tags
// ---------------------------------------------------------------------------

/// One request of a tag update.
#[derive(Debug, PartialEq, Eq)]
pub enum TagStep {
    /// Mark the photo as a favorite, at this route.
    Favorite(String),
    /// Set tags, at this route.
    AddTags(String, PhotoTagsRequest),
    /// Take tags off, at this route.
    RemoveTags(String, PhotoTagsRequest),
}

/// The tags other than the favorite mark.
pub open spec fn plain_tags(tags: Seq<PhotoTag>) -> Seq<PhotoTag>
    decreases tags.len(),
{
    if tags.len() == 0 {
        Seq::empty()
    } else {
        let before = plain_tags(tags.drop_last());
        if tags.last() == PhotoTag::Favorite {
            before
        } else {
            before.push(tags.last())
        }
    }
}

/// The start of the routes of a photo.
pub open spec fn photo_route(uid: NodeUid) -> Seq<char> {
    "photos/volumes/"@ + uid.volume_id@ + "/links/"@ + uid.link_id@
}

/// Whether the step marks the photo as a favorite.
pub open spec fn is_favorite_step(step: TagStep, uid: NodeUid) -> bool {
    step matches TagStep::Favorite(path) && path@ == photo_route(uid) + "/favorite"@
}

/// Whether the step sets the tags.
pub open spec fn is_set_step(step: TagStep, uid: NodeUid, tags: Seq<PhotoTag>) -> bool {
    step matches TagStep::AddTags(path, request) && path@ == photo_route(uid) + "/tags"@
        && request.tags@ == tag_wires(tags)
}

/// Whether the step takes the tags off.
pub open spec fn is_unset_step(step: TagStep, uid: NodeUid, tags: Seq<PhotoTag>) -> bool {
    step matches TagStep::RemoveTags(path, request) && path@ == photo_route(uid) + "/tags"@
        && request.tags@ == tag_wires(tags)
}

/// Whether the photo is on the account's own photos volume.
pub open spec fn is_own_photo(update: PhotoTagsUpdate, own: Option<&VolumeId>) -> bool {
    own is Some && own->0@ == update.node_uid.volume_id@
}

/// Whether the steps are those of the update: the favorite mark first, then the
/// other tags to set, then those to take off. What there is nothing of is left out.
pub open spec fn are_tag_steps(steps: Seq<TagStep>, update: PhotoTagsUpdate) -> bool {
    let favorite = update.tags_to_add@.contains(PhotoTag::Favorite);
    let set = plain_tags(update.tags_to_add@);
    let unset = update.tags_to_remove@;
    let a: int = if favorite {
        1
    } else {
        0
    };
    let b: int = if set.len() > 0 {
        1
    } else {
        0
    };
    let c: int = if unset.len() > 0 {
        1
    } else {
        0
    };
    &&& steps.len() == a + b + c
    &&& favorite ==> is_favorite_step(steps[0], update.node_uid)
    &&& set.len() > 0 ==> is_set_step(steps[a], update.node_uid, set)
    &&& unset.len() > 0 ==> is_unset_step(steps[a + b], update.node_uid, unset)
}

fn photo_path(uid: &NodeUid, part: &str) -> (path: String)
    ensures
        path@ == photo_route(*uid) + part@,
{
    let mut path: String = owned("photos/volumes/");
    path.append(uid.volume_id.as_str());
    path.append("/links/");
    path.append(uid.link_id.as_str());
    path.append(part);
    path
}

/// The requests of a tag update, in order. A photo can be marked as a favorite on
/// the account's own photos volume only.
pub fn apply_tag_update(update: &PhotoTagsUpdate, own_photos_volume: Option<&VolumeId>) -> (r:
    Result<Vec<TagStep>, ProtonError>)
    ensures
        match r {
            Ok(steps) => {
                &&& update.tags_to_add@.contains(PhotoTag::Favorite) ==> is_own_photo(
                    *update,
                    own_photos_volume,
                )
                &&& are_tag_steps(steps@, *update)
            },
            Err(e) => {
                &&& update.tags_to_add@.contains(PhotoTag::Favorite)
                &&& !is_own_photo(*update, own_photos_volume)
                &&& invalid(
                    e,
                    "favoriting a photo that is not on this account's photos volume is not supported yet"@,
                )
            },
        },
{
    let mut favorite: bool = false;
    let mut plain: Vec<PhotoTag> = Vec::new();
    let mut i: usize = 0;
    assert(update.tags_to_add@.take(0) =~= Seq::<PhotoTag>::empty());
    while i < update.tags_to_add.len()
        invariant
            i <= update.tags_to_add@.len(),
            favorite == exists|j: int|
                0 <= j < i && #[trigger] update.tags_to_add@[j] == PhotoTag::Favorite,
            plain@ == plain_tags(update.tags_to_add@.take(i as int)),
        decreases update.tags_to_add@.len() - i,
    {
        assert(update.tags_to_add@.take(i + 1).drop_last() =~= update.tags_to_add@.take(i as int));
        let tag: PhotoTag = update.tags_to_add[i];
        if tag == PhotoTag::Favorite {
            favorite = true;
        } else {
            plain.push(tag);
        }
        i += 1;
    }
    assert(update.tags_to_add@.take(i as int) =~= update.tags_to_add@);
    assert(favorite == update.tags_to_add@.contains(PhotoTag::Favorite));
    let mut steps: Vec<TagStep> = Vec::new();
    if favorite {
        let own: bool = match own_photos_volume {
            Some(volume_id) => volume_id.same_as(&update.node_uid.volume_id),
            None => false,
        };
        if !own {
            return Err(
                ProtonError::invalid_operation(
                    "favoriting a photo that is not on this account's photos volume is not supported yet",
                ),
            );
        }
        steps.push(TagStep::Favorite(photo_path(&update.node_uid, "/favorite")));
    }
    if plain.len() > 0 {
        let tags: Vec<i32> = wires_of_tags(&plain);
        steps.push(TagStep::AddTags(photo_path(&update.node_uid, "/tags"), PhotoTagsRequest { tags }));
    }
    if update.tags_to_remove.len() > 0 {
        let tags: Vec<i32> = wires_of_tags(&update.tags_to_remove);
        steps.push(
            TagStep::RemoveTags(photo_path(&update.node_uid, "/tags"), PhotoTagsRequest { tags }),
        );
    }
    Ok(steps)
}

/// The favorite mark is never sent as a plain tag, and no other tag gets lost.
pub proof fn law_favorites_are_no_plain_tags(tags: Seq<PhotoTag>)
    ensures
        !plain_tags(tags).contains(PhotoTag::Favorite),
        forall|i: int|
            0 <= i < tags.len() && #[trigger] tags[i] != PhotoTag::Favorite ==> plain_tags(
                tags,
            ).contains(tags[i]),
    decreases tags.len(),
{
    if tags.len() > 0 {
        let fewer = tags.drop_last();
        law_favorites_are_no_plain_tags(fewer);
        let before = plain_tags(fewer);
        let after = plain_tags(tags);
        if after.contains(PhotoTag::Favorite) {
            let k = choose|k: int| 0 <= k < after.len() && after[k] == PhotoTag::Favorite;
            if k < before.len() {
                assert(before[k] == PhotoTag::Favorite);
                assert(before.contains(PhotoTag::Favorite));
            }
        }
        assert forall|i: int|
            0 <= i < tags.len() && #[trigger] tags[i] != PhotoTag::Favorite implies after.contains(
            tags[i],
        ) by {
            if i < fewer.len() {
                assert(fewer[i] == tags[i]);
                let k = choose|k: int| 0 <= k < before.len() && before[k] == tags[i];
                assert(after[k] == tags[i]);
            } else {
                assert(after.last() == tags[i]);
            }
        }
    }
}

// ---------------------------------------------------------------------------
// Updating several photos
// ---------------------------------------------------------------------------

/// What the update of several photos does next.
#[derive(Debug, PartialEq, Eq)]
pub enum PhotoUpdateStep {
    /// Send this request.
    Send(TagStep),
    /// Report what became of a photo.
    Report(NodeUid, Result<(), ProtonError>),
    /// Every photo was reported.
    End,
}

/// The update of several photos under way: the updates still to be made, and the
/// requests left of the one under way. A photo that fails does not stop the others.
#[derive(Debug, PartialEq, Eq)]
pub struct PhotoUpdateRun {
    pub pending: Vec<PhotoTagsUpdate>,
    pub own_photos_volume: Option<VolumeId>,
    pub current: Option<NodeUid>,
    pub steps: Vec<TagStep>,
}

/// Whether an update is refused before anything is sent.
pub open spec fn is_refused(update: PhotoTagsUpdate, own: Option<VolumeId>) -> bool {
    &&& update.tags_to_add@.contains(PhotoTag::Favorite)
    &&& !(own is Some && own->0@ == update.node_uid.volume_id@)
}

impl PhotoUpdateRun {
    /// The photos that are still to be reported, in order.
    pub open spec fn owed(self) -> Seq<NodeUid> {
        let waiting = Seq::new(self.pending@.len(), |i: int| self.pending@[i].node_uid);
        match self.current {
            Some(uid) => seq![uid] + waiting,
            None => waiting,
        }
    }

    pub open spec fn well_formed(self) -> bool {
        self.current is None ==> self.steps@.len() == 0
    }

    /// Starts the update. The photos volume of the account is `None` where there is
    /// none.
    pub fn start(updates: Vec<PhotoTagsUpdate>, own_photos_volume: Option<VolumeId>) -> (run:
        PhotoUpdateRun)
        ensures
            run.well_formed(),
            run.pending == updates,
            run.own_photos_volume == own_photos_volume,
            run.current is None,
            run.owed() == Seq::new(updates@.len(), |i: int| updates@[i].node_uid),
    {
        PhotoUpdateRun { pending: updates, own_photos_volume, current: None, steps: Vec::new() }
    }

    /// What to do next: send what is left of the update under way, report it once
    /// nothing is left, and take up the next one. Each photo is reported once, in the
    /// order in which the updates were given.
    pub fn next(&mut self) -> (step: PhotoUpdateStep)
        requires
            old(self).well_formed(),
        ensures
            final(self).well_formed(),
            final(self).own_photos_volume == old(self).own_photos_volume,
            match old(self).current {
                Some(uid) => {
                    &&& final(self).pending@ == old(self).pending@
                    &&& if old(self).steps@.len() > 0 {
                        &&& step == PhotoUpdateStep::Send(old(self).steps@[0])
                        &&& final(self).current == old(self).current
                        &&& final(self).steps@ == old(self).steps@.skip(1)
                    } else {
                        &&& step == PhotoUpdateStep::Report(uid, Ok(()))
                        &&& final(self).current is None
                    }
                },
                None => if old(self).pending@.len() == 0 {
                    step == PhotoUpdateStep::End && *final(self) == *old(self)
                } else {
                    let update = old(self).pending@[0];
                    &&& final(self).pending@ == old(self).pending@.skip(1)
                    &&& match step {
                        PhotoUpdateStep::Send(request) => {
                            &&& !is_refused(update, old(self).own_photos_volume)
                            &&& final(self).current == Some(update.node_uid)
                            &&& are_tag_steps(seq![request] + final(self).steps@, update)
                        },
                        PhotoUpdateStep::Report(uid, outcome) => {
                            &&& uid == update.node_uid
                            &&& final(self).current is None
                            &&& if is_refused(update, old(self).own_photos_volume) {
                                outcome is Err && invalid(
                                    outcome->Err_0,
                                    "favoriting a photo that is not on this account's photos volume is not supported yet"@,
                                )
                            } else {
                                outcome is Ok && are_tag_steps(Seq::empty(), update)
                            }
                        },
                        PhotoUpdateStep::End => false,
                    }
                },
            },
            match step {
                PhotoUpdateStep::Send(_) => final(self).owed() == old(self).owed(),
                PhotoUpdateStep::Report(uid, _) => {
                    old(self).owed() == seq![uid] + final(self).owed()
                },
                PhotoUpdateStep::End => old(self).owed().len() == 0,
            },
    {
        let ghost before = *self;
        if self.current.is_none() {
            if self.pending.len() == 0 {
                return PhotoUpdateStep::End;
            }
            let update: PhotoTagsUpdate = self.pending.remove(0);
            let uid: NodeUid = update.node_uid.clone();
            assert(self.pending@ =~= before.pending@.skip(1));
            assert(before.owed() =~= seq![uid] + Seq::new(
                self.pending@.len(),
                |i: int| self.pending@[i].node_uid,
            ));
            match apply_tag_update(&update, self.own_photos_volume.as_ref()) {
                Ok(steps) => {
                    if steps.len() == 0 {
                        assert(steps@ =~= Seq::<TagStep>::empty());
                        return PhotoUpdateStep::Report(uid, Ok(()));
                    }
                    let mut steps: Vec<TagStep> = steps;
                    let ghost all = steps@;
                    let first: TagStep = steps.remove(0);
                    assert(seq![first] + steps@ =~= all);
                    self.steps = steps;
                    self.current = Some(uid);
                    return PhotoUpdateStep::Send(first);
                },
                Err(e) => {
                    return PhotoUpdateStep::Report(uid, Err(e));
                },
            }
        }
        if self.steps.len() == 0 {
            let mut current: Option<NodeUid> = None;
            std::mem::swap(&mut current, &mut self.current);
            match current {
                Some(uid) => {
                    assert(before.owed() =~= seq![uid] + self.owed());
                    PhotoUpdateStep::Report(uid, Ok(()))
                },
                None => PhotoUpdateStep::End,
            }
        } else {
            let first: TagStep = self.steps.remove(0);
            assert(self.steps@ =~= before.steps@.skip(1));
            PhotoUpdateStep::Send(first)
        }
    }

    /// A request of the update under way failed: nothing more is sent for that photo,
    /// and the failure is what is reported of it.
    pub fn failed(&mut self, error: ProtonError) -> (step: PhotoUpdateStep)
        requires
            old(self).well_formed(),
            old(self).current is Some,
        ensures
            final(self).well_formed(),
            final(self).own_photos_volume == old(self).own_photos_volume,
            final(self).pending == old(self).pending,
            final(self).current is None,
            step == PhotoUpdateStep::Report(old(self).current->0, Err(error)),
            old(self).owed() == seq![old(self).current->0] + final(self).owed(),
    {
        let ghost before = *self;
        self.steps = Vec::new();
        let mut current: Option<NodeUid> = None;
        std::mem::swap(&mut current, &mut self.current);
        match current {
            Some(uid) => {
                assert(before.owed() =~= seq![uid] + self.owed());
                PhotoUpdateStep::Report(uid, Err(error))
            },
            None => PhotoUpdateStep::End,
        }
    }
}

/// Two texts are the same but for case when they differ in ASCII letters at most, and
/// there only in their case.
pub proof fn law_case_is_all_that_may_differ(a: Seq<char>, b: Seq<char>)
    ensures
        same_but_case(a, b) <==> a.len() == b.len() && forall|i: int|
            0 <= i < a.len() ==> #[trigger] a[i] == b[i] || ('A' <= a[i] <= 'Z' && b[i] as int
                == a[i] as int + 32) || ('A' <= b[i] <= 'Z' && a[i] as int == b[i] as int + 32),
        same_but_case(a, b) <==> same_but_case(b, a),
{
    assert forall|c: char, d: char| #[trigger] ascii_folded(c) == #[trigger] ascii_folded(d) <==> c
        == d || ('A' <= c <= 'Z' && d as int == c as int + 32) || ('A' <= d <= 'Z' && c as int
        == d as int + 32) by {}
    if same_but_case(a, b) {
        assert forall|i: int| 0 <= i < a.len() implies #[trigger] a[i] == b[i] || ('A' <= a[i]
            <= 'Z' && b[i] as int == a[i] as int + 32) || ('A' <= b[i] <= 'Z' && a[i] as int
            == b[i] as int + 32) by {
            assert(ascii_folded(a[i]) == ascii_folded(b[i]));
        }
        assert forall|i: int| 0 <= i < b.len() implies ascii_folded(#[trigger] b[i])
            == ascii_folded(a[i]) by {
            assert(ascii_folded(a[i]) == ascii_folded(b[i]));
        }
    }
    if same_but_case(b, a) {
        assert forall|i: int| 0 <= i < a.len() implies ascii_folded(#[trigger] a[i])
            == ascii_folded(b[i]) by {
            assert(ascii_folded(b[i]) == ascii_folded(a[i]));
        }
    }
    if a.len() == b.len() && forall|i: int|
        0 <= i < a.len() ==> #[trigger] a[i] == b[i] || ('A' <= a[i] <= 'Z' && b[i] as int
            == a[i] as int + 32) || ('A' <= b[i] <= 'Z' && a[i] as int == b[i] as int + 32) {
        assert forall|i: int| 0 <= i < a.len() implies ascii_folded(#[trigger] a[i])
            == ascii_folded(b[i]) by {}
    }
}

/// A photo counts as a duplicate when it is active, has a link, and has the same two
/// hashes, of its name and of its contents. The duplicates come in the order of the
/// answer.
pub proof fn law_duplicates_have_both_hashes(
    found: Seq<PhotoDuplicateDto>,
    name_hash: Seq<char>,
    content_hash: Seq<char>,
    hash_key: Seq<u8>,
    contents: Seq<u8>,
)
    ensures
        duplicate_links(found, name_hash, content_hash) == found.filter(
            |dto: PhotoDuplicateDto|
                dto.link_id is Some && dto.link_state == Some(1i32) && dto.name_hash@.len() > 0
                    && dto.content_hash@.len() > 0 && same_but_case(dto.name_hash@, name_hash)
                    && same_but_case(dto.content_hash@, content_hash),
        ).map_values(|dto: PhotoDuplicateDto| dto.link_id->0),
        content_hash_text(hash_key, contents) == hex_text(
            crate::digest::hmac_sha256_of(
                hash_key,
                vstd::utf8::encode_utf8(hex_text(sha1_of(contents))),
            ),
        ),
    decreases found.len(),
{
    reveal(Seq::filter);
    let same = |dto: PhotoDuplicateDto|
        dto.link_id is Some && dto.link_state == Some(1i32) && dto.name_hash@.len() > 0
            && dto.content_hash@.len() > 0 && same_but_case(dto.name_hash@, name_hash)
            && same_but_case(dto.content_hash@, content_hash);
    let link = |dto: PhotoDuplicateDto| dto.link_id->0;
    if found.len() > 0 {
        let fewer = found.drop_last();
        law_duplicates_have_both_hashes(fewer, name_hash, content_hash, hash_key, contents);
        assert(found.filter(same).map_values(link) =~= if same(found.last()) {
            fewer.filter(same).map_values(link).push(link(found.last()))
        } else {
            fewer.filter(same).map_values(link)
        });
    } else {
        assert(found.filter(same).map_values(link) =~= Seq::<LinkId>::empty());
    }
}

/// What an update of tags asks for: the favorite mark first, at a route of its own, then
/// the other tags to set, then all tags to take off. A part that has nothing to do is
/// left out.
pub proof fn law_tags_are_set_and_taken_off(steps: Seq<TagStep>, update: PhotoTagsUpdate)
    requires
        are_tag_steps(steps, update),
    ensures
        ({
            let route = "photos/volumes/"@ + update.node_uid.volume_id@ + "/links/"@
                + update.node_uid.link_id@;
            let favorite = update.tags_to_add@.contains(PhotoTag::Favorite);
            let set = update.tags_to_add@.filter(|tag: PhotoTag| tag != PhotoTag::Favorite);
            let unset = update.tags_to_remove@;
            let first: int = if favorite {
                1
            } else {
                0
            };
            &&& steps.len() == first + (if set.len() > 0 {
                1int
            } else {
                0
            }) + (if unset.len() > 0 {
                1int
            } else {
                0
            })
            &&& favorite ==> steps[0] is Favorite && steps[0]->Favorite_0@ == route + "/favorite"@
            &&& set.len() > 0 ==> {
                let step = steps[first];
                &&& step is AddTags
                &&& step->AddTags_0@ == route + "/tags"@
                &&& step->AddTags_1.tags@.len() == set.len()
                &&& forall|i: int|
                    0 <= i < set.len() ==> #[trigger] step->AddTags_1.tags@[i] == set[i].wire()
            }
            &&& unset.len() > 0 ==> {
                let step = steps.last();
                &&& step is RemoveTags
                &&& step->RemoveTags_0@ == route + "/tags"@
                &&& step->RemoveTags_1.tags@.len() == unset.len()
                &&& forall|i: int|
                    0 <= i < unset.len() ==> #[trigger] step->RemoveTags_1.tags@[i]
                        == unset[i].wire()
            }
        }),
{
    law_plain_tags_are_all_but_the_favorite(update.tags_to_add@);
}

/// The plain tags are all but the favorite mark, in order.
pub proof fn law_plain_tags_are_all_but_the_favorite(tags: Seq<PhotoTag>)
    ensures
        plain_tags(tags) == tags.filter(|tag: PhotoTag| tag != PhotoTag::Favorite),
    decreases tags.len(),
{
    reveal(Seq::filter);
    if tags.len() > 0 {
        law_plain_tags_are_all_but_the_favorite(tags.drop_last());
    }
}

/// A favorite is set on our own photos only, and every photo that was named is owed an
/// answer.
pub proof fn law_favorites_are_our_own(
    update: PhotoTagsUpdate,
    own: Option<VolumeId>,
    mine: Option<&VolumeId>,
    run: PhotoUpdateRun,
)
    ensures
        is_refused(update, own) <==> update.tags_to_add@.contains(PhotoTag::Favorite) && (own is None
            || own->0@ != update.node_uid.volume_id@),
        is_own_photo(update, mine) <==> mine is Some && mine->0@ == update.node_uid.volume_id@,
        run.owed().len() == run.pending@.len() + (if run.current is Some {
            1int
        } else {
            0
        }),
        run.current is Some ==> run.owed()[0] == run.current->0,
        forall|i: int|
            0 <= i < run.pending@.len() ==> run.owed()[i + run.owed().len() - run.pending@.len()]
                == (#[trigger] run.pending@[i]).node_uid,
{
}

/// The nodes of links are those links, in order, on the one volume.
pub proof fn law_nodes_of_links_are_on_the_volume(
    uids: Seq<NodeUid>,
    volume_id: VolumeId,
    links: Seq<LinkId>,
    i: int,
)
    requires
        are_nodes_of(uids, volume_id, links),
    ensures
        uids.len() == links.len(),
        0 <= i < uids.len() ==> uids[i].volume_id == volume_id && uids[i].link_id == links[i],
{
}

} // verus!
