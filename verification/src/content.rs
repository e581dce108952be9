//! What a file's content is read with: its key packet and revision, the manifest
//! that vouches for it, and the history of its revisions.

use vstd::prelude::*;
use vstd::string::{StrSliceExecFns, StringExecFns};

use crate::digest::{
    base64_complaint, base64_data, base64_decode, base64_text, is_base64, law_base64_is_injective,
    sha256, sha256_of,
};
use crate::dtos::{
    DecryptedCommonExtendedAttributes, FileDto, LinkDetailsDto, LinkDto, RevisionDto,
    RevisionListItemDto, ThumbnailDto,
};
use crate::error::{invalid, is_not_found, ProtonError};
use crate::ids::{uid_text, NodeUid};
use crate::node::RevisionState;
use crate::order::{
    arranged, comes_before, is_stable_order, lemma_stable_order_exists, stable_order,
    stable_order_of,
};
use crate::revision::{
    fetched_for, law_truthful_read_is_exact, plaintext_of, read_end, read_plan, read_result,
    total_size, truthful, Revision,
};
use crate::text::{joined, owned, trimmed, trimmed_text};
use crate::transport::DEFAULT_BLOCK_SIZE;

verus! {

// ---------------------------------------------------------------------------
// Links
// ---------------------------------------------------------------------------

/// What is said of a thing that is not there.
pub open spec fn missing(noun: Seq<char>, uid: (Seq<char>, Seq<char>)) -> Seq<char> {
    noun + " "@ + uid_text(uid) + " not found"@
}

/// The first of the links that were fetched for one node.
pub fn first_link(noun: &str, uid: &NodeUid, details: &Vec<LinkDetailsDto>) -> (r: Result<
    LinkDto,
    ProtonError,
>)
    ensures
        match r {
            Ok(link) => details@.len() > 0 && link == details@[0].link,
            Err(e) => details@.len() == 0 && invalid(e, missing(noun@, uid@)),
        },
{
    if details.len() == 0 {
        return Err(not_there(noun, uid));
    }
    Ok(details[0].link.clone())
}

fn not_there(noun: &str, uid: &NodeUid) -> (e: ProtonError)
    ensures
        invalid(e, missing(noun@, uid@)),
{
    let mut message: String = owned(noun);
    message.append(" ");
    message.append(uid.to_text().as_str());
    message.append(" not found");
    ProtonError::InvalidOperation(message)
}

/// The encrypted hash key of a folder or album, out of the links that were fetched
/// for it.
pub fn parent_hash_key(details: &Vec<LinkDetailsDto>) -> (r: Result<String, ProtonError>)
    ensures
        match r {
            Ok(key) => details@.len() > 0 && details@[0].hash_key() == Some(key),
            Err(e) => (details@.len() == 0 || details@[0].hash_key() is None) && invalid(
                e,
                "parent node is not a folder"@,
            ),
        },
{
    if details.len() > 0 {
        match details[0].folder_hash_key() {
            Some(key) => {
                return Ok(key.clone());
            },
            None => {},
        }
    }
    Err(ProtonError::invalid_operation("parent node is not a folder"))
}

// ---------------------------------------------------------------------------
// Base64 fields
// ---------------------------------------------------------------------------

/// The bytes that a base64 field stands for. White space around it is ignored, and
/// `what` says what was attempted.
pub fn decode_field(text: &str, what: &str) -> (r: Result<Vec<u8>, ProtonError>)
    ensures
        match r {
            Ok(data) => is_base64(trimmed_text(text@)) && data@ == base64_data(
                trimmed_text(text@),
            ),
            Err(e) => !is_base64(trimmed_text(text@)) && invalid(
                e,
                what@ + ": "@ + base64_complaint(trimmed_text(text@)),
            ),
        },
{
    let inner: String = trimmed(text);
    match base64_decode(inner.as_str()) {
        Ok(data) => {
            proof {
                assert(base64_text(data@) == inner@);
                law_base64_is_injective(base64_data(inner@), data@);
            }
            Ok(data)
        },
        Err(complaint) => {
            let mut message: String = owned(what);
            message.append(": ");
            message.append(complaint.as_str());
            Err(ProtonError::InvalidOperation(message))
        },
    }
}

// ---------------------------------------------------------------------------
// Opening a file
// ---------------------------------------------------------------------------

/// What it takes to open a file: the link, whose parent's key unlocks it, the
/// encrypted content key and the revision to read.
#[derive(Debug, PartialEq, Eq)]
pub struct FileContent {
    pub link: LinkDto,
    pub content_key_packet: Vec<u8>,
    pub revision_id: String,
}

/// What is opened: a file to be read, which can be a photo too, a photo, or a file
/// to be written, which cannot.
#[derive(Debug, Clone, Copy, PartialEq, Eq, Structural)]
pub enum ContentKind {
    File,
    Photo,
    Writable,
}

impl ContentKind {
    /// What it is called in messages.
    pub open spec fn noun(self) -> Seq<char> {
        match self {
            ContentKind::File => "file"@,
            ContentKind::Photo => "photo"@,
            ContentKind::Writable => "file"@,
        }
    }

    pub fn as_str(self) -> (s: &'static str)
        ensures
            s@ == self.noun(),
    {
        match self {
            ContentKind::File => "file",
            ContentKind::Photo => "photo",
            ContentKind::Writable => "file",
        }
    }

    /// The file data of a link.
    pub open spec fn data(self, details: LinkDetailsDto) -> Option<FileDto> {
        if self == ContentKind::Writable {
            details.file
        } else {
            details.file_data()
        }
    }

    fn data_of(self, details: &LinkDetailsDto) -> (r: Option<&FileDto>)
        ensures
            r is Some == self.data(*details) is Some,
            r is Some ==> *r->0 == self.data(*details)->0,
    {
        match self {
            ContentKind::Writable => match &details.file {
                Some(file) => Some(file),
                None => None,
            },
            _ => details.file_properties(),
        }
    }
}

/// Why a node's content cannot be opened, if it cannot: it is not there, it is no
/// file, its key packet is missing or garbled, or no revision is named and none is
/// active.
pub open spec fn content_refusal(
    kind: ContentKind,
    uid: (Seq<char>, Seq<char>),
    details: Seq<LinkDetailsDto>,
    named: bool,
) -> Option<Seq<char>> {
    if details.len() == 0 {
        Some(missing(kind.noun(), uid))
    } else {
        match kind.data(details[0]) {
            None => Some("node "@ + uid_text(uid) + " is not a file"@),
            Some(file) => match file.content_key_packet {
                None => Some(kind.noun() + " is missing its content key packet"@),
                Some(packet) => if !is_base64(trimmed_text(packet@)) {
                    Some(
                        "decode content key packet"@ + ": "@ + base64_complaint(
                            trimmed_text(packet@),
                        ),
                    )
                } else if !named && file.active_revision is None {
                    Some(kind.noun() + " has no active revision"@)
                } else {
                    None
                },
            },
        }
    }
}

/// What it takes to open the named revision of a file, or the active one when none
/// is named.
pub fn file_content(
    kind: ContentKind,
    uid: &NodeUid,
    details: &Vec<LinkDetailsDto>,
    revision_id: Option<&str>,
) -> (r: Result<FileContent, ProtonError>)
    ensures
        match content_refusal(kind, uid@, details@, revision_id is Some) {
            Some(message) => r is Err && invalid(r->Err_0, message),
            None => {
                &&& r matches Ok(content)
                &&& content.link == details@[0].link
                &&& content.content_key_packet@ == base64_data(
                    trimmed_text((kind.data(details@[0])->0).content_key_packet->0@),
                )
                &&& match revision_id {
                    Some(id) => content.revision_id@ == id@,
                    None => content.revision_id == (kind.data(details@[0])->0).active_revision->0.id,
                }
            },
        },
        content_refusal(kind, uid@, details@, revision_id is Some) is None ==> (r matches Ok(content)
            && content.link == details@[0].link && content.revision_id@ == (match revision_id {
            Some(id) => id@,
            None => (if details@[0].file is Some {
                details@[0].file->0
            } else {
                details@[0].photo->0.file
            }).active_revision->0.id@,
        })),
{
    if details.len() == 0 {
        return Err(not_there(kind.as_str(), uid));
    }
    let file = match kind.data_of(&details[0]) {
        Some(file) => file,
        None => {
            let mut message: String = owned("node ");
            message.append(uid.to_text().as_str());
            message.append(" is not a file");
            return Err(ProtonError::InvalidOperation(message));
        },
    };
    let packet: &String = match &file.content_key_packet {
        Some(packet) => packet,
        None => {
            return Err(
                ProtonError::InvalidOperation(
                    joined(kind.as_str(), " is missing its content key packet"),
                ),
            );
        },
    };
    let content_key_packet: Vec<u8> = match decode_field(
        packet.as_str(),
        "decode content key packet",
    ) {
        Ok(data) => data,
        Err(e) => {
            return Err(e);
        },
    };
    let revision_id: String = match revision_id {
        Some(id) => owned(id),
        None => match &file.active_revision {
            Some(revision) => revision.id.clone(),
            None => {
                return Err(
                    ProtonError::InvalidOperation(
                        joined(kind.as_str(), " has no active revision"),
                    ),
                );
            },
        },
    };
    Ok(FileContent { link: details[0].link.clone(), content_key_packet, revision_id })
}

/// The content of a node cannot be reached where the node is not there or is no file,
/// where its content key packet is missing or unreadable, or where neither the caller
/// nor the node names a revision. There is no other reason, and the first one is told.
pub proof fn law_why_content_cannot_be_reached(
    kind: ContentKind,
    volume: Seq<char>,
    link: Seq<char>,
    details: Seq<LinkDetailsDto>,
    named: bool,
)
    ensures
        ({
            let refusal = content_refusal(kind, (volume, link), details, named);
            let noun = if kind == ContentKind::Photo {
                "photo"@
            } else {
                "file"@
            };
            let file = if details[0].file is Some {
                details[0].file
            } else if details[0].photo is Some && kind != ContentKind::Writable {
                Some(details[0].photo->0.file)
            } else {
                None
            };
            &&& details.len() == 0 ==> refusal == Some(
                noun + " "@ + volume + seq!['~'] + link + " not found"@,
            )
            &&& details.len() > 0 && file is None ==> refusal == Some(
                "node "@ + volume + seq!['~'] + link + " is not a file"@,
            )
            &&& details.len() > 0 && file is Some && file->0.content_key_packet is None ==> refusal
                == Some(noun + " is missing its content key packet"@)
            &&& details.len() > 0 && file is Some && file->0.content_key_packet is Some ==> {
                let packet = trimmed_text(file->0.content_key_packet->0@);
                &&& !is_base64(packet) ==> refusal == Some(
                    "decode content key packet: "@ + base64_complaint(packet),
                )
                &&& is_base64(packet) && !named && file->0.active_revision is None ==> refusal
                    == Some(noun + " has no active revision"@)
                &&& is_base64(packet) && (named || file->0.active_revision is Some)
                    ==> refusal is None
            }
        }),
{
    reveal_strlit("decode content key packet");
    reveal_strlit(": ");
    reveal_strlit("decode content key packet: ");
    assert("decode content key packet"@ + ": "@ =~= "decode content key packet: "@);
    let uid = (volume, link);
    assert(missing(kind.noun(), uid) =~= kind.noun() + " "@ + volume + seq!['~'] + link
        + " not found"@);
    assert("node "@ + uid_text(uid) + " is not a file"@ =~= "node "@ + volume + seq!['~'] + link
        + " is not a file"@);
}

/// The block of the thumbnail of a type: what the first thumbnail of that type
/// says.
pub fn thumbnail_of_type(thumbnails: &Vec<ThumbnailDto>, wanted: i32) -> (r: Option<String>)
    ensures
        match r {
            Some(id) => exists|i: int|
                first_of_type(thumbnails@, wanted, i) && thumbnails@[i].id == Some(id),
            None => forall|i: int| #[trigger]
                first_of_type(thumbnails@, wanted, i) ==> thumbnails@[i].id is None,
        },
        r is Some ==> exists|i: int|
            #![trigger thumbnails@[i]]
            0 <= i < thumbnails@.len() && thumbnails@[i].thumbnail_type == wanted && thumbnails@[i].id
                == Some(r->0) && (forall|j: int|
                0 <= j < i ==> (#[trigger] thumbnails@[j]).thumbnail_type != wanted),
{
    let mut i: usize = 0;
    while i < thumbnails.len()
        invariant
            i <= thumbnails@.len(),
            forall|j: int| 0 <= j < i ==> (#[trigger] thumbnails@[j]).thumbnail_type != wanted,
        decreases thumbnails@.len() - i,
    {
        if thumbnails[i].thumbnail_type == wanted {
            assert(first_of_type(thumbnails@, wanted, i as int));
            return thumbnails[i].id.clone();
        }
        i += 1;
    }
    None
}

/// Whether thumbnail `i` is the first one of the type.
pub open spec fn first_of_type(thumbnails: Seq<ThumbnailDto>, wanted: i32, i: int) -> bool {
    &&& 0 <= i < thumbnails.len()
    &&& thumbnails[i].thumbnail_type == wanted
    &&& forall|j: int| 0 <= j < i ==> (#[trigger] thumbnails[j]).thumbnail_type != wanted
}

// ---------------------------------------------------------------------------
// The manifest
// ---------------------------------------------------------------------------

/// The types of thumbnails.
pub open spec fn types_of(thumbnails: Seq<ThumbnailDto>) -> Seq<i32> {
    Seq::new(thumbnails.len(), |i: int| thumbnails[i].thumbnail_type)
}

/// Thumbnails by type; those of one type in the order they stand in.
pub open spec fn by_type(thumbnails: Seq<ThumbnailDto>) -> Seq<ThumbnailDto> {
    arranged(thumbnails, stable_order_of(types_of(thumbnails)))
}

/// Whether the thumbnail has a digest that is not base64.
pub open spec fn has_bad_digest(thumbnail: ThumbnailDto) -> bool {
    thumbnail.hash_digest is Some && !is_base64(trimmed_text(thumbnail.hash_digest->0@))
}

/// The digests of thumbnails, one after the other. A thumbnail without one adds
/// nothing.
pub open spec fn digests_of(thumbnails: Seq<ThumbnailDto>) -> Seq<u8>
    decreases thumbnails.len(),
{
    if thumbnails.len() == 0 {
        Seq::empty()
    } else {
        let before = digests_of(thumbnails.drop_last());
        match thumbnails.last().hash_digest {
            Some(digest) => before + base64_data(trimmed_text(digest@)),
            None => before,
        }
    }
}

/// Whether thumbnail `i` is the first one with a bad digest.
pub open spec fn first_bad_digest(thumbnails: Seq<ThumbnailDto>, i: int) -> bool {
    &&& 0 <= i < thumbnails.len()
    &&& has_bad_digest(thumbnails[i])
    &&& forall|j: int| 0 <= j < i ==> !has_bad_digest(#[trigger] thumbnails[j])
}

/// The start of a revision's manifest: the digests of its thumbnails, by type.
pub fn thumbnail_manifest(thumbnails: &Vec<ThumbnailDto>) -> (r: Result<Vec<u8>, ProtonError>)
    ensures
        match r {
            Ok(manifest) => {
                &&& manifest@ == digests_of(by_type(thumbnails@))
                &&& forall|i: int|
                    0 <= i < thumbnails@.len() ==> !has_bad_digest(
                        #[trigger] by_type(thumbnails@)[i],
                    )
            },
            Err(e) => exists|i: int| #[trigger]
                first_bad_digest(by_type(thumbnails@), i) && invalid(
                    e,
                    "decode thumbnail digest"@ + ": "@ + base64_complaint(
                        trimmed_text(by_type(thumbnails@)[i].hash_digest->0@),
                    ),
                ),
        },
{
    let mut types: Vec<i32> = Vec::new();
    let mut i: usize = 0;
    while i < thumbnails.len()
        invariant
            i <= thumbnails@.len(),
            types@ == types_of(thumbnails@).take(i as int),
        decreases thumbnails@.len() - i,
    {
        types.push(thumbnails[i].thumbnail_type);
        i += 1;
        assert(types@ =~= types_of(thumbnails@).take(i as int));
    }
    assert(types@ =~= types_of(thumbnails@));
    let order: Vec<usize> = stable_order(&types);
    let ghost sorted = by_type(thumbnails@);
    let mut manifest: Vec<u8> = Vec::new();
    let mut k: usize = 0;
    assert(sorted.take(0) =~= Seq::<ThumbnailDto>::empty());
    while k < order.len()
        invariant
            k <= order@.len() == thumbnails@.len() == sorted.len(),
            is_stable_order(types_of(thumbnails@), order@),
            order@ == stable_order_of(types_of(thumbnails@)),
            sorted == by_type(thumbnails@),
            manifest@ == digests_of(sorted.take(k as int)),
            forall|j: int| 0 <= j < k ==> !has_bad_digest(#[trigger] sorted[j]),
        decreases order@.len() - k,
    {
        let thumbnail: &ThumbnailDto = &thumbnails[order[k]];
        proof {
            assert(sorted[k as int] == *thumbnail);
            assert(sorted.take(k + 1).drop_last() =~= sorted.take(k as int));
        }
        match &thumbnail.hash_digest {
            Some(digest) => {
                match decode_field(digest.as_str(), "decode thumbnail digest") {
                    Ok(data) => {
                        let mut data: Vec<u8> = data;
                        manifest.append(&mut data);
                    },
                    Err(e) => {
                        assert(first_bad_digest(sorted, k as int));
                        return Err(e);
                    },
                }
            },
            None => {},
        }
        k += 1;
    }
    assert(sorted.take(k as int) =~= sorted);
    Ok(manifest)
}

/// Appends the digest of a block, as it is stored, to a manifest.
pub fn append_block_digest(manifest: &mut Vec<u8>, ciphertext: &[u8])
    ensures
        final(manifest)@ == old(manifest)@ + sha256_of(ciphertext@),
{
    let mut digest: Vec<u8> = sha256(ciphertext);
    manifest.append(&mut digest);
}

/// How the manifest of a revision is checked.
#[derive(Debug, PartialEq, Eq)]
pub enum ManifestCheck {
    /// It is not signed: there is nothing to check.
    NotSigned,
    /// Nobody put a name to the signature: it was made with the key of the node.
    ByNode { signature: String },
    /// It was made with a key of this address.
    ByAuthor { signature: String, email: String },
}

/// How the manifest of a revision is checked.
pub fn manifest_check(revision: &RevisionDto) -> (r: ManifestCheck)
    ensures
        r == match (revision.manifest_signature, revision.signature_email) {
            (None, _) => ManifestCheck::NotSigned,
            (Some(signature), Some(email)) => if email@.len() > 0 {
                ManifestCheck::ByAuthor { signature, email }
            } else {
                ManifestCheck::ByNode { signature }
            },
            (Some(signature), None) => ManifestCheck::ByNode { signature },
        },
{
    match &revision.manifest_signature {
        None => ManifestCheck::NotSigned,
        Some(signature) => match &revision.signature_email {
            Some(email) => {
                if email.as_str().unicode_len() > 0 {
                    ManifestCheck::ByAuthor { signature: signature.clone(), email: email.clone() }
                } else {
                    ManifestCheck::ByNode { signature: signature.clone() }
                }
            },
            None => ManifestCheck::ByNode { signature: signature.clone() },
        },
    }
}

// ---------------------------------------------------------------------------
// Copying a revision
// ---------------------------------------------------------------------------

/// A revision that is being copied out, one block-sized read after the other.
#[derive(Debug, PartialEq, Eq)]
pub struct RevisionCopy {
    pub offset: u64,
    pub size: u64,
    pub ended: bool,
}

impl RevisionCopy {
    pub open spec fn well_formed(self) -> bool {
        self.offset <= self.size
    }

    pub fn start(size: u64) -> (copy: RevisionCopy)
        ensures
            copy.well_formed(),
            copy.offset == 0,
            copy.size == size,
            !copy.ended,
    {
        RevisionCopy { offset: 0, size, ended: false }
    }

    /// The next read: where it starts and how long it is.
    pub fn next(&self) -> (r: Option<(u64, u64)>)
        ensures
            r == (if self.ended || self.offset >= self.size {
                None
            } else {
                Some((self.offset, DEFAULT_BLOCK_SIZE as u64))
            }),
    {
        if self.ended || self.offset >= self.size {
            None
        } else {
            Some((self.offset, DEFAULT_BLOCK_SIZE as u64))
        }
    }

    /// Takes in how many bytes the read returned. None end the copy.
    pub fn read(&mut self, count: u64)
        requires
            old(self).well_formed(),
            count <= old(self).size - old(self).offset,
        ensures
            final(self).well_formed(),
            final(self).size == old(self).size,
            final(self).offset == old(self).offset + count,
            final(self).ended == (old(self).ended || count == 0),
    {
        if count == 0 {
            self.ended = true;
        }
        self.offset = self.offset + count;
    }
}

/// Each read of a copy extends what was copied by the bytes that follow it, so that
/// a copy that reaches the end is the file.
pub proof fn law_copy_grows_to_the_file(
    sizes: Seq<u64>,
    blocks: Seq<Seq<u8>>,
    offset: int,
    length: int,
)
    requires
        truthful(sizes, blocks),
        0 <= offset <= total_size(sizes),
        0 < length,
    ensures
        ({
            let whole = plaintext_of(blocks, blocks.len() as int);
            let plan = read_plan(sizes, offset, length);
            let end = read_end(sizes, offset, length);
            let read = read_result(
                plan,
                fetched_for(plan, blocks),
                offset,
                end,
                plan.len() as int,
            );
            &&& whole.take(offset) + read == whole.take(offset + read.len())
            &&& offset < total_size(sizes) ==> read.len() > 0
            &&& whole.take(total_size(sizes)) == whole
        }),
{
    let whole = plaintext_of(blocks, blocks.len() as int);
    law_truthful_read_is_exact(sizes, blocks, offset, length);
    let end = read_end(sizes, offset, length);
    assert(whole.take(total_size(sizes)) =~= whole);
    if offset < total_size(sizes) {
        assert(whole.take(offset) + whole.subrange(offset, end) =~= whole.take(end));
    } else {
        assert(whole.take(offset) + Seq::<u8>::empty() =~= whole.take(offset));
    }
}

// ---------------------------------------------------------------------------
// History
// ---------------------------------------------------------------------------

/// Whether a revision in this state, as the server writes it, belongs in a history:
/// active (1) and superseded (2) ones do; a draft has no content yet, and a state
/// that is not given cannot be vouched for.
pub fn is_listable_revision_state(state: Option<i32>) -> (r: bool)
    ensures
        r == (state == Some(1i32) || state == Some(2i32)),
{
    match state {
        Some(value) => value == 1 || value == 2,
        None => false,
    }
}

/// The revisions of a listing that belong in a history, in its order.
pub open spec fn listed(items: Seq<RevisionListItemDto>) -> Seq<RevisionListItemDto>
    decreases items.len(),
{
    if items.len() == 0 {
        Seq::empty()
    } else {
        let before = listed(items.drop_last());
        let state = items.last().state;
        if state == Some(1i32) || state == Some(2i32) {
            before.push(items.last())
        } else {
            before
        }
    }
}

/// The revisions of a listing that belong in a history, in its order.
pub fn listable_revisions(items: Vec<RevisionListItemDto>) -> (r: Vec<RevisionListItemDto>)
    ensures
        r@ == listed(items@),
{
    let mut rest: Vec<RevisionListItemDto> = items;
    let mut out: Vec<RevisionListItemDto> = Vec::new();
    let ghost all = rest@;
    let ghost mut taken: int = 0;
    assert(all.take(0) =~= Seq::<RevisionListItemDto>::empty());
    while rest.len() > 0
        invariant
            0 <= taken <= all.len(),
            rest@ == all.skip(taken),
            out@ == listed(all.take(taken)),
        decreases rest@.len(),
    {
        let item: RevisionListItemDto = rest.remove(0);
        proof {
            assert(item == all[taken]);
            assert(all.take(taken + 1).drop_last() =~= all.take(taken));
        }
        if is_listable_revision_state(item.state) {
            out.push(item);
        }
        proof {
            taken = taken + 1;
            assert(rest@ =~= all.skip(taken));
        }
    }
    assert(all.take(taken) =~= all);
    out
}

/// An entry of a file's history. `common` is what the uploader claims, where that
/// could be read. A signature without an address counts as none.
pub fn build_revision(
    file_uid: &NodeUid,
    item: RevisionListItemDto,
    common: Option<DecryptedCommonExtendedAttributes>,
) -> (r: Revision)
    ensures
        r.file_uid == *file_uid,
        r.revision_id == item.id,
        r.state == RevisionState::with_wire(item.state),
        r.creation_time == item.creation_time,
        r.size_on_storage == item.size,
        r.has_thumbnails == (item.thumbnails@.len() > 0),
        r.signature_email == (match item.signature_email {
            Some(email) => if email@.len() > 0 {
                Some(email)
            } else {
                None
            },
            None => None,
        }),
        match common {
            Some(c) => {
                &&& r.claimed_size == c.size
                &&& r.claimed_modification_time == c.modification_time
                &&& r.claimed_sha1 == (match c.digests {
                    Some(digests) => digests.sha1,
                    None => None,
                })
            },
            None => r.claimed_size is None && r.claimed_modification_time is None
                && r.claimed_sha1 is None,
        },
{
    let signature_email: Option<String> = match item.signature_email {
        Some(email) => {
            if email.as_str().unicode_len() > 0 {
                Some(email)
            } else {
                None
            }
        },
        None => None,
    };
    let (claimed_size, claimed_modification_time, claimed_sha1): (
        Option<i64>,
        Option<String>,
        Option<String>,
    ) = match common {
        Some(c) => {
            let sha1: Option<String> = match c.digests {
                Some(digests) => digests.sha1,
                None => None,
            };
            (c.size, c.modification_time, sha1)
        },
        None => (None, None, None),
    };
    Revision {
        file_uid: file_uid.clone(),
        revision_id: item.id,
        state: RevisionState::from_raw(item.state),
        creation_time: item.creation_time,
        size_on_storage: item.size,
        claimed_size,
        claimed_modification_time,
        claimed_sha1,
        signature_email,
        has_thumbnails: item.thumbnails.len() > 0,
    }
}

/// What looking up a revision came to: one that is not there is no failure.
pub fn revision_lookup<T>(found: Result<T, ProtonError>) -> (r: Result<Option<T>, ProtonError>)
    ensures
        match found {
            Ok(revision) => r == Ok::<Option<T>, ProtonError>(Some(revision)),
            Err(e) => if e.code() == Some(crate::error::ResponseCode::DoesNotExist) || e.status()
                == Some(404u16) {
                r == Ok::<Option<T>, ProtonError>(None)
            } else {
                r == Err::<Option<T>, ProtonError>(e)
            },
        },
{
    match found {
        Ok(revision) => Ok(Some(revision)),
        Err(e) => {
            if is_not_found(&e) {
                Ok(None)
            } else {
                Err(e)
            }
        },
    }
}

/// What asking to restore a revision came to. The server accepts the request with
/// status 202 and carries it out later: that is a success.
pub fn restore_outcome(answer: Result<(), ProtonError>) -> (r: Result<(), ProtonError>)
    ensures
        match answer {
            Ok(()) => r is Ok,
            Err(e) => if e.status() == Some(202u16) {
                r is Ok
            } else {
                r == Err::<(), ProtonError>(e)
            },
        },
{
    match answer {
        Ok(()) => Ok(()),
        Err(ProtonError::Api(e)) => {
            if e.http_status == 202 {
                Ok(())
            } else {
                Err(ProtonError::Api(e))
            }
        },
        Err(e) => Err(e),
    }
}

/// The start of the routes of a file's revisions.
pub open spec fn revisions_route(uid: NodeUid) -> Seq<char> {
    "v2/volumes/"@ + uid.volume_id@ + "/files/"@ + uid.link_id@ + "/revisions"@
}

/// The route of a file's history.
pub fn revisions_path(uid: &NodeUid) -> (path: String)
    ensures
        path@ == revisions_route(*uid),
{
    let mut path: String = owned("v2/volumes/");
    path.append(uid.volume_id.as_str());
    path.append("/files/");
    path.append(uid.link_id.as_str());
    path.append("/revisions");
    path
}

/// The route of one revision.
pub fn revision_path(uid: &NodeUid, revision_id: &str) -> (path: String)
    ensures
        path@ == revisions_route(*uid) + "/"@ + revision_id@,
{
    let mut path: String = revisions_path(uid);
    path.append("/");
    path.append(revision_id);
    path
}

/// The route of what is known about one revision, without its blocks.
pub fn revision_metadata_path(uid: &NodeUid, revision_id: &str) -> (path: String)
    ensures
        path@ == revisions_route(*uid) + "/"@ + revision_id@ + "?NoBlockUrls=true"@,
{
    let mut path: String = revision_path(uid, revision_id);
    path.append("?NoBlockUrls=true");
    path
}

/// The route that restores a revision.
pub fn restore_path(uid: &NodeUid, revision_id: &str) -> (path: String)
    ensures
        path@ == revisions_route(*uid) + "/"@ + revision_id@ + "/restore"@,
{
    let mut path: String = revision_path(uid, revision_id);
    path.append("/restore");
    path
}

/// A history shows the revisions that are active or superseded, in the order of the
/// listing, and no others.
pub proof fn law_history_shows_active_and_superseded(items: Seq<RevisionListItemDto>)
    ensures
        listed(items) == items.filter(
            |item: RevisionListItemDto| item.state == Some(1i32) || item.state == Some(2i32),
        ),
    decreases items.len(),
{
    reveal(Seq::filter);
    if items.len() > 0 {
        law_history_shows_active_and_superseded(items.drop_last());
    }
}

/// Revisions are found under their file, and thumbnails go by type.
pub proof fn law_revisions_stand_under_their_file(
    uid: NodeUid,
    thumbnails: Seq<ThumbnailDto>,
    i: int,
    j: int,
)
    requires
        thumbnails.len() <= usize::MAX,
        0 <= i < j < thumbnails.len(),
    ensures
        revisions_route(uid) == "v2/volumes/"@ + uid.volume_id@ + "/files/"@ + uid.link_id@
            + "/revisions"@,
        by_type(thumbnails).len() == thumbnails.len(),
        by_type(thumbnails)[i].thumbnail_type <= by_type(thumbnails)[j].thumbnail_type,
        thumbnails.contains(by_type(thumbnails)[i]),
{
    lemma_stable_order_exists(types_of(thumbnails));
    let order = stable_order_of(types_of(thumbnails));
    assert(order[i] < thumbnails.len() && order[j] < thumbnails.len());
    assert(comes_before(types_of(thumbnails), order[i] as int, order[j] as int));
}

/// The digests of thumbnails are those of each that has one, decoded and joined in order;
/// a digest is bad where it is there and is not base64.
pub proof fn law_digests_of_thumbnails_are_joined(
    thumbnails: Seq<ThumbnailDto>,
    thumbnail: ThumbnailDto,
)
    ensures
        digests_of(thumbnails) == thumbnails.filter(
            |t: ThumbnailDto| t.hash_digest is Some,
        ).map_values(|t: ThumbnailDto| base64_data(trimmed_text(t.hash_digest->0@))).flatten(),
        has_bad_digest(thumbnail) <==> thumbnail.hash_digest is Some && !is_base64(
            trimmed_text(thumbnail.hash_digest->0@),
        ),
    decreases thumbnails.len(),
{
    reveal(Seq::filter);
    let with_digest = |t: ThumbnailDto| t.hash_digest is Some;
    let decoded = |t: ThumbnailDto| base64_data(trimmed_text(t.hash_digest->0@));
    if thumbnails.len() > 0 {
        law_digests_of_thumbnails_are_joined(thumbnails.drop_last(), thumbnail);
        let kept = thumbnails.drop_last().filter(with_digest);
        let before = kept.map_values(decoded);
        if thumbnails.last().hash_digest is Some {
            let last = decoded(thumbnails.last());
            assert(thumbnails.filter(with_digest) == kept.push(thumbnails.last()));
            assert(kept.push(thumbnails.last()).map_values(decoded) =~= before.push(last));
            before.lemma_flatten_push(last);
        }
    } else {
        assert(thumbnails.filter(with_digest).map_values(decoded) =~= Seq::<Seq<u8>>::empty());
    }
}

/// The digest that is reported is the first that is bad.
pub proof fn law_the_first_bad_digest_is_reported(thumbnails: Seq<ThumbnailDto>, i: int, j: int)
    requires
        first_bad_digest(thumbnails, i),
    ensures
        0 <= i < thumbnails.len(),
        thumbnails[i].hash_digest is Some,
        !is_base64(trimmed_text(thumbnails[i].hash_digest->0@)),
        0 <= j < i && thumbnails[j].hash_digest is Some ==> is_base64(
            trimmed_text(thumbnails[j].hash_digest->0@),
        ),
{
    if 0 <= j < i {
        assert(!has_bad_digest(thumbnails[j]));
    }
}

} // verus!
