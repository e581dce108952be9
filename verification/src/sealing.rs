//! Finishing an upload: what is recorded about the content, and the requests that
//! make a revision the active one.

use vstd::prelude::*;
use vstd::string::StringExecFns;

use crate::content::revisions_route;
use crate::digest::{
    base64_encode, base64_text, hex_text, name_hash, name_hash_text, sha1_hex, sha1_of, sha256_of,
};
use crate::drafts::{encodable, FileSecrets, RevisionDraft};
use crate::dtos::{
    CommonExtendedAttributes, DecryptedCommonExtendedAttributes, ExtendedAttributes,
    FileContentDigests, PhotosAttributesDto, RevisionUpdateRequest, SmallFileUploadMetadataRequest,
    SmallRevisionUploadMetadataRequest,
};
use crate::error::{invalid, ProtonError};
use crate::ids::{LinkId, NodeUid, VolumeId};
use crate::photos::{PhotoTag, PhotoUploadMetadata};
use crate::storing::BlockWriteResult;
use crate::text::owned;
use crate::time::{epoch_to_iso8601, is_iso8601_of, now_epoch_seconds};
use crate::transport::{first_non_positive, recorded_sizes};
use crate::upload::{push_digest, sha256_array, sum_of, token_of, verification_token, PlaintextTally};

verus! {

// ---------------------------------------------------------------------------
// Attributes
// ---------------------------------------------------------------------------

/// Whether a modification time is written as it should be.
pub open spec fn is_written_time(text: Option<String>, time: Option<i64>) -> bool {
    match time {
        Some(secs) => text is Some && is_iso8601_of(text->0@, secs as int),
        None => text is None,
    }
}

fn written_time(time: Option<i64>) -> (text: Option<String>)
    ensures
        is_written_time(text, time),
{
    match time {
        Some(secs) => Some(epoch_to_iso8601(secs)),
        None => None,
    }
}

/// What is recorded about a file's content: its size, its block sizes, its SHA-1
/// and when it was changed, where that is known.
pub fn file_attributes(
    size: i64,
    block_sizes: Vec<i32>,
    sha1_hex: String,
    modification_time: Option<i64>,
) -> (r: ExtendedAttributes)
    ensures
        r.common.size == Some(size),
        r.common.block_sizes == Some(block_sizes),
        r.common.digests == Some(FileContentDigests { sha1: sha1_hex }),
        is_written_time(r.common.modification_time, modification_time),
{
    ExtendedAttributes {
        common: CommonExtendedAttributes {
            size: Some(size),
            modification_time: written_time(modification_time),
            block_sizes: Some(block_sizes),
            digests: Some(FileContentDigests { sha1: sha1_hex }),
        },
    }
}

/// What is recorded about a folder: when it was changed, where that is known, and
/// otherwise nothing at all.
pub fn folder_attributes(modification_time: Option<i64>) -> (r: Option<ExtendedAttributes>)
    ensures
        match modification_time {
            Some(secs) => {
                &&& r is Some
                &&& is_written_time(r->0.common.modification_time, modification_time)
                &&& r->0.common.size is None
                &&& r->0.common.block_sizes is None
                &&& r->0.common.digests is None
            },
            None => r is None,
        },
{
    match modification_time {
        Some(secs) => Some(
            ExtendedAttributes {
                common: CommonExtendedAttributes {
                    size: None,
                    modification_time: Some(epoch_to_iso8601(secs)),
                    block_sizes: None,
                    digests: None,
                },
            },
        ),
        None => None,
    }
}

/// Whether attributes that were read hold the block sizes that were recorded.
pub open spec fn hold_sizes(common: DecryptedCommonExtendedAttributes, sizes: Seq<i32>) -> bool {
    &&& common.block_sizes is Some
    &&& common.block_sizes->0@.len() == sizes.len()
    &&& forall|i: int|
        0 <= i < sizes.len() ==> #[trigger] common.block_sizes->0@[i] == sizes[i]
}

/// The block sizes that an upload records are the ones a reader goes by, and they
/// add up to the plaintext.
pub proof fn law_recorded_sizes_are_trusted(
    tally: PlaintextTally,
    common: DecryptedCommonExtendedAttributes,
)
    requires
        tally.well_formed(),
        hold_sizes(common, tally.block_sizes@),
    ensures
        recorded_sizes(Some(&common), tally.block_sizes@.len()) == Some(common.block_sizes->0@),
        forall|bad: int| !#[trigger] first_non_positive(common.block_sizes->0@, bad),
        sum_of(tally.block_sizes@) == tally.plaintext().len(),
{
    assert forall|bad: int| !#[trigger] first_non_positive(common.block_sizes->0@, bad) by {
        if 0 <= bad < tally.block_sizes@.len() {
            assert(common.block_sizes->0@[bad] == tally.block_sizes@[bad]);
        }
    }
}

// ---------------------------------------------------------------------------
// Sealing
// ---------------------------------------------------------------------------

/// What is recorded about an upload.
pub fn sealed_attributes(written: &BlockWriteResult, modification_time: Option<i64>) -> (r:
    ExtendedAttributes)
    ensures
        r.common.size == Some(written.total_size),
        r.common.block_sizes is Some,
        r.common.block_sizes->0@ == written.block_sizes@,
        r.common.digests == Some(FileContentDigests { sha1: written.sha1_hex }),
        is_written_time(r.common.modification_time, modification_time),
{
    file_attributes(
        written.total_size,
        written.block_sizes.clone(),
        written.sha1_hex.clone(),
        modification_time,
    )
}

/// The request that seals a draft.
pub fn seal_request(
    draft: &RevisionDraft,
    manifest_signature: String,
    encrypted_attributes: String,
    photos_attributes: Option<PhotosAttributesDto>,
) -> (r: RevisionUpdateRequest)
    ensures
        r == (RevisionUpdateRequest {
            manifest_signature,
            signature_address: draft.email,
            checksum_verified: false,
            extended_attributes: Some(encrypted_attributes),
            photos_attributes,
        }),
{
    RevisionUpdateRequest {
        manifest_signature,
        signature_address: draft.email.clone(),
        checksum_verified: false,
        extended_attributes: Some(encrypted_attributes),
        photos_attributes,
    }
}

/// The route that seals a draft.
pub fn seal_path(draft: &RevisionDraft) -> (path: String)
    ensures
        path@ == revisions_route(
            NodeUid { volume_id: draft.volume_id, link_id: draft.link_id },
        ) + "/"@ + draft.revision_id@,
{
    let uid: NodeUid = NodeUid::new(draft.volume_id.clone(), draft.link_id.clone());
    crate::content::revision_path(&uid, draft.revision_id.as_str())
}

/// The wire values of tags.
pub open spec fn tag_wires(tags: Seq<PhotoTag>) -> Seq<i32> {
    Seq::new(tags.len(), |i: int| tags[i].wire() as i32)
}

/// The wire values of tags, in order.
pub fn wires_of_tags(tags: &Vec<PhotoTag>) -> (r: Vec<i32>)
    ensures
        r@ == tag_wires(tags@),
{
    let mut out: Vec<i32> = Vec::new();
    let mut i: usize = 0;
    while i < tags.len()
        invariant
            i <= tags@.len(),
            out@ == tag_wires(tags@).take(i as int),
        decreases tags@.len() - i,
    {
        out.push(tags[i].as_i32());
        i += 1;
        assert(out@ =~= tag_wires(tags@).take(i as int));
    }
    assert(out@ =~= tag_wires(tags@));
    out
}

/// What is recorded about a photo that was uploaded at `now`: when it was taken,
/// which is `now` unless the caller knows, a hash of its content under the hash key
/// of the folder, the photo it belongs to and its tags.
pub fn photos_attributes_at(
    parent_hash_key: &[u8],
    written: &BlockWriteResult,
    metadata: &PhotoUploadMetadata,
    now: i64,
) -> (r: PhotosAttributesDto)
    ensures
        r.capture_time == (match metadata.capture_time {
            Some(time) => time,
            None => now,
        }),
        r.content_hash@ == name_hash_text(
            parent_hash_key@,
            vstd::utf8::encode_utf8(written.sha1_hex@),
        ),
        r.main_photo_link_id == (match metadata.main_photo_uid {
            Some(uid) => Some(uid.link_id),
            None => None,
        }),
        r.tags@ == tag_wires(metadata.tags@),
        r.content_hash@ == hex_text(
            crate::digest::hmac_sha256_of(
                parent_hash_key@,
                vstd::utf8::encode_utf8(written.sha1_hex@),
            ),
        ),
        r.tags@.len() == metadata.tags@.len(),
        forall|i: int| 0 <= i < r.tags@.len() ==> #[trigger] r.tags@[i] == metadata.tags@[i].wire(),
{
    let capture_time: i64 = match metadata.capture_time {
        Some(time) => time,
        None => now,
    };
    let main_photo_link_id: Option<LinkId> = match &metadata.main_photo_uid {
        Some(uid) => Some(uid.link_id.clone()),
        None => None,
    };
    PhotosAttributesDto {
        capture_time,
        content_hash: name_hash(parent_hash_key, written.sha1_hex.as_str().as_bytes()),
        main_photo_link_id,
        tags: wires_of_tags(&metadata.tags),
    }
}

/// What is recorded about a photo that is being uploaded.
pub fn build_photos_attributes(
    parent_hash_key: &[u8],
    written: &BlockWriteResult,
    metadata: &PhotoUploadMetadata,
) -> (r: PhotosAttributesDto)
    ensures
        metadata.capture_time is Some ==> r.capture_time == metadata.capture_time->0,
        r.content_hash@ == name_hash_text(
            parent_hash_key@,
            vstd::utf8::encode_utf8(written.sha1_hex@),
        ),
        r.main_photo_link_id == (match metadata.main_photo_uid {
            Some(uid) => Some(uid.link_id),
            None => None,
        }),
        r.tags@ == tag_wires(metadata.tags@),
{
    let now: i64 = now_epoch_seconds();
    photos_attributes_at(parent_hash_key, written, metadata, now)
}

// ---------------------------------------------------------------------------
// Small uploads
// ---------------------------------------------------------------------------

/// The content part of a small upload. An empty file has none.
#[derive(Debug, PartialEq, Eq)]
pub struct SmallContent {
    pub manifest: Vec<u8>,
    pub block_sizes: Vec<i32>,
    pub encrypted_signature: Option<String>,
    pub verification_token: Option<String>,
    pub parts: Vec<(String, Vec<u8>)>,
}

/// Whether `content` is that of a file that was encrypted with the key in `packet`.
/// The verification code is the end of the packet.
pub open spec fn is_small_content(
    content: SmallContent,
    contents: Seq<u8>,
    packet: Seq<u8>,
    encrypted: Option<(Vec<u8>, String)>,
    digest: Seq<u8>,
) -> bool {
    if contents.len() == 0 {
        &&& content.manifest@.len() == 0
        &&& content.block_sizes@.len() == 0
        &&& content.encrypted_signature is None
        &&& content.verification_token is None
        &&& content.parts@.len() == 0
    } else {
        let ciphertext = (encrypted->0).0;
        let code = packet.skip(packet.len() - 32);
        &&& content.manifest@ == digest
        &&& content.block_sizes@ == seq![contents.len() as i32]
        &&& content.encrypted_signature == Some((encrypted->0).1)
        &&& content.verification_token is Some
        &&& content.verification_token->0@ == base64_text(token_of(code, ciphertext@))
        &&& content.parts@.len() == 1
        &&& content.parts@[0].0@ == "ContentBlock"@
        &&& content.parts@[0].1 == ciphertext
    }
}

/// The content part of a small upload. `encrypted` is the encrypted content and its
/// encrypted signature, which an empty file does without.
pub fn small_content(
    contents: &[u8],
    packet: &Vec<u8>,
    encrypted: Option<(Vec<u8>, String)>,
) -> (r: Result<SmallContent, ProtonError>)
    requires
        contents@.len() <= i32::MAX,
        contents@.len() > 0 ==> encrypted is Some,
    ensures
        match r {
            Ok(content) => {
                &&& contents@.len() == 0 || packet@.len() >= 32
                &&& is_small_content(
                    content,
                    contents@,
                    packet@,
                    encrypted,
                    sha256_of((encrypted->0).0@),
                )
            },
            Err(e) => contents@.len() > 0 && packet@.len() < 32 && invalid(
                e,
                "content key packet has no verification code"@,
            ),
        },
{
    let digest: [u8; 32] = match &encrypted {
        Some((ciphertext, _)) => sha256_array(ciphertext.as_slice()),
        None => [0u8;32],
    };
    small_content_with(contents, packet, encrypted, &digest)
}

/// The content part of a small upload, given the digest of the encrypted content.
pub fn small_content_with(
    contents: &[u8],
    packet: &Vec<u8>,
    encrypted: Option<(Vec<u8>, String)>,
    digest: &[u8; 32],
) -> (r: Result<SmallContent, ProtonError>)
    requires
        contents@.len() <= i32::MAX,
        contents@.len() > 0 ==> encrypted is Some,
    ensures
        match r {
            Ok(content) => {
                &&& contents@.len() == 0 || packet@.len() >= 32
                &&& is_small_content(content, contents@, packet@, encrypted, digest@)
            },
            Err(e) => contents@.len() > 0 && packet@.len() < 32 && invalid(
                e,
                "content key packet has no verification code"@,
            ),
        },
{
    let mut block_sizes: Vec<i32> = Vec::new();
    let mut parts: Vec<(String, Vec<u8>)> = Vec::new();
    if contents.len() > 0 {
        if let Some((ciphertext, signature)) = encrypted {
            if packet.len() < 32 {
                return Err(
                    ProtonError::invalid_operation("content key packet has no verification code"),
                );
            }
            let mut manifest: Vec<u8> = Vec::new();
            push_digest(&mut manifest, digest);
            assert(manifest@ =~= digest@);
            let mut code: Vec<u8> = Vec::new();
            let from: usize = packet.len() - 32;
            let mut k: usize = from;
            while k < packet.len()
                invariant
                    from <= k <= packet@.len(),
                    from == packet@.len() - 32,
                    code@ == packet@.subrange(from as int, k as int),
                decreases packet@.len() - k,
            {
                code.push(packet[k]);
                k += 1;
                assert(code@ =~= packet@.subrange(from as int, k as int));
            }
            assert(code@ =~= packet@.skip(from as int));
            let token: Vec<u8> = verification_token(code.as_slice(), ciphertext.as_slice());
            block_sizes.push(contents.len() as i32);
            assert(block_sizes@ =~= seq![contents@.len() as i32]);
            parts.push((owned("ContentBlock"), ciphertext));
            return Ok(
                SmallContent {
                    manifest,
                    block_sizes,
                    encrypted_signature: Some(signature),
                    verification_token: Some(base64_encode(token.as_slice())),
                    parts,
                },
            );
        }
    }
    Ok(
        SmallContent {
            manifest: Vec::new(),
            block_sizes,
            encrypted_signature: None,
            verification_token: None,
            parts,
        },
    )
}

/// What is recorded about the content of a small upload.
pub fn small_attributes(
    contents: &[u8],
    block_sizes: Vec<i32>,
    modification_time: Option<i64>,
) -> (r: ExtendedAttributes)
    requires
        contents@.len() <= i64::MAX,
    ensures
        r.common.size == Some(contents@.len() as i64),
        r.common.block_sizes == Some(block_sizes),
        r.common.digests is Some,
        r.common.digests->0.sha1@ == hex_text(sha1_of(contents@)),
        is_written_time(r.common.modification_time, modification_time),
{
    file_attributes(contents.len() as i64, block_sizes, sha1_hex(contents), modification_time)
}

/// The request that creates a file and its content at once.
pub fn small_file_metadata(
    parent_uid: &NodeUid,
    name: &str,
    media_type: &str,
    parent_hash_key: &[u8],
    secrets: FileSecrets,
    content: &SmallContent,
    manifest_signature: String,
    email: String,
    encrypted_attributes: String,
) -> (r: SmallFileUploadMetadataRequest)
    requires
        encodable(secrets.content_key_packet@),
    ensures
        r.name == secrets.encrypted_name,
        r.name_hash@ == name_hash_text(parent_hash_key@, vstd::utf8::encode_utf8(name@)),
        r.parent_link_id == parent_uid.link_id,
        r.passphrase == secrets.passphrase,
        r.passphrase_signature == secrets.passphrase_signature,
        r.key == secrets.key,
        r.media_type@ == media_type@,
        r.content_key_packet@ == base64_text(secrets.content_key_packet@),
        r.content_key_signature == secrets.content_key_signature,
        r.manifest_signature == manifest_signature,
        !r.checksum_verified,
        r.signature_email == email,
        r.content_block_verification_token == content.verification_token,
        r.extended_attributes == encrypted_attributes,
        r.photo is None,
        r.content_block_encrypted_signature == content.encrypted_signature,
{
    SmallFileUploadMetadataRequest {
        name: secrets.encrypted_name,
        name_hash: name_hash(parent_hash_key, name.as_bytes()),
        parent_link_id: parent_uid.link_id.clone(),
        passphrase: secrets.passphrase,
        passphrase_signature: secrets.passphrase_signature,
        key: secrets.key,
        media_type: owned(media_type),
        content_key_packet: base64_encode(secrets.content_key_packet.as_slice()),
        content_key_signature: secrets.content_key_signature,
        manifest_signature,
        checksum_verified: false,
        signature_email: email,
        content_block_verification_token: content.verification_token.clone(),
        extended_attributes: encrypted_attributes,
        photo: None,
        content_block_encrypted_signature: content.encrypted_signature.clone(),
    }
}

/// The request that creates a revision and its content at once.
pub fn small_revision_metadata(
    current_revision_id: String,
    content: &SmallContent,
    manifest_signature: String,
    email: String,
    encrypted_attributes: String,
) -> (r: SmallRevisionUploadMetadataRequest)
    ensures
        r == (SmallRevisionUploadMetadataRequest {
            current_revision_id,
            manifest_signature,
            checksum_verified: false,
            signature_email: email,
            content_block_encrypted_signature: content.encrypted_signature,
            content_block_verification_token: content.verification_token,
            extended_attributes: encrypted_attributes,
        }),
{
    SmallRevisionUploadMetadataRequest {
        current_revision_id,
        manifest_signature,
        checksum_verified: false,
        signature_email: email,
        content_block_encrypted_signature: content.encrypted_signature.clone(),
        content_block_verification_token: content.verification_token.clone(),
        extended_attributes: encrypted_attributes,
    }
}

/// The route of small files on a volume.
pub fn small_file_path(volume_id: &VolumeId) -> (path: String)
    ensures
        path@ == "v2/volumes/"@ + volume_id@ + "/files/small"@,
{
    let mut path: String = owned("v2/volumes/");
    path.append(volume_id.as_str());
    path.append("/files/small");
    path
}

/// The route of small revisions of a file.
pub fn small_revision_path(uid: &NodeUid) -> (path: String)
    ensures
        path@ == revisions_route(*uid) + "/small"@,
{
    let mut path: String = crate::content::revisions_path(uid);
    path.append("/small");
    path
}

/// A small upload carries one block: its manifest is the digest of that block, its one
/// size is that of the contents, and its token is made of the last bytes of the packet.
/// An empty file carries none of these.
pub proof fn law_small_uploads_carry_one_block(
    content: SmallContent,
    contents: Seq<u8>,
    packet: Seq<u8>,
    encrypted: Option<(Vec<u8>, String)>,
    digest: Seq<u8>,
)
    requires
        is_small_content(content, contents, packet, encrypted, digest),
        contents.len() <= i32::MAX,
    ensures
        contents.len() == 0 ==> content.manifest@.len() == 0 && content.block_sizes@.len() == 0
            && content.encrypted_signature is None && content.verification_token is None
            && content.parts@.len() == 0,
        contents.len() > 0 ==> {
            let stored = (encrypted->0).0;
            &&& content.manifest@ == digest
            &&& content.block_sizes@.len() == 1
            &&& content.block_sizes@[0] == contents.len()
            &&& content.encrypted_signature == Some((encrypted->0).1)
            &&& content.parts@.len() == 1
            &&& content.parts@[0].0@ == "ContentBlock"@
            &&& content.parts@[0].1 == stored
            &&& content.verification_token is Some
            &&& content.verification_token->0@ == base64_text(
                token_of(packet.subrange(packet.len() - 32, packet.len() as int), stored@),
            )
        },
{
    assert(packet.skip(packet.len() - 32) =~= packet.subrange(
        packet.len() - 32,
        packet.len() as int,
    ));
}

/// Tags are sent by their numbers, in order; and a time is written just where there is
/// one.
pub proof fn law_tags_are_sent_by_number(
    tags: Seq<PhotoTag>,
    text: Option<String>,
    time: Option<i64>,
)
    ensures
        tag_wires(tags).len() == tags.len(),
        forall|i: int| 0 <= i < tags.len() ==> #[trigger] tag_wires(tags)[i] == tags[i].wire(),
        is_written_time(text, time) ==> (text is Some <==> time is Some),
        is_written_time(text, time) && time is Some ==> is_iso8601_of(text->0@, time->0 as int),
{
}

} // verus!
