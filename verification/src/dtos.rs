//! What goes over the wire, as plain values.

use vstd::prelude::*;

use crate::error::ResponseCode;
use crate::ids::{DriveEventId, LinkId, ShareId, VolumeId};

verus! {

/// The envelope of an answer: its code, and what went wrong.
#[derive(Debug, PartialEq, Eq)]
pub struct ApiResponse {
    pub code: ResponseCode,
    pub error_message: Option<String>,
    pub details: Option<RevisionConflict>,
}

/// Photo-specific link data, layered onto the file data.
#[derive(Debug, PartialEq, Eq)]
pub struct PhotoDto {
    pub file: FileDto,
    pub capture_time: i64,
    pub content_hash: Option<String>,
    pub main_photo_link_id: Option<LinkId>,
    pub related_photo_link_ids: Vec<LinkId>,
    pub tags: Vec<i32>,
    pub album_inclusions: Vec<AlbumInclusionDto>,
}

/// An album that a photo is in.
#[derive(Debug, PartialEq, Eq)]
pub struct AlbumInclusionDto {
    pub album_link_id: LinkId,
}

/// Album-specific link data. An album carries its own hash key.
#[derive(Debug, PartialEq, Eq)]
pub struct AlbumDto {
    pub hash_key: String,
    pub photo_count: i32,
    pub cover_link_id: Option<LinkId>,
    pub last_activity_time: i64,
}

/// One page of the albums on a photos volume.
#[derive(Debug, PartialEq, Eq)]
pub struct AlbumListResponse {
    pub albums: Vec<AlbumListItemDto>,
    pub anchor_id: Option<LinkId>,
    pub more: bool,
}

/// An album, as listed.
#[derive(Debug, PartialEq, Eq)]
pub struct AlbumListItemDto {
    pub id: LinkId,
}

/// One page of the photos of an album.
#[derive(Debug, PartialEq, Eq)]
pub struct AlbumItemListResponse {
    pub photos: Vec<AlbumItemDto>,
    pub anchor_id: Option<LinkId>,
    pub more: bool,
}

/// A photo of an album, as listed.
#[derive(Debug, PartialEq, Eq)]
pub struct AlbumItemDto {
    pub id: LinkId,
    pub capture_time: i64,
}

/// One page of the albums that others share with us.
#[derive(Debug, PartialEq, Eq)]
pub struct SharedAlbumsResponse {
    pub albums: Vec<SharedAlbumDto>,
    pub anchor_id: Option<LinkId>,
    pub more: bool,
}

/// An album that somebody shares with us, on that somebody's volume.
#[derive(Debug, PartialEq, Eq)]
pub struct SharedAlbumDto {
    pub volume_id: VolumeId,
    pub link_id: LinkId,
}

/// The share through which a node is reached.
#[derive(Debug, PartialEq, Eq)]
pub struct ContextShareResponse {
    pub context_share_id: ShareId,
}

/// The volume, share and root link of My Files (`GET v2/shares/my-files`).
#[derive(Debug, PartialEq, Eq)]
pub struct MyFilesShareResponse {
    pub volume: ShareVolumeDto,
    pub share: ShareDto,
    pub link: LinkDetailsDto,
}

/// The volume that a share lives on.
#[derive(Debug, PartialEq, Eq)]
pub struct ShareVolumeDto {
    pub id: VolumeId,
}

/// A share and the locked key material it carries.
#[derive(Debug, PartialEq, Eq)]
pub struct ShareDto {
    pub id: ShareId,
    pub key: String,
    pub passphrase: String,
    pub passphrase_signature: Option<String>,
    pub address_id: String,
}

/// The links whose details are asked for (`POST v2/volumes/{vid}/links`).
#[derive(Debug, PartialEq, Eq)]
pub struct LinkDetailsRequest {
    pub link_ids: Vec<LinkId>,
}

/// `POST v2/volumes/{vid}/links` response.
#[derive(Debug, PartialEq, Eq)]
pub struct LinkDetailsResponse {
    pub links: Vec<LinkDetailsDto>,
}

/// `GET volumes/{vid}/photos` response.
#[derive(Debug, PartialEq, Eq)]
pub struct TimelinePhotoListResponse {
    pub photos: Vec<TimelinePhotoDto>,
}

/// One timeline entry.
#[derive(Debug, PartialEq, Eq)]
pub struct TimelinePhotoDto {
    pub id: LinkId,
    pub capture_time: i64,
    pub name_hash: Option<String>,
    pub content_hash: Option<String>,
}

/// `GET volumes/{vid}/trash` response.
#[derive(Debug, PartialEq, Eq)]
pub struct VolumeTrashResponse {
    pub trash_by_share: Vec<ShareTrashDto>,
}

/// The trashed links of one share.
#[derive(Debug, PartialEq, Eq)]
pub struct ShareTrashDto {
    pub share_id: ShareId,
    pub link_ids: Vec<LinkId>,
    pub parent_ids: Vec<LinkId>,
}

/// A link together with the type-specific blocks the server attaches to it.
#[derive(Debug, PartialEq, Eq)]
pub struct LinkDetailsDto {
    pub link: LinkDto,
    pub folder: Option<FolderDto>,
    pub file: Option<FileDto>,
    pub photo: Option<PhotoDto>,
    pub sharing: Option<LinkSharingDto>,
    pub membership: Option<ShareMembershipSummaryDto>,
    pub album: Option<AlbumDto>,
}

/// The sharing state of a node.
#[derive(Debug, PartialEq, Eq)]
pub struct LinkSharingDto {
    pub share_id: ShareId,
    pub share_url_id: Option<String>,
}

/// Our membership in a share someone else owns.
#[derive(Debug, PartialEq, Eq)]
pub struct ShareMembershipSummaryDto {
    pub share_id: ShareId,
    pub membership_id: String,
    pub permissions: i32,
}

/// The part of a link that every type has.
#[derive(Debug, PartialEq, Eq)]
pub struct LinkDto {
    pub id: LinkId,
    pub link_type: i32,
    pub parent_id: Option<LinkId>,
    pub state: i32,
    pub creation_time: i64,
    pub modification_time: i64,
    pub trash_time: Option<i64>,
    pub name: String,
    pub name_hash: Option<String>,
    pub key: String,
    pub passphrase: String,
    pub passphrase_signature: Option<String>,
    pub signature_email: Option<String>,
    pub name_signature_email: Option<String>,
}

/// Folder-specific link data.
#[derive(Debug, PartialEq, Eq)]
pub struct FolderDto {
    pub hash_key: String,
    pub extended_attributes: Option<String>,
}

/// File-specific link data.
#[derive(Debug, PartialEq, Eq)]
pub struct FileDto {
    pub media_type: String,
    pub total_size_on_storage: i64,
    pub content_key_packet: Option<String>,
    pub content_key_signature: Option<String>,
    pub active_revision: Option<ActiveRevisionDto>,
}

/// The revision that a file currently shows.
#[derive(Debug, PartialEq, Eq)]
pub struct ActiveRevisionDto {
    pub id: String,
    pub creation_time: i64,
    pub state: Option<i32>,
    pub encrypted_size: i64,
    pub signature_email: Option<String>,
    pub extended_attributes: Option<String>,
}

/// The decrypted `XAttr` JSON payload, read side.
#[derive(Debug, PartialEq, Eq)]
pub struct DecryptedExtendedAttributes {
    pub common: Option<DecryptedCommonExtendedAttributes>,
}

/// The claims an uploader makes about a revision.
#[derive(Debug, PartialEq, Eq)]
pub struct DecryptedCommonExtendedAttributes {
    pub size: Option<i64>,
    pub modification_time: Option<String>,
    pub block_sizes: Option<Vec<i64>>,
    pub digests: Option<DecryptedFileContentDigests>,
}

/// The content digests an uploader recorded.
#[derive(Debug, PartialEq, Eq)]
pub struct DecryptedFileContentDigests {
    pub sha1: Option<String>,
}

/// `GET v2/volumes/{vid}/files/{lid}/revisions/{rid}` — one page of a revision's block
/// listing.
#[derive(Debug, PartialEq, Eq)]
pub struct RevisionResponse {
    pub revision: RevisionDto,
}

/// One revision: its signatures, thumbnails and blocks.
#[derive(Debug, PartialEq, Eq)]
pub struct RevisionDto {
    pub id: String,
    pub manifest_signature: Option<String>,
    pub signature_email: Option<String>,
    pub extended_attributes: Option<String>,
    pub thumbnails: Vec<ThumbnailDto>,
    pub blocks: Vec<BlockDto>,
}

/// One content block of a revision.
#[derive(Debug, PartialEq, Eq)]
pub struct BlockDto {
    pub index: i32,
    pub bare_url: String,
    pub token: String,
}

/// A thumbnail of a revision.
#[derive(Debug, PartialEq, Eq)]
pub struct ThumbnailDto {
    pub id: Option<String>,
    pub thumbnail_type: i32,
    pub hash_digest: Option<String>,
}

/// `POST volumes/{vid}/thumbnails` request: resolve thumbnail ids to download URLs.
#[derive(Debug, PartialEq, Eq)]
pub struct ThumbnailBlockListRequest {
    pub thumbnail_ids: Vec<String>,
}

/// `POST volumes/{vid}/thumbnails` response.
#[derive(Debug, PartialEq, Eq)]
pub struct ThumbnailBlockListResponse {
    pub blocks: Vec<ThumbnailBlock>,
    pub errors: Vec<ThumbnailBlockError>,
}

/// A resolved thumbnail block: where to fetch it and the storage token to use.
#[derive(Debug, PartialEq, Eq)]
pub struct ThumbnailBlock {
    pub thumbnail_id: String,
    pub bare_url: String,
    pub token: String,
}

/// Per-thumbnail resolution error.
#[derive(Debug, PartialEq, Eq)]
pub struct ThumbnailBlockError {
    pub thumbnail_id: String,
    pub error: String,
    pub code: i32,
}

/// `GET v2/volumes/{vid}/folders/{lid}/children`.
#[derive(Debug, PartialEq, Eq)]
pub struct FolderChildrenResponse {
    pub link_ids: Vec<LinkId>,
    pub anchor_id: Option<LinkId>,
    pub more_results_exist: bool,
}

/// `POST v2/volumes/{vid}/files` — create a new file draft.
#[derive(Debug, PartialEq, Eq)]
pub struct FileCreationRequest {
    pub name: String,
    pub name_hash: String,
    pub parent_link_id: LinkId,
    pub passphrase: String,
    pub passphrase_signature: String,
    pub key: String,
    pub media_type: String,
    pub content_key_packet: String,
    pub content_key_signature: String,
    pub signature_address: String,
    pub client_uid: Option<String>,
    pub intended_upload_size: i64,
}

/// `POST v2/volumes/{vid}/files` response.
#[derive(Debug, PartialEq, Eq)]
pub struct FileCreationResponse {
    pub file: FileCreationIdentifiers,
}

/// The link and draft revision of a new file.
#[derive(Debug, PartialEq, Eq)]
pub struct FileCreationIdentifiers {
    pub link_id: LinkId,
    pub revision_id: String,
}

/// `POST v2/volumes/{vid}/folders` — create a new folder.
#[derive(Debug, PartialEq, Eq)]
pub struct FolderCreationRequest {
    pub name: String,
    pub name_hash: String,
    pub parent_link_id: LinkId,
    pub passphrase: String,
    pub passphrase_signature: String,
    pub key: String,
    pub node_hash_key: String,
    pub signature_email: String,
    pub extended_attributes: Option<String>,
}

/// `POST volumes` request body — create a new volume with its root share and root
/// folder.
#[derive(Debug, PartialEq, Eq)]
pub struct VolumeCreationRequest {
    pub address_id: String,
    pub address_key_id: String,
    pub share_key: String,
    pub share_passphrase: String,
    pub share_passphrase_signature: String,
    pub folder_name: String,
    pub folder_key: String,
    pub folder_passphrase: String,
    pub folder_passphrase_signature: String,
    pub folder_hash_key: String,
}

/// `POST v2/volumes/{vid}/folders` response.
#[derive(Debug, PartialEq, Eq)]
pub struct FolderCreationResponse {
    pub folder: FolderCreationIdentifiers,
}

/// The link of a new folder.
#[derive(Debug, PartialEq, Eq)]
pub struct FolderCreationIdentifiers {
    pub link_id: LinkId,
}

/// `PUT v2/volumes/{vid}/links/{lid}/rename` — rename a node.
#[derive(Debug, PartialEq, Eq)]
pub struct RenameLinkRequest {
    pub name: String,
    pub name_hash: String,
    pub name_signature_email: String,
    pub media_type: Option<String>,
    pub original_hash: String,
}

/// `PUT v2/volumes/{vid}/links/{lid}/move` — move a node to a new parent.
#[derive(Debug, PartialEq, Eq)]
pub struct MoveLinkRequest {
    pub parent_link_id: LinkId,
    pub passphrase: String,
    pub passphrase_signature: Option<String>,
    pub name: String,
    pub name_signature_email: String,
    pub name_hash: String,
    pub original_hash: String,
}

/// `PUT volumes/{vid}/links/move-multiple` — batch move of several nodes under a single
/// destination parent.
#[derive(Debug, PartialEq, Eq)]
pub struct MoveMultipleLinksRequest {
    pub parent_link_id: LinkId,
    pub links: Vec<MoveMultipleLinksItem>,
    pub name_signature_email: String,
    pub signature_email: Option<String>,
}

/// One entry of a [`MoveMultipleLinksRequest`].
#[derive(Debug, PartialEq, Eq)]
pub struct MoveMultipleLinksItem {
    pub link_id: LinkId,
    pub name: String,
    pub passphrase: String,
    pub name_hash: String,
    pub original_hash: String,
    pub passphrase_signature: Option<String>,
}

/// `POST v2/volumes/{vid}/links/{folderId}/checkAvailableHashes` request: ask which of
/// a batch of candidate name hashes are free in a folder.
#[derive(Debug, PartialEq, Eq)]
pub struct NodeNameAvailabilityRequest {
    pub name_hashes: Vec<String>,
    pub client_uid: Vec<String>,
}

/// Response to `checkAvailableHashes`: the subset of the requested hashes that are
/// available, plus the taken ones.
#[derive(Debug, PartialEq, Eq)]
pub struct NodeNameAvailabilityResponse {
    pub available_hashes: Vec<String>,
    pub unavailable_hashes: Vec<NameHashUnavailabilityDto>,
}

/// One taken name hash and the node that holds it.
#[derive(Debug, PartialEq, Eq)]
pub struct NameHashUnavailabilityDto {
    pub name_hash: String,
    pub link_id: LinkId,
    pub client_uid: Option<String>,
}

/// `{ LinkIDs: [...] }` — batch link-id body for trash / restore / delete.
#[derive(Debug, PartialEq, Eq)]
pub struct MultipleLinksRequest {
    pub link_ids: Vec<LinkId>,
}

/// Aggregate response for batch link operations: a per-link result list.
#[derive(Debug, PartialEq, Eq)]
pub struct AggregateLinksResponse {
    pub responses: Vec<LinkIdResponsePair>,
}

/// One link's answer within an aggregate response.
#[derive(Debug, PartialEq, Eq)]
pub struct LinkIdResponsePair {
    pub link_id: LinkId,
    pub response: ApiResponse,
}

/// `POST v2/volumes/{vid}/files/{lid}/revisions` — create a new revision on an existing
/// file.
#[derive(Debug, PartialEq, Eq)]
pub struct RevisionCreationRequest {
    pub current_revision_id: String,
    pub client_uid: Option<String>,
    pub intended_upload_size: i64,
}

/// `POST v2/volumes/{vid}/files/{lid}/revisions` response.
#[derive(Debug, PartialEq, Eq)]
pub struct RevisionCreationResponse {
    pub revision: RevisionCreationIdentity,
}

/// The identifier of a new draft revision.
#[derive(Debug, PartialEq, Eq)]
pub struct RevisionCreationIdentity {
    pub revision_id: String,
}

/// `GET v2/volumes/{vid}/links/{lid}/revisions/{rid}/verification`.
#[derive(Debug, PartialEq, Eq)]
pub struct BlockVerificationInputResponse {
    pub verification_code: String,
    pub content_key_packet: String,
}

/// `POST blocks` — request upload targets for content/thumbnail blocks.
#[derive(Debug, PartialEq, Eq)]
pub struct BlockUploadPreparationRequest {
    pub address_id: String,
    pub volume_id: VolumeId,
    pub link_id: LinkId,
    pub revision_id: String,
    pub blocks: Vec<BlockCreationRequest>,
    pub thumbnails: Vec<ThumbnailCreationRequest>,
}

/// A content block to be uploaded.
#[derive(Debug, PartialEq, Eq)]
pub struct BlockCreationRequest {
    pub index: i32,
    pub size: i32,
    pub encrypted_signature: String,
    pub hash: String,
    pub verifier: BlockVerifier,
}

/// The token that proves a block was encrypted for this revision.
#[derive(Debug, PartialEq, Eq)]
pub struct BlockVerifier {
    pub token: String,
}

/// Thumbnail creation entry in a block-upload preparation request.
#[derive(Debug, PartialEq, Eq)]
pub struct ThumbnailCreationRequest {
    pub size: i32,
    pub thumbnail_type: i32,
    pub hash: String,
}

/// `POST blocks` response.
#[derive(Debug, PartialEq, Eq)]
pub struct BlockUploadPreparationResponse {
    pub upload_targets: Vec<BlockUploadTarget>,
    pub thumbnail_upload_targets: Vec<BlockUploadTarget>,
}

/// Where to send one block. `index` and `thumbnail_type` say which block it is for,
/// where the server says so.
#[derive(Debug, PartialEq, Eq)]
pub struct BlockUploadTarget {
    pub bare_url: String,
    pub token: String,
    pub index: Option<i32>,
    pub thumbnail_type: Option<i32>,
}

/// `PUT v2/volumes/{vid}/files/{lid}/revisions/{rid}` — seal the revision.
#[derive(Debug, PartialEq, Eq)]
pub struct RevisionUpdateRequest {
    pub manifest_signature: String,
    pub signature_address: String,
    pub checksum_verified: bool,
    pub extended_attributes: Option<String>,
    pub photos_attributes: Option<PhotosAttributesDto>,
}

/// Photo-specific revision attributes, attached to the seal request for photo uploads.
#[derive(Debug, PartialEq, Eq)]
pub struct PhotosAttributesDto {
    pub capture_time: i64,
    pub content_hash: String,
    pub main_photo_link_id: Option<LinkId>,
    pub tags: Vec<i32>,
}

/// `POST v2/volumes/{vid}/files/small` — create a file and its content in one request.
#[derive(Debug, PartialEq, Eq)]
pub struct SmallFileUploadMetadataRequest {
    pub name: String,
    pub name_hash: String,
    pub parent_link_id: LinkId,
    pub passphrase: String,
    pub passphrase_signature: String,
    pub key: String,
    pub media_type: String,
    pub content_key_packet: String,
    pub content_key_signature: String,
    pub manifest_signature: String,
    pub checksum_verified: bool,
    pub signature_email: String,
    pub content_block_verification_token: Option<String>,
    pub extended_attributes: String,
    pub photo: Option<PhotosAttributesDto>,
    pub content_block_encrypted_signature: Option<String>,
}

/// `POST v2/volumes/{vid}/files/{lid}/revisions/small` — create a revision and its
/// content in one request.
#[derive(Debug, PartialEq, Eq)]
pub struct SmallRevisionUploadMetadataRequest {
    pub current_revision_id: String,
    pub manifest_signature: String,
    pub checksum_verified: bool,
    pub signature_email: String,
    pub content_block_encrypted_signature: Option<String>,
    pub content_block_verification_token: Option<String>,
    pub extended_attributes: String,
}

/// The answer to a small upload.
#[derive(Debug, PartialEq, Eq)]
pub struct SmallUploadResponse {
    pub link_id: LinkId,
    pub revision_id: String,
}

/// `POST volumes/{vid}/photos/duplicates` — ask which photos have one of these names.
#[derive(Debug, PartialEq, Eq)]
pub struct FindPhotoDuplicatesRequest {
    pub name_hashes: Vec<String>,
}

/// The photos that have one of the names.
#[derive(Debug, PartialEq, Eq)]
pub struct FindPhotoDuplicatesResponse {
    pub duplicate_hashes: Vec<PhotoDuplicateDto>,
}

/// A photo that has one of the names.
#[derive(Debug, PartialEq, Eq)]
pub struct PhotoDuplicateDto {
    pub name_hash: String,
    pub content_hash: String,
    pub link_state: Option<i32>,
    pub client_uid: Option<String>,
    pub link_id: Option<LinkId>,
}

/// `POST` and `DELETE photos/volumes/{vid}/links/{lid}/tags`.
#[derive(Debug, PartialEq, Eq)]
pub struct PhotoTagsRequest {
    pub tags: Vec<i32>,
}

/// The decrypted `XAttr` JSON payload for a revision (encrypted to the node key before
/// upload).
#[derive(Debug, PartialEq, Eq)]
pub struct ExtendedAttributes {
    pub common: CommonExtendedAttributes,
}

/// The claims written with an upload. A file seals its size, block sizes and digests; a
/// folder only a modification time.
#[derive(Debug, PartialEq, Eq)]
pub struct CommonExtendedAttributes {
    pub size: Option<i64>,
    pub modification_time: Option<String>,
    pub block_sizes: Option<Vec<i32>>,
    pub digests: Option<FileContentDigests>,
}

/// The digests recorded for a revision.
#[derive(Debug, PartialEq, Eq)]
pub struct FileContentDigests {
    pub sha1: String,
}

/// `GET volumes/{vid}/events/latest` — seeds the enumeration cursor.
#[derive(Debug, PartialEq, Eq)]
pub struct LatestVolumeEventResponse {
    pub event_id: DriveEventId,
}

/// `GET v2/volumes/{vid}/events/{cursor}` — one page of volume events.
#[derive(Debug, PartialEq, Eq)]
pub struct VolumeEventListResponse {
    pub last_event_id: DriveEventId,
    pub events: Vec<VolumeEventDto>,
    pub more_entries_exist: bool,
    pub refresh_required: bool,
}

/// A single volume event.
#[derive(Debug, PartialEq, Eq)]
pub struct VolumeEventDto {
    pub id: DriveEventId,
    pub event_type: i32,
    pub link: VolumeEventLinkDto,
}

/// The affected link of a volume event.
#[derive(Debug, PartialEq, Eq)]
pub struct VolumeEventLinkDto {
    pub id: LinkId,
    pub parent_id: Option<LinkId>,
    pub is_shared: bool,
    pub is_trashed: bool,
}

/// `GET shares/{sid}` — a share and the material needed to unlock its key.
#[derive(Debug, PartialEq, Eq)]
pub struct ShareResponse {
    pub share: ShareDto,
    pub volume_id: VolumeId,
    pub root_link_id: LinkId,
}

/// `GET v2/sharedwithme` — one page of the items other users share with us.
#[derive(Debug, PartialEq, Eq)]
pub struct SharedWithMeResponse {
    pub links: Vec<SharedWithMeLinkDto>,
    pub anchor_id: Option<String>,
    pub more: bool,
}

/// One shared-with-me item.
#[derive(Debug, PartialEq, Eq)]
pub struct SharedWithMeLinkDto {
    pub volume_id: VolumeId,
    pub share_id: ShareId,
    pub link_id: LinkId,
    pub share_target_type: i32,
}

/// `GET drive/v2/volumes/{volumeID}/shares` — one page of the collaborative shares I
/// own that are still live (have members, invitations or a public URL).
#[derive(Debug, PartialEq, Eq)]
pub struct SharedByMeResponse {
    pub links: Vec<SharedByMeLinkDto>,
    pub anchor_id: Option<String>,
    pub more: bool,
}

/// One shared-by-me item.
#[derive(Debug, PartialEq, Eq)]
pub struct SharedByMeLinkDto {
    pub share_id: ShareId,
    pub link_id: LinkId,
}

/// `GET devices` — the account's registered devices.
#[derive(Debug, PartialEq, Eq)]
pub struct DeviceListResponse {
    pub devices: Vec<DeviceListItemDto>,
}

/// A device and the share holding its root folder.
#[derive(Debug, PartialEq, Eq)]
pub struct DeviceListItemDto {
    pub device: DeviceDataDto,
    pub share: DeviceShareDataDto,
}

/// A registered device.
#[derive(Debug, PartialEq, Eq)]
pub struct DeviceDataDto {
    pub id: String,
    pub volume_id: VolumeId,
    pub device_type: i32,
    pub creation_time: i64,
    pub last_sync_time: Option<i64>,
}

/// The share holding a device root folder.
#[derive(Debug, PartialEq, Eq)]
pub struct DeviceShareDataDto {
    pub id: ShareId,
    pub root_link_id: LinkId,
    pub name: Option<String>,
}

/// `POST devices` — register a device with its own share and root folder.
#[derive(Debug, PartialEq, Eq)]
pub struct DeviceCreationRequest {
    pub device: DeviceCreationDeviceDto,
    pub share: DeviceCreationShareDto,
    pub link: DeviceCreationLinkDto,
}

/// The device part of a registration.
#[derive(Debug, PartialEq, Eq)]
pub struct DeviceCreationDeviceDto {
    pub device_type: i32,
    pub sync_state: i32,
}

/// The share part of a device registration.
#[derive(Debug, PartialEq, Eq)]
pub struct DeviceCreationShareDto {
    pub address_id: String,
    pub address_key_id: String,
    pub key: String,
    pub passphrase: String,
    pub passphrase_signature: String,
}

/// The root folder part of a device registration.
#[derive(Debug, PartialEq, Eq)]
pub struct DeviceCreationLinkDto {
    pub name: String,
    pub key: String,
    pub passphrase: String,
    pub passphrase_signature: String,
    pub node_hash_key: String,
}

/// `POST devices` response.
#[derive(Debug, PartialEq, Eq)]
pub struct DeviceCreationResponse {
    pub device: DeviceCreationResultDto,
}

/// The identifiers of a new device.
#[derive(Debug, PartialEq, Eq)]
pub struct DeviceCreationResultDto {
    pub id: String,
    pub share_id: ShareId,
    pub root_link_id: LinkId,
}

/// `PUT devices/{uid}` — only ever used to clear the deprecated share-held name.
#[derive(Debug, PartialEq, Eq)]
pub struct DeviceUpdateRequest {
    pub share: DeviceUpdateShareDto,
}

/// The share-held name of a device.
#[derive(Debug, PartialEq, Eq)]
pub struct DeviceUpdateShareDto {
    pub name: String,
}

/// `POST volumes/{volumeID}/shares` — create a standard share on a node.
#[derive(Debug, PartialEq, Eq)]
pub struct CreateShareRequest {
    pub root_link_id: LinkId,
    pub address_id: String,
    pub name: String,
    pub share_key: String,
    pub share_passphrase: String,
    pub share_passphrase_signature: String,
    pub passphrase_key_packet: String,
    pub name_key_packet: String,
}

/// The share that was created.
#[derive(Debug, PartialEq, Eq)]
pub struct CreateShareResponse {
    pub share: CreatedShareDto,
}

/// The identifier of a new share.
#[derive(Debug, PartialEq, Eq)]
pub struct CreatedShareDto {
    pub id: ShareId,
    pub editors_can_share: bool,
}

/// `POST v2/shares/{shareID}/invitations` — invite a Proton user.
#[derive(Debug, PartialEq, Eq)]
pub struct InviteProtonUserRequest {
    pub invitation: InviteProtonUserInvitationDto,
    pub email_details: InviteEmailDetailsDto,
}

/// The signed part of an invitation.
#[derive(Debug, PartialEq, Eq)]
pub struct InviteProtonUserInvitationDto {
    pub inviter_email: String,
    pub invitee_email: String,
    pub permissions: i32,
    pub key_packet: String,
    pub key_packet_signature: String,
    pub external_invitation_id: Option<String>,
}

/// What the invitation mail says.
#[derive(Debug, PartialEq, Eq)]
pub struct InviteEmailDetailsDto {
    pub message: Option<String>,
    pub item_name: Option<String>,
}

/// The invitation that was created.
#[derive(Debug, PartialEq, Eq)]
pub struct InviteProtonUserResponse {
    pub invitation: ShareInvitationDto,
}

/// `GET v2/shares/{shareID}/invitations`.
#[derive(Debug, PartialEq, Eq)]
pub struct ShareInvitationsResponse {
    pub invitations: Vec<ShareInvitationDto>,
}

/// A pending invitation to a share.
#[derive(Debug, PartialEq, Eq)]
pub struct ShareInvitationDto {
    pub invitation_id: String,
    pub inviter_email: String,
    pub invitee_email: String,
    pub permissions: Option<i32>,
    pub create_time: i64,
}

/// `GET v2/shares/{shareID}/members`.
#[derive(Debug, PartialEq, Eq)]
pub struct ShareMembersResponse {
    pub members: Vec<ShareMemberDto>,
}

/// A member of a share.
#[derive(Debug, PartialEq, Eq)]
pub struct ShareMemberDto {
    pub member_id: String,
    pub inviter_email: String,
    pub email: String,
    pub permissions: Option<i32>,
    pub create_time: i64,
}

/// `PUT v2/shares/{shareID}/members/{memberID}` and the invitation equivalent.
#[derive(Debug, PartialEq, Eq)]
pub struct UpdatePermissionsRequest {
    pub permissions: i32,
}

/// `GET v2/shares/invitations` — the invitations where we are the invitee.
#[derive(Debug, PartialEq, Eq)]
pub struct InvitationsListResponse {
    pub invitations: Vec<InvitationListItemDto>,
    pub more: bool,
    pub anchor_id: Option<String>,
}

/// One pending invitation, as listed.
#[derive(Debug, PartialEq, Eq)]
pub struct InvitationListItemDto {
    pub invitation_id: String,
    pub share_id: String,
    pub share_target_type: i32,
}

/// `GET v2/shares/invitations/{invitationID}` — the encrypted invitation, the share
/// crypto needed to decrypt it, and the shared node's link.
#[derive(Debug, PartialEq, Eq)]
pub struct InvitationDetailsResponse {
    pub invitation: IncomingInvitationDto,
    pub share: InvitationShareDto,
    pub link: InvitationLinkDto,
}

/// An invitation addressed to us.
#[derive(Debug, PartialEq, Eq)]
pub struct IncomingInvitationDto {
    pub invitation_id: String,
    pub inviter_email: String,
    pub invitee_email: String,
    pub key_packet: String,
    pub key_packet_signature: String,
    pub permissions: Option<i32>,
    pub create_time: i64,
}

/// The share an invitation is for.
#[derive(Debug, PartialEq, Eq)]
pub struct InvitationShareDto {
    pub share_key: String,
    pub passphrase: String,
    pub creator_email: String,
    pub volume_id: String,
    pub share_target_type: i32,
}

/// The link an invitation is for.
#[derive(Debug, PartialEq, Eq)]
pub struct InvitationLinkDto {
    pub link_id: String,
    pub link_type: i32,
    pub mime_type: Option<String>,
    pub name: String,
}

/// `POST v2/shares/invitations/{invitationID}/accept`.
#[derive(Debug, PartialEq, Eq)]
pub struct AcceptInvitationRequest {
    pub session_key_signature: String,
}

/// `POST v2/shares/{shareID}/external-invitations`.
#[derive(Debug, PartialEq, Eq)]
pub struct InviteExternalUserRequest {
    pub external_invitation: ExternalInvitationDto,
    pub email_details: InviteEmailDetailsDto,
}

/// The signed part of an external invitation.
#[derive(Debug, PartialEq, Eq)]
pub struct ExternalInvitationDto {
    pub inviter_address_id: String,
    pub invitee_email: String,
    pub permissions: i32,
    pub external_invitation_signature: String,
}

/// The external invitation that was created.
#[derive(Debug, PartialEq, Eq)]
pub struct InviteExternalUserResponse {
    pub external_invitation: ExternalInvitationResponseDto,
}

/// `GET v2/shares/{shareID}/external-invitations`.
#[derive(Debug, PartialEq, Eq)]
pub struct ExternalInvitationsResponse {
    pub external_invitations: Vec<ExternalInvitationResponseDto>,
}

/// An invitation of somebody without an account.
#[derive(Debug, PartialEq, Eq)]
pub struct ExternalInvitationResponseDto {
    pub external_invitation_id: String,
    pub inviter_email: String,
    pub invitee_email: String,
    pub permissions: Option<i32>,
    pub create_time: i64,
    pub state: i32,
}

/// `GET v2/shared-bookmarks`.
#[derive(Debug, PartialEq, Eq)]
pub struct BookmarksResponse {
    pub bookmarks: Vec<BookmarkDto>,
}

/// A saved public link.
#[derive(Debug, PartialEq, Eq)]
pub struct BookmarkDto {
    pub token: BookmarkTokenDto,
    pub create_time: i64,
    pub encrypted_url_password: Option<String>,
}

/// What a saved public link points at.
#[derive(Debug, PartialEq, Eq)]
pub struct BookmarkTokenDto {
    pub token: String,
    pub share_key: String,
    pub share_passphrase: String,
    pub share_password_salt: String,
    pub link_type: i32,
    pub mime_type: Option<String>,
    pub name: String,
    pub node_key: String,
    pub node_passphrase: String,
    pub content_key_packet: Option<String>,
}

/// `POST v2/urls/{token}/bookmark`.
#[derive(Debug, PartialEq, Eq)]
pub struct CreateBookmarkRequest {
    pub bookmark_share_url: BookmarkShareUrlDto,
}

/// The sealed password of a saved public link.
#[derive(Debug, PartialEq, Eq)]
pub struct BookmarkShareUrlDto {
    pub encrypted_url_password: String,
    pub address_id: String,
    pub address_key_id: String,
}

/// `POST auth/v4/modulus` (root route) — a fresh signed SRP modulus.
#[derive(Debug, PartialEq, Eq)]
pub struct ModulusResponse {
    pub modulus: String,
    pub modulus_id: String,
}

/// `POST shares/{shareID}/urls` — create a public link.
#[derive(Debug, PartialEq, Eq)]
pub struct CreatePublicLinkRequest {
    pub creator_email: String,
    pub permissions: i32,
    pub flags: i32,
    pub expiration_time: Option<i64>,
    pub share_password_salt: String,
    pub share_passphrase_key_packet: String,
    pub password: String,
    pub url_password_salt: String,
    pub srp_verifier: String,
    pub srp_modulus_id: String,
    pub max_accesses: i32,
}

/// The public link that was created.
#[derive(Debug, PartialEq, Eq)]
pub struct CreatePublicLinkResponse {
    pub share_url: ShareUrlDto,
}

/// `GET shares/{shareID}/urls`.
#[derive(Debug, PartialEq, Eq)]
pub struct ShareUrlsResponse {
    pub share_urls: Vec<ShareUrlDto>,
}

/// A public link of a share.
#[derive(Debug, PartialEq, Eq)]
pub struct ShareUrlDto {
    pub share_url_id: String,
    pub share_id: Option<ShareId>,
    pub public_url: String,
    pub password: Option<String>,
    pub create_time: i64,
    pub expiration_time: Option<i64>,
    pub permissions: Option<i32>,
    pub flags: i32,
    pub num_accesses: i64,
}

/// `GET urls/{token}/info` — opens the SRP handshake for a public link.
#[derive(Debug, Clone, PartialEq, Eq)]
pub struct PublicLinkInfoResponse {
    pub version: i32,
    pub modulus: String,
    pub server_ephemeral: String,
    pub url_password_salt: String,
    pub srp_session: String,
    pub flags: i32,
    pub vendor_type: i32,
}

/// `POST urls/{token}/auth` — completes the SRP handshake.
#[derive(Debug, PartialEq, Eq)]
pub struct PublicLinkAuthRequest {
    pub client_proof: String,
    pub client_ephemeral: String,
    pub srp_session: String,
}

/// The answer that ends the handshake of a public link.
#[derive(Debug, Clone, PartialEq, Eq)]
pub struct PublicLinkAuthResponse {
    pub server_proof: String,
    pub uid: String,
    pub access_token: Option<String>,
    pub share: PublicLinkShareDto,
}

/// The link's share crypto, returned by the auth handshake.
#[derive(Debug, Clone, PartialEq, Eq)]
pub struct PublicLinkShareDto {
    pub volume_id: VolumeId,
    pub link_id: LinkId,
    pub share_password_salt: String,
    pub share_key: String,
    pub share_passphrase: String,
    pub public_permissions: Option<i32>,
}

/// `GET v2/volumes/{vid}/files/{lid}/revisions` — a file's revision history.
#[derive(Debug, PartialEq, Eq)]
pub struct RevisionListResponse {
    pub revisions: Vec<RevisionListItemDto>,
}

/// `GET …/revisions/{rid}?NoBlockUrls=true` — one revision's metadata.
#[derive(Debug, PartialEq, Eq)]
pub struct RevisionMetadataResponse {
    pub revision: RevisionListItemDto,
}

/// One entry of a revision listing.
#[derive(Debug, PartialEq, Eq)]
pub struct RevisionListItemDto {
    pub id: String,
    pub state: Option<i32>,
    pub creation_time: i64,
    pub size: i64,
    pub manifest_signature: Option<String>,
    pub signature_email: Option<String>,
    pub extended_attributes: Option<String>,
    pub thumbnails: Vec<ThumbnailDto>,
}

/// The revision that stands in the way of a new one, as the server describes it.
#[derive(Debug, PartialEq, Eq)]
pub struct RevisionConflict {
    pub link_id: Option<LinkId>,
    pub revision_id: Option<String>,
    pub draft_revision_id: Option<String>,
    pub draft_client_uid: Option<String>,
}

/// The type of a link.
#[derive(Debug, Clone, Copy, PartialEq, Eq, Structural)]
pub enum LinkType {
    Folder,
    File,
    Album,
    Unknown,
}

/// The link type that the wire value stands for.
pub open spec fn link_type_of(raw: int) -> LinkType {
    if raw == 1 {
        LinkType::Folder
    } else if raw == 2 {
        LinkType::File
    } else if raw == 3 {
        LinkType::Album
    } else {
        LinkType::Unknown
    }
}

impl LinkType {
    pub fn from_raw(raw: i32) -> (r: LinkType)
        ensures
            r == link_type_of(raw as int),
            r == LinkType::Folder <==> raw == 1,
            r == LinkType::File <==> raw == 2,
            r == LinkType::Album <==> raw == 3,
    {
        match raw {
            1 => LinkType::Folder,
            2 => LinkType::File,
            3 => LinkType::Album,
            _ => LinkType::Unknown,
        }
    }
}

/// The state of a link.
#[derive(Debug, Clone, Copy, PartialEq, Eq, Structural)]
pub enum LinkState {
    Draft,
    Active,
    Trashed,
    Deleted,
    Restoring,
}

impl LinkState {
    /// The wire value of the state.
    pub open spec fn wire(self) -> int {
        match self {
            LinkState::Draft => 0,
            LinkState::Active => 1,
            LinkState::Trashed => 2,
            LinkState::Deleted => 3,
            LinkState::Restoring => 4,
        }
    }

    pub fn as_i32(self) -> (r: i32)
        ensures
            r == self.wire(),
            self == LinkState::Draft ==> r == 0,
            self == LinkState::Active ==> r == 1,
            self == LinkState::Trashed ==> r == 2,
            self == LinkState::Deleted ==> r == 3,
            self == LinkState::Restoring ==> r == 4,
    {
        match self {
            LinkState::Draft => 0,
            LinkState::Active => 1,
            LinkState::Trashed => 2,
            LinkState::Deleted => 3,
            LinkState::Restoring => 4,
        }
    }
}

impl LinkDto {
    /// Whether the link is in the trash, by its state or by its trash time.
    pub open spec fn in_trash(self) -> bool {
        self.state == LinkState::Trashed.wire() || self.trash_time is Some
    }

    pub fn parsed_type(&self) -> (r: LinkType)
        ensures
            r == link_type_of(self.link_type as int),
            r == LinkType::Folder <==> self.link_type == 1,
            r == LinkType::File <==> self.link_type == 2,
            r == LinkType::Album <==> self.link_type == 3,
    {
        LinkType::from_raw(self.link_type)
    }

    pub fn is_trashed(&self) -> (r: bool)
        ensures
            r == self.in_trash(),
            r <==> self.state == 2 || self.trash_time is Some,
    {
        self.state == LinkState::Trashed.as_i32() || self.trash_time.is_some()
    }
}

impl LinkDetailsDto {
    /// The file data of a file or photo: the file block, or the one within the
    /// photo block.
    pub open spec fn file_data(self) -> Option<FileDto> {
        match self.file {
            Some(file) => Some(file),
            None => match self.photo {
                Some(photo) => Some(photo.file),
                None => None,
            },
        }
    }

    /// The armored hash key of a folder or an album.
    pub open spec fn hash_key(self) -> Option<String> {
        match self.folder {
            Some(folder) => Some(folder.hash_key),
            None => match self.album {
                Some(album) => Some(album.hash_key),
                None => None,
            },
        }
    }

    pub fn file_properties(&self) -> (r: Option<&FileDto>)
        ensures
            r is Some == self.file_data() is Some,
            r is Some ==> *r->0 == self.file_data()->0,
            r is Some <==> self.file is Some || self.photo is Some,
            self.file is Some ==> *r->0 == self.file->0,
            self.file is None && self.photo is Some ==> *r->0 == self.photo->0.file,
    {
        match &self.file {
            Some(file) => Some(file),
            None => match &self.photo {
                Some(photo) => Some(&photo.file),
                None => None,
            },
        }
    }

    /// The hash key under which the names of the children are hashed. An album
    /// carries its own.
    pub fn folder_hash_key(&self) -> (r: Option<&String>)
        ensures
            r is Some == self.hash_key() is Some,
            r is Some ==> *r->0 == self.hash_key()->0,
            r is Some <==> self.folder is Some || self.album is Some,
            self.folder is Some ==> *r->0 == self.folder->0.hash_key,
            self.folder is None && self.album is Some ==> *r->0 == self.album->0.hash_key,
    {
        match &self.folder {
            Some(folder) => Some(&folder.hash_key),
            None => match &self.album {
                Some(album) => Some(&album.hash_key),
                None => None,
            },
        }
    }
}

/// The kind of item a share points at.
#[derive(Debug, Clone, Copy, PartialEq, Eq, Structural)]
pub enum ShareTargetType {
    Root,
    Folder,
    File,
    Album,
    Photo,
    ProtonVendor,
}

impl ShareTargetType {
    /// The wire value of the kind.
    pub open spec fn wire(self) -> int {
        match self {
            ShareTargetType::Root => 0,
            ShareTargetType::Folder => 1,
            ShareTargetType::File => 2,
            ShareTargetType::Album => 3,
            ShareTargetType::Photo => 4,
            ShareTargetType::ProtonVendor => 5,
        }
    }

    /// The kinds that belong to Drive: folders, files and vendor items.
    pub open spec fn drive_owned(self) -> bool {
        self is Folder || self is File || self is ProtonVendor
    }

    /// The kinds that belong to Photos: photos and albums.
    pub open spec fn photos_owned(self) -> bool {
        self is Photo || self is Album
    }

    /// The kind with wire value `value`; `None` for a value without one.
    pub fn from_raw(value: i32) -> (r: Option<ShareTargetType>)
        ensures
            r is Some ==> r->0.wire() == value,
            r is None ==> !(0 <= value <= 5),
            r is Some <==> 0 <= value <= 5,
            r == Some(ShareTargetType::Root) <==> value == 0,
            r == Some(ShareTargetType::Folder) <==> value == 1,
            r == Some(ShareTargetType::File) <==> value == 2,
            r == Some(ShareTargetType::Album) <==> value == 3,
            r == Some(ShareTargetType::Photo) <==> value == 4,
            r == Some(ShareTargetType::ProtonVendor) <==> value == 5,
    {
        match value {
            0 => Some(ShareTargetType::Root),
            1 => Some(ShareTargetType::Folder),
            2 => Some(ShareTargetType::File),
            3 => Some(ShareTargetType::Album),
            4 => Some(ShareTargetType::Photo),
            5 => Some(ShareTargetType::ProtonVendor),
            _ => None,
        }
    }

    pub fn is_drive_item(self) -> (r: bool)
        ensures
            r == self.drive_owned(),
            r <==> self == ShareTargetType::Folder || self == ShareTargetType::File || self
                == ShareTargetType::ProtonVendor,
    {
        match self {
            ShareTargetType::Folder | ShareTargetType::File | ShareTargetType::ProtonVendor => true,
            _ => false,
        }
    }

    pub fn is_photos_item(self) -> (r: bool)
        ensures
            r == self.photos_owned(),
            r <==> self == ShareTargetType::Photo || self == ShareTargetType::Album,
    {
        match self {
            ShareTargetType::Photo | ShareTargetType::Album => true,
            _ => false,
        }
    }
}

/// Whether the wire value names a kind that belongs to Drive.
pub open spec fn is_drive_target(raw: int) -> bool {
    raw == 1 || raw == 2 || raw == 5
}

/// Whether the wire value names a kind that belongs to Photos.
pub open spec fn is_photos_target(raw: int) -> bool {
    raw == 3 || raw == 4
}

/// No kind of share target belongs to both Drive and Photos, and only the root
/// belongs to neither.
pub proof fn law_share_targets_have_one_owner(kind: ShareTargetType)
    ensures
        !(kind.drive_owned() && kind.photos_owned()),
        kind is Root <==> !kind.drive_owned() && !kind.photos_owned(),
        kind.drive_owned() <==> is_drive_target(kind.wire()),
        kind.photos_owned() <==> is_photos_target(kind.wire()),
{
}

/// The wire knows a link by its number: folders, files and albums each have one, and
/// the trash is a state of its own or a time in the trash.
pub proof fn law_wire_numbers_of_links(link: LinkDto, details: LinkDetailsDto)
    ensures
        link_type_of(1) == LinkType::Folder,
        link_type_of(2) == LinkType::File,
        link_type_of(3) == LinkType::Album,
        forall|raw: int| raw < 1 || 3 < raw ==> #[trigger] link_type_of(raw) == LinkType::Unknown,
        link.in_trash() <==> link.state == 2 || link.trash_time is Some,
        details.file is Some ==> details.file_data() == details.file,
        details.file is None && details.photo is Some ==> details.file_data() == Some(
            details.photo->0.file,
        ),
        details.file is None && details.photo is None ==> details.file_data() is None,
        details.folder is Some ==> details.hash_key() == Some(details.folder->0.hash_key),
        details.folder is None && details.album is Some ==> details.hash_key() == Some(
            details.album->0.hash_key,
        ),
        details.folder is None && details.album is None ==> details.hash_key() is None,
{
}

impl PublicLinkInfoResponse {
    /// Whether the link needs a custom password beside the one in its address.
    pub fn is_custom_password_protected(&self) -> (r: bool)
        ensures
            r == (self.flags & 1 == 1),
    {
        self.flags & 1 == 1
    }

    /// Whether the link is of the format that cannot be opened any more.
    pub fn is_legacy(&self) -> (r: bool)
        ensures
            r == (self.flags == 0 || self.flags == 1),
    {
        self.flags == 0 || self.flags == 1
    }
}

impl Clone for BlockDto {
    fn clone(&self) -> (r: BlockDto)
        ensures
            r == *self,
    {
        BlockDto {
            index: self.index,
            bare_url: self.bare_url.clone(),
            token: self.token.clone(),
        }
    }
}

} // verus!
