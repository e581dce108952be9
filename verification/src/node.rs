//! Nodes as callers see them: decrypted folders and files.

use vstd::prelude::*;

use crate::error::{invalid, ProtonError};
use crate::events::DriveEventScopeId;
use crate::ids::NodeUid;
use crate::photos::PhotoTag;
use crate::sharing::ShareMembership;

verus! {

/// How the check of one signature came out.
#[derive(Debug, Clone, Copy, PartialEq, Eq, Structural)]
pub enum VerificationStatus {
    Verified,
    NotSigned,
    NoVerifier,
    Failed,
}

impl VerificationStatus {
    /// Whether the outcome leaves trust intact. A missing signature does.
    pub open spec fn acceptable(self) -> bool {
        self is Verified || self is NotSigned
    }

    fn is_acceptable(self) -> (r: bool)
        ensures
            r == self.acceptable(),
    {
        match self {
            VerificationStatus::Verified | VerificationStatus::NotSigned => true,
            _ => false,
        }
    }
}

/// How the signatures met while decrypting a node came out. The file-only ones are
/// `None` for folders and where the signed thing is absent.
#[derive(Debug, Clone, Copy, PartialEq, Eq, Structural)]
pub struct NodeVerification {
    pub name: VerificationStatus,
    pub passphrase: VerificationStatus,
    pub content_key: Option<VerificationStatus>,
    pub extended_attributes: Option<VerificationStatus>,
}

impl Default for NodeVerification {
    fn default() -> (r: NodeVerification)
        ensures
            r == (NodeVerification {
                name: VerificationStatus::NotSigned,
                passphrase: VerificationStatus::NotSigned,
                content_key: None,
                extended_attributes: None,
            }),
    {
        NodeVerification {
            name: VerificationStatus::NotSigned,
            passphrase: VerificationStatus::NotSigned,
            content_key: None,
            extended_attributes: None,
        }
    }
}

impl NodeVerification {
    /// Whether no signature that was present failed to verify.
    pub fn is_fully_verified(&self) -> (r: bool)
        ensures
            r == {
                &&& self.name.acceptable()
                &&& self.passphrase.acceptable()
                &&& self.content_key is Some ==> self.content_key->0.acceptable()
                &&& self.extended_attributes is Some ==> self.extended_attributes->0.acceptable()
            },
            r <==> {
                &&& self.name == VerificationStatus::Verified || self.name == VerificationStatus::NotSigned
                &&& self.passphrase == VerificationStatus::Verified || self.passphrase
                    == VerificationStatus::NotSigned
                &&& self.content_key is Some ==> self.content_key->0 == VerificationStatus::Verified
                    || self.content_key->0 == VerificationStatus::NotSigned
                &&& self.extended_attributes is Some ==> self.extended_attributes->0
                    == VerificationStatus::Verified || self.extended_attributes->0
                    == VerificationStatus::NotSigned
            },
    {
        let content_key: bool = match self.content_key {
            Some(status) => status.is_acceptable(),
            None => true,
        };
        let extended_attributes: bool = match self.extended_attributes {
            Some(status) => status.is_acceptable(),
            None => true,
        };
        self.name.is_acceptable() && self.passphrase.is_acceptable() && content_key
            && extended_attributes
    }
}

/// Whether a revision is the one a file shows.
#[derive(Debug, Clone, Copy, PartialEq, Eq, Structural)]
pub enum RevisionState {
    Active,
    Superseded,
}

impl RevisionState {
    /// The state with a wire value. Whatever is not superseded is active: the
    /// revision that a file shows is active by definition, also where the server
    /// leaves the state out.
    pub open spec fn with_wire(value: Option<i32>) -> RevisionState {
        if value == Some(2i32) {
            RevisionState::Superseded
        } else {
            RevisionState::Active
        }
    }

    pub fn from_raw(value: Option<i32>) -> (r: RevisionState)
        ensures
            r == RevisionState::with_wire(value),
            r == RevisionState::Superseded <==> value == Some(2i32),
    {
        match value {
            Some(2) => RevisionState::Superseded,
            _ => RevisionState::Active,
        }
    }
}

/// What a node is.
#[derive(Debug, Clone, PartialEq, Eq)]
pub enum NodeKind {
    Folder,
    File {
        media_type: String,
        /// Size of the ciphertext, in bytes.
        total_size_on_storage: i64,
        /// `None` when nothing has been sealed yet.
        active_revision_state: Option<RevisionState>,
        active_revision_id: Option<String>,
        /// Size of the plaintext, as the uploader claims it.
        claimed_size: Option<i64>,
        /// Modification time as the uploader wrote it.
        claimed_modification_time: Option<String>,
        /// SHA-1 of the plaintext in lowercase hex, as the uploader claims it.
        content_sha1: Option<String>,
    },
}

/// What a photo has beside what a file has.
#[derive(Debug, Clone, PartialEq, Eq)]
pub struct PhotoProperties {
    pub capture_time: i64,
    pub content_hash: Option<String>,
    pub main_photo_uid: Option<NodeUid>,
    pub related_photo_uids: Vec<NodeUid>,
    pub tags: Vec<PhotoTag>,
    pub album_uids: Vec<NodeUid>,
}

/// What an album has beside what a folder has.
#[derive(Debug, Clone, PartialEq, Eq)]
pub struct AlbumProperties {
    pub photo_count: i32,
    pub cover_photo_uid: Option<NodeUid>,
    /// `None` when the album has seen no activity.
    pub last_activity_time: Option<i64>,
}

/// A decrypted node.
#[derive(Debug, Clone, PartialEq, Eq)]
pub struct Node {
    pub uid: NodeUid,
    pub parent_uid: Option<NodeUid>,
    pub kind: NodeKind,
    pub name: String,
    pub creation_time: i64,
    pub modification_time: i64,
    pub trashed: bool,
    /// Shared at all: with members, by public link, or both.
    pub is_shared: bool,
    /// Shared by public link.
    pub is_shared_publicly: bool,
    pub signature_email: Option<String>,
    /// Our membership, where the node is shared with us.
    pub membership: Option<ShareMembership>,
    pub photo: Option<PhotoProperties>,
    pub album: Option<AlbumProperties>,
    pub verification: NodeVerification,
}

impl Node {
    pub fn is_folder(&self) -> (r: bool)
        ensures
            r == self.kind is Folder,
    {
        match &self.kind {
            NodeKind::Folder => true,
            _ => false,
        }
    }

    pub fn is_file(&self) -> (r: bool)
        ensures
            r == self.kind is File,
    {
        match &self.kind {
            NodeKind::File { .. } => true,
            _ => false,
        }
    }

    /// The scope of the events about this node: its volume.
    pub fn tree_event_scope_id(&self) -> (r: DriveEventScopeId)
        ensures
            r.volume == self.uid.volume_id,
    {
        DriveEventScopeId::new(self.uid.volume_id.clone())
    }
}

/// The size of a thumbnail.
#[derive(Debug, Clone, Copy, PartialEq, Eq, PartialOrd, Ord, Structural)]
pub enum ThumbnailType {
    /// The small one.
    Thumbnail,
    /// The larger preview.
    Preview,
}

impl ThumbnailType {
    /// The wire value of the size.
    pub open spec fn wire(self) -> int {
        match self {
            ThumbnailType::Thumbnail => 1,
            ThumbnailType::Preview => 2,
        }
    }

    pub fn as_i32(self) -> (r: i32)
        ensures
            r == self.wire(),
            self == ThumbnailType::Thumbnail ==> r == 1,
            self == ThumbnailType::Preview ==> r == 2,
    {
        match self {
            ThumbnailType::Thumbnail => 1,
            ThumbnailType::Preview => 2,
        }
    }
}

/// A rendered thumbnail to go with an upload.
#[derive(Debug, PartialEq, Eq)]
pub struct Thumbnail {
    pub thumbnail_type: ThumbnailType,
    pub content: Vec<u8>,
}

impl Thumbnail {
    /// A thumbnail of the given bytes, of which there must be some.
    pub fn new(thumbnail_type: ThumbnailType, content: Vec<u8>) -> (r: Result<
        Thumbnail,
        ProtonError,
    >)
        ensures
            match r {
                Ok(t) => content@.len() > 0 && t.thumbnail_type == thumbnail_type && t.content
                    == content,
                Err(e) => content@.len() == 0 && invalid(e, "Thumbnail content must not be empty."@),
            },
    {
        if content.is_empty() {
            return Err(ProtonError::invalid_operation("Thumbnail content must not be empty."));
        }
        Ok(Thumbnail { thumbnail_type, content })
    }
}

impl Clone for Thumbnail {
    fn clone(&self) -> (r: Thumbnail)
        ensures
            r.thumbnail_type == self.thumbnail_type,
            r.content@ == self.content@,
    {
        Thumbnail { thumbnail_type: self.thumbnail_type, content: self.content.clone() }
    }
}

/// What came of one file's thumbnail: its bytes, or why there are none.
#[derive(Debug, PartialEq, Eq)]
pub struct FileThumbnail {
    pub file_uid: NodeUid,
    pub result: Result<Vec<u8>, ProtonError>,
}

impl FileThumbnail {
    pub fn ok(file_uid: NodeUid, bytes: Vec<u8>) -> (r: FileThumbnail)
        ensures
            r.file_uid == file_uid,
            r.result == Ok::<Vec<u8>, ProtonError>(bytes),
    {
        FileThumbnail { file_uid, result: Ok(bytes) }
    }

    pub fn err(file_uid: NodeUid, error: ProtonError) -> (r: FileThumbnail)
        ensures
            r.file_uid == file_uid,
            r.result == Err::<Vec<u8>, ProtonError>(error),
    {
        FileThumbnail { file_uid, result: Err(error) }
    }
}

/// Verified and unsigned parts leave trust intact, and others do not. Sizes of previews
/// and states of revisions have their numbers.
pub proof fn law_numbers_of_nodes(status: VerificationStatus, state: Option<i32>)
    ensures
        status.acceptable() <==> status == VerificationStatus::Verified || status
            == VerificationStatus::NotSigned,
        RevisionState::with_wire(state) == RevisionState::Superseded <==> state == Some(2i32),
        ThumbnailType::Thumbnail.wire() == 1,
        ThumbnailType::Preview.wire() == 2,
{
}

} // verus!
