//! Opening a draft: the revision that an upload writes to. An upload that was cut
//! off leaves its draft behind, and the server refuses a second one; such a draft
//! is cleared away, but never one that may be somebody else's and never a file
//! that was finished.

use vstd::prelude::*;
use vstd::string::StringExecFns;

use crate::digest::{base64_encode, base64_text, name_hash, name_hash_text};
use crate::dtos::{
    AggregateLinksResponse, FileCreationRequest, FileCreationResponse, FolderCreationRequest,
    RevisionConflict, RevisionCreationRequest, RevisionCreationResponse,
};
use crate::error::{invalid, ProtonError, ResponseCode};
use crate::ids::{LinkId, NodeUid, VolumeId};
use crate::text::{decimal, owned, push_decimal, same_text, texts};

verus! {

/// How often a draft is asked for before giving up.
pub const MAX_DRAFT_ATTEMPTS: usize = 3;

/// A file to be created.
#[derive(Debug, PartialEq, Eq)]
pub struct FileDraftSpec {
    pub parent_uid: NodeUid,
    pub name: String,
    pub media_type: String,
    pub intended_upload_size: i64,
    /// Whether blocks are encrypted with authenticated encryption.
    pub aead: bool,
    /// Whether the file goes to the photos volume.
    pub for_photos: bool,
    /// Whether a draft of the same name by any client is replaced.
    pub override_existing_draft: bool,
}

/// The encrypted and signed secrets of a file to be created.
#[derive(Debug, PartialEq, Eq)]
pub struct FileSecrets {
    pub encrypted_name: String,
    pub passphrase: String,
    pub passphrase_signature: String,
    pub key: String,
    pub content_key_packet: Vec<u8>,
    pub content_key_signature: String,
}

/// A draft that is open for writing: the revision, and what encrypts and signs it.
#[derive(Debug, PartialEq, Eq)]
pub struct RevisionDraft {
    pub volume_id: VolumeId,
    pub link_id: LinkId,
    pub revision_id: String,
    pub node_key: String,
    pub content_key: String,
    pub address_id: String,
    pub email: String,
    pub signing_key: String,
    /// The hash key of the folder. Empty for a new revision of a file.
    pub parent_hash_key: Vec<u8>,
}

/// Whether the bytes fit into a string as base64.
pub open spec fn encodable(data: Seq<u8>) -> bool {
    4 * ((data.len() + 2) / 3) <= isize::MAX
}

/// The request that creates a file.
pub fn file_creation_request(
    spec: &FileDraftSpec,
    secrets: FileSecrets,
    parent_hash_key: &[u8],
    email: &str,
    client_uid: &str,
) -> (r: FileCreationRequest)
    requires
        encodable(secrets.content_key_packet@),
    ensures
        r.name == secrets.encrypted_name,
        r.name_hash@ == name_hash_text(
            parent_hash_key@,
            vstd::utf8::encode_utf8(spec.name@),
        ),
        r.parent_link_id == spec.parent_uid.link_id,
        r.passphrase == secrets.passphrase,
        r.passphrase_signature == secrets.passphrase_signature,
        r.key == secrets.key,
        r.media_type == spec.media_type,
        r.content_key_packet@ == base64_text(secrets.content_key_packet@),
        r.content_key_signature == secrets.content_key_signature,
        r.signature_address@ == email@,
        r.client_uid is Some,
        r.client_uid->0@ == client_uid@,
        r.intended_upload_size == spec.intended_upload_size,
{
    FileCreationRequest {
        name: secrets.encrypted_name,
        name_hash: name_hash(parent_hash_key, spec.name.as_str().as_bytes()),
        parent_link_id: spec.parent_uid.link_id.clone(),
        passphrase: secrets.passphrase,
        passphrase_signature: secrets.passphrase_signature,
        key: secrets.key,
        media_type: spec.media_type.clone(),
        content_key_packet: base64_encode(secrets.content_key_packet.as_slice()),
        content_key_signature: secrets.content_key_signature,
        signature_address: owned(email),
        client_uid: Some(owned(client_uid)),
        intended_upload_size: spec.intended_upload_size,
    }
}

/// The route that creates files on a volume.
pub fn files_path(volume_id: &VolumeId) -> (path: String)
    ensures
        path@ == "v2/volumes/"@ + volume_id@ + "/files"@,
{
    let mut path: String = owned("v2/volumes/");
    path.append(volume_id.as_str());
    path.append("/files");
    path
}

/// The encrypted and signed secrets of a folder to be created.
#[derive(Debug, PartialEq, Eq)]
pub struct FolderSecrets {
    pub encrypted_name: String,
    pub passphrase: String,
    pub passphrase_signature: String,
    pub key: String,
    pub node_hash_key: String,
}

/// The request that creates a folder.
pub fn folder_creation_request(
    parent_uid: &NodeUid,
    name: &str,
    parent_hash_key: &[u8],
    secrets: FolderSecrets,
    email: String,
    extended_attributes: Option<String>,
) -> (r: FolderCreationRequest)
    ensures
        r.name == secrets.encrypted_name,
        r.name_hash@ == name_hash_text(parent_hash_key@, vstd::utf8::encode_utf8(name@)),
        r.parent_link_id == parent_uid.link_id,
        r.passphrase == secrets.passphrase,
        r.passphrase_signature == secrets.passphrase_signature,
        r.key == secrets.key,
        r.node_hash_key == secrets.node_hash_key,
        r.signature_email == email,
        r.extended_attributes == extended_attributes,
{
    FolderCreationRequest {
        name: secrets.encrypted_name,
        name_hash: name_hash(parent_hash_key, name.as_bytes()),
        parent_link_id: parent_uid.link_id.clone(),
        passphrase: secrets.passphrase,
        passphrase_signature: secrets.passphrase_signature,
        key: secrets.key,
        node_hash_key: secrets.node_hash_key,
        signature_email: email,
        extended_attributes,
    }
}

/// The route that creates folders on a volume.
pub fn folders_path(volume_id: &VolumeId) -> (path: String)
    ensures
        path@ == "v2/volumes/"@ + volume_id@ + "/folders"@,
{
    let mut path: String = owned("v2/volumes/");
    path.append(volume_id.as_str());
    path.append("/folders");
    path
}

/// The request that opens a new revision over the active one.
pub fn revision_creation_request(
    active_revision_id: String,
    client_uid: &str,
    intended_upload_size: i64,
) -> (r: RevisionCreationRequest)
    ensures
        r.current_revision_id == active_revision_id,
        r.client_uid is Some,
        r.client_uid->0@ == client_uid@,
        r.intended_upload_size == intended_upload_size,
{
    RevisionCreationRequest {
        current_revision_id: active_revision_id,
        client_uid: Some(owned(client_uid)),
        intended_upload_size,
    }
}

// ---------------------------------------------------------------------------
// A new file
// ---------------------------------------------------------------------------

/// What opening the draft of a new file does next.
#[derive(Debug, PartialEq, Eq)]
pub enum FileDraftStep {
    /// Ask for the draft.
    Create,
    /// Delete the draft node that is in the way.
    Clear(LinkId),
    /// The draft is open.
    Open { link_id: LinkId, revision_id: String },
    /// Give up.
    Fail(ProtonError),
}

/// The draft of a new file, while it is being opened.
#[derive(Debug, PartialEq, Eq)]
pub struct FileDraftRun {
    pub client_uid: String,
    pub override_existing_draft: bool,
    pub attempts_left: usize,
}

/// Whether a draft belongs to the client.
pub open spec fn is_own(conflict: RevisionConflict, client_uid: Seq<char>) -> bool {
    conflict.draft_client_uid is Some && conflict.draft_client_uid->0@ == client_uid
}

/// Whether what is in the way of a new file can be cleared: a node with a draft and
/// no finished revision, and either the client's own or one to be replaced whoever
/// it belongs to.
pub open spec fn is_clearable(
    conflict: RevisionConflict,
    client_uid: Seq<char>,
    override_existing_draft: bool,
) -> bool {
    &&& conflict.link_id is Some
    &&& conflict.revision_id is None
    &&& conflict.draft_revision_id is Some
    &&& override_existing_draft || is_own(conflict, client_uid)
}

/// What is said when clearing drafts does not help.
pub open spec fn kept_conflicting() -> Seq<char> {
    "file draft creation kept conflicting after retries"@
}

fn owns(conflict: &RevisionConflict, client_uid: &str) -> (r: bool)
    ensures
        r == is_own(*conflict, client_uid@),
{
    match &conflict.draft_client_uid {
        Some(owner) => same_text(owner.as_str(), client_uid),
        None => false,
    }
}

impl FileDraftRun {
    pub fn start(client_uid: &str, override_existing_draft: bool) -> (run: FileDraftRun)
        ensures
            run.client_uid@ == client_uid@,
            run.override_existing_draft == override_existing_draft,
            run.attempts_left == MAX_DRAFT_ATTEMPTS,
    {
        FileDraftRun {
            client_uid: owned(client_uid),
            override_existing_draft,
            attempts_left: MAX_DRAFT_ATTEMPTS,
        }
    }

    /// Takes in the answer to the request for the draft. A conflict that can be
    /// cleared is; any other failure stands as it is.
    pub fn answered(&mut self, answer: Result<FileCreationResponse, ProtonError>) -> (step:
        FileDraftStep)
        requires
            old(self).attempts_left > 0,
        ensures
            final(self).client_uid == old(self).client_uid,
            final(self).override_existing_draft == old(self).override_existing_draft,
            final(self).attempts_left == old(self).attempts_left - 1,
            match answer {
                Ok(created) => step == (FileDraftStep::Open {
                    link_id: created.file.link_id,
                    revision_id: created.file.revision_id,
                }),
                Err(ProtonError::Api(e)) => if e.code == ResponseCode::AlreadyExists && e.details
                    is Some && is_clearable(
                    e.details->0,
                    old(self).client_uid@,
                    old(self).override_existing_draft,
                ) {
                    step == FileDraftStep::Clear(e.details->0.link_id->0)
                } else {
                    step == FileDraftStep::Fail(ProtonError::Api(e))
                },
                Err(e) => step == FileDraftStep::Fail(e),
            },
    {
        self.attempts_left = self.attempts_left - 1;
        match answer {
            Ok(created) => FileDraftStep::Open {
                link_id: created.file.link_id,
                revision_id: created.file.revision_id,
            },
            Err(ProtonError::Api(e)) => {
                if e.code == ResponseCode::AlreadyExists {
                    if let Some(conflict) = &e.details {
                        if conflict.revision_id.is_none() && conflict.draft_revision_id.is_some()
                            && (self.override_existing_draft || owns(
                            conflict,
                            self.client_uid.as_str(),
                        )) {
                            if let Some(link_id) = &conflict.link_id {
                                return FileDraftStep::Clear(link_id.clone());
                            }
                        }
                    }
                }
                FileDraftStep::Fail(ProtonError::Api(e))
            },
            Err(e) => FileDraftStep::Fail(e),
        }
    }

    /// Takes in what came of deleting the draft that was in the way. The draft is
    /// asked for again, unless that was tried often enough.
    pub fn cleared(&self, outcome: Result<(), ProtonError>) -> (step: FileDraftStep)
        ensures
            match outcome {
                Err(e) => step == FileDraftStep::Fail(e),
                Ok(()) => if self.attempts_left > 0 {
                    step == FileDraftStep::Create
                } else {
                    step matches FileDraftStep::Fail(e) && invalid(e, kept_conflicting())
                },
            },
    {
        match outcome {
            Err(e) => FileDraftStep::Fail(e),
            Ok(()) => {
                if self.attempts_left > 0 {
                    FileDraftStep::Create
                } else {
                    FileDraftStep::Fail(
                        ProtonError::invalid_operation(
                            "file draft creation kept conflicting after retries",
                        ),
                    )
                }
            },
        }
    }
}

/// A file that was finished is never cleared away, nor is another client's draft
/// unless the caller asked for that.
pub proof fn law_finished_files_are_never_cleared(
    conflict: RevisionConflict,
    client_uid: Seq<char>,
    override_existing_draft: bool,
)
    ensures
        conflict.revision_id is Some ==> !is_clearable(
            conflict,
            client_uid,
            override_existing_draft,
        ),
        !is_own(conflict, client_uid) ==> !is_clearable(conflict, client_uid, false),
{
}

/// A draft in the way is cleared just when it is an open draft of a file, and either our
/// own or one that we may clear whoever holds it.
pub proof fn law_open_drafts_are_cleared(
    conflict: RevisionConflict,
    client_uid: Seq<char>,
    override_existing_draft: bool,
)
    ensures
        is_clearable(conflict, client_uid, override_existing_draft) <==> {
            &&& conflict.link_id is Some
            &&& conflict.revision_id is None
            &&& conflict.draft_revision_id is Some
            &&& override_existing_draft || (conflict.draft_client_uid is Some
                && conflict.draft_client_uid->0@ == client_uid)
        },
        is_own(conflict, client_uid) <==> conflict.draft_client_uid is Some
            && conflict.draft_client_uid->0@ == client_uid,
        is_attributed(Some(conflict)) <==> conflict.draft_revision_id is Some
            && conflict.draft_client_uid is Some,
        !is_attributed(None),
        kept_conflicting() == "file draft creation kept conflicting after retries"@,
{
}

/// The drafts that are left are those that the server did not delete, each with the
/// reason. One that is gone already is not left.
pub proof fn law_drafts_that_are_gone_count_as_deleted(answer: Seq<crate::dtos::LinkIdResponsePair>)
    ensures
        undeleted(answer) == answer.filter(
            |pair: crate::dtos::LinkIdResponsePair|
                pair.response.code != ResponseCode::Success && pair.response.code
                    != ResponseCode::DoesNotExist,
        ).map_values(
            |pair: crate::dtos::LinkIdResponsePair| (pair.link_id, pair.response.code),
        ),
    decreases answer.len(),
{
    reveal(Seq::filter);
    let kept = |pair: crate::dtos::LinkIdResponsePair|
        pair.response.code != ResponseCode::Success && pair.response.code
            != ResponseCode::DoesNotExist;
    let entry = |pair: crate::dtos::LinkIdResponsePair| (pair.link_id, pair.response.code);
    if answer.len() > 0 {
        let fewer = answer.drop_last();
        law_drafts_that_are_gone_count_as_deleted(fewer);
        assert(answer.filter(kept).map_values(entry) =~= if kept(answer.last()) {
            fewer.filter(kept).map_values(entry).push(entry(answer.last()))
        } else {
            fewer.filter(kept).map_values(entry)
        });
    } else {
        assert(answer.filter(kept).map_values(entry) =~= Seq::<(LinkId, ResponseCode)>::empty());
    }
}

/// Texts are listed with a comma and a space between them.
pub proof fn law_texts_are_listed_with_commas(parts: Seq<Seq<char>>, next: Seq<char>)
    ensures
        parts.len() == 0 ==> listed_texts(parts).len() == 0,
        listed_texts(parts.push(next)) == (if parts.len() == 0 {
            next
        } else {
            listed_texts(parts) + ", "@ + next
        }),
{
    assert(parts.push(next).drop_last() =~= parts);
}

// ---------------------------------------------------------------------------
// A new revision
// ---------------------------------------------------------------------------

/// What opening a new revision does next.
#[derive(Debug, PartialEq, Eq)]
pub enum RevisionDraftStep {
    /// Ask for the draft.
    Create,
    /// Delete the draft revision that is in the way.
    Clear(String),
    /// The draft is open.
    Open(String),
    /// Give up.
    Fail(ProtonError),
}

/// A new revision of a file, while it is being opened.
#[derive(Debug, PartialEq, Eq)]
pub struct RevisionDraftRun {
    pub client_uid: String,
    pub attempts_left: usize,
}

/// Whether what is in the way of a new revision is a draft with a known owner.
pub open spec fn is_attributed(details: Option<RevisionConflict>) -> bool {
    details is Some && details->0.draft_revision_id is Some && details->0.draft_client_uid is Some
}

impl RevisionDraftRun {
    pub fn start(client_uid: &str) -> (run: RevisionDraftRun)
        ensures
            run.client_uid@ == client_uid@,
            run.attempts_left == MAX_DRAFT_ATTEMPTS,
    {
        RevisionDraftRun { client_uid: owned(client_uid), attempts_left: MAX_DRAFT_ATTEMPTS }
    }

    /// Takes in the answer to the request for the draft. Only the client's own draft
    /// is cleared.
    pub fn answered(&mut self, answer: Result<RevisionCreationResponse, ProtonError>) -> (step:
        RevisionDraftStep)
        requires
            old(self).attempts_left > 0,
        ensures
            final(self).client_uid == old(self).client_uid,
            final(self).attempts_left == old(self).attempts_left - 1,
            match answer {
                Ok(created) => step == RevisionDraftStep::Open(created.revision.revision_id),
                Err(ProtonError::Api(e)) => if e.code != ResponseCode::AlreadyExists {
                    step == RevisionDraftStep::Fail(ProtonError::Api(e))
                } else if !is_attributed(e.details) {
                    step matches RevisionDraftStep::Fail(error) && invalid(
                        error,
                        "revision draft already exists and cannot be recovered"@,
                    )
                } else if !is_own(e.details->0, old(self).client_uid@) {
                    step matches RevisionDraftStep::Fail(error) && invalid(
                        error,
                        "revision draft is held by another client"@,
                    )
                } else {
                    step == RevisionDraftStep::Clear(e.details->0.draft_revision_id->0)
                },
                Err(e) => step == RevisionDraftStep::Fail(e),
            },
    {
        self.attempts_left = self.attempts_left - 1;
        match answer {
            Ok(created) => RevisionDraftStep::Open(created.revision.revision_id),
            Err(ProtonError::Api(e)) => {
                if e.code != ResponseCode::AlreadyExists {
                    return RevisionDraftStep::Fail(ProtonError::Api(e));
                }
                match &e.details {
                    Some(conflict) => {
                        if let Some(draft_id) = &conflict.draft_revision_id {
                            if conflict.draft_client_uid.is_some() {
                                if owns(conflict, self.client_uid.as_str()) {
                                    return RevisionDraftStep::Clear(draft_id.clone());
                                }
                                return RevisionDraftStep::Fail(
                                    ProtonError::invalid_operation(
                                        "revision draft is held by another client",
                                    ),
                                );
                            }
                        }
                    },
                    None => {},
                }
                RevisionDraftStep::Fail(
                    ProtonError::invalid_operation(
                        "revision draft already exists and cannot be recovered",
                    ),
                )
            },
            Err(e) => RevisionDraftStep::Fail(e),
        }
    }

    /// Takes in what came of deleting the draft that was in the way.
    pub fn cleared(&self, outcome: Result<(), ProtonError>) -> (step: RevisionDraftStep)
        ensures
            match outcome {
                Err(e) => step == RevisionDraftStep::Fail(e),
                Ok(()) => if self.attempts_left > 0 {
                    step == RevisionDraftStep::Create
                } else {
                    step matches RevisionDraftStep::Fail(e) && invalid(
                        e,
                        "revision draft creation kept conflicting after retries"@,
                    )
                },
            },
    {
        match outcome {
            Err(e) => RevisionDraftStep::Fail(e),
            Ok(()) => {
                if self.attempts_left > 0 {
                    RevisionDraftStep::Create
                } else {
                    RevisionDraftStep::Fail(
                        ProtonError::invalid_operation(
                            "revision draft creation kept conflicting after retries",
                        ),
                    )
                }
            },
        }
    }
}

// ---------------------------------------------------------------------------
// Deleting drafts
// ---------------------------------------------------------------------------

/// The route that deletes draft nodes. They are not in the trash, so it is not the
/// one for trashed nodes.
pub fn delete_drafts_path(volume_id: &VolumeId) -> (path: String)
    ensures
        path@ == "v2/volumes/"@ + volume_id@ + "/delete_multiple"@,
{
    let mut path: String = owned("v2/volumes/");
    path.append(volume_id.as_str());
    path.append("/delete_multiple");
    path
}

/// The drafts that could not be deleted, each with the server's code. One that is
/// already gone counts as deleted.
pub open spec fn undeleted(answer: Seq<crate::dtos::LinkIdResponsePair>) -> Seq<
    (LinkId, ResponseCode),
>
    decreases answer.len(),
{
    if answer.len() == 0 {
        Seq::empty()
    } else {
        let before = undeleted(answer.drop_last());
        let code = answer.last().response.code;
        if code == ResponseCode::Success || code == ResponseCode::DoesNotExist {
            before
        } else {
            before.push((answer.last().link_id, code))
        }
    }
}

/// The drafts that could not be deleted, in the order of the answer.
pub fn undeleted_drafts(answer: &AggregateLinksResponse) -> (r: Vec<(LinkId, ResponseCode)>)
    ensures
        r@ == undeleted(answer.responses@),
{
    let mut out: Vec<(LinkId, ResponseCode)> = Vec::new();
    let mut i: usize = 0;
    assert(answer.responses@.take(0) =~= Seq::<crate::dtos::LinkIdResponsePair>::empty());
    while i < answer.responses.len()
        invariant
            i <= answer.responses@.len(),
            out@ == undeleted(answer.responses@.take(i as int)),
        decreases answer.responses@.len() - i,
    {
        assert(answer.responses@.take(i + 1).drop_last() =~= answer.responses@.take(i as int));
        let code: ResponseCode = answer.responses[i].response.code;
        if code != ResponseCode::Success && code != ResponseCode::DoesNotExist {
            out.push((answer.responses[i].link_id.clone(), code));
        }
        i += 1;
    }
    assert(answer.responses@.take(i as int) =~= answer.responses@);
    out
}

/// Texts with a comma between each two.
pub open spec fn listed_texts(parts: Seq<Seq<char>>) -> Seq<char>
    decreases parts.len(),
{
    if parts.len() == 0 {
        Seq::empty()
    } else if parts.len() == 1 {
        parts[0]
    } else {
        listed_texts(parts.drop_last()) + ", "@ + parts.last()
    }
}

/// What deleting drafts came to, given how each failure reads.
pub fn draft_deletion(failures: &Vec<String>) -> (r: Result<(), ProtonError>)
    ensures
        match r {
            Ok(()) => failures@.len() == 0,
            Err(e) => failures@.len() > 0 && invalid(
                e,
                "delete draft failed for "@ + decimal(failures@.len()) + " link(s): "@
                    + listed_texts(texts(failures@)),
            ),
        },
{
    if failures.len() == 0 {
        return Ok(());
    }
    let mut message: String = owned("delete draft failed for ");
    push_decimal(&mut message, failures.len() as u64);
    message.append(" link(s): ");
    let ghost head = message@;
    let ghost all = texts(failures@);
    let mut i: usize = 0;
    assert(all.take(0) =~= Seq::<Seq<char>>::empty());
    assert(message@ =~= head + listed_texts(all.take(0)));
    while i < failures.len()
        invariant
            i <= failures@.len(),
            all == texts(failures@),
            message@ == head + listed_texts(all.take(i as int)),
        decreases failures@.len() - i,
    {
        let ghost before = message@;
        if i > 0 {
            message.append(", ");
        }
        message.append(failures[i].as_str());
        proof {
            let now = all.take(i + 1);
            assert(now.drop_last() =~= all.take(i as int));
            assert(now.last() == failures@[i as int]@);
            assert(message@ =~= head + listed_texts(now));
        }
        i += 1;
    }
    assert(all.take(i as int) =~= all);
    Err(ProtonError::InvalidOperation(message))
}

} // verus!
