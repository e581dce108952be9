//! Opening somebody else's public link. A visitor proves that they know the
//! password, gets a session and the key of the share, and reads the shared subtree
//! with it. Nothing above the shared root can be seen, and nobody's signatures can
//! be checked.

use vstd::prelude::*;
use vstd::string::StringExecFns;

use crate::cache::{has_key, kept_under, touched, with_entry, NodeCache};
use crate::digest::{
    base64_complaint, base64_data, base64_decode, base64_encode, base64_text, is_base64,
    law_base64_is_injective,
};
use crate::drafts::encodable;
use crate::dtos::{
    link_type_of, ActiveRevisionDto, DecryptedCommonExtendedAttributes, LinkDetailsDto, LinkDto,
    LinkType, PublicLinkAuthRequest, PublicLinkAuthResponse, PublicLinkInfoResponse, RevisionDto,
};
use crate::error::{invalid, ProtonError};
use crate::ids::{uid_text, NodeUid, VolumeId};
use crate::node::{Node, NodeKind, NodeVerification, RevisionState, VerificationStatus};
use crate::node_build::{optional_uid, optional_uid_in};
use crate::sharing::MemberRole;
use crate::text::{owned, same_text};

verus! {

/// The unlocked keys that a visitor's client keeps.
pub const NODE_KEY_CACHE_CAPACITY: usize = 512;

/// The blocks that a client holds in memory at once, unless told otherwise.
pub const DEFAULT_MAX_INFLIGHT_BLOCKS: usize = 16;

/// How many blocks a client holds in memory at once. With none at all every read
/// would wait forever, so that it is one at least.
pub fn inflight_blocks(blocks: usize) -> (r: usize)
    ensures
        r == (if blocks == 0 {
            1
        } else {
            blocks
        }),
{
    if blocks == 0 {
        1
    } else {
        blocks
    }
}

/// What can be known of a link before opening it.
#[derive(Debug, Clone, Copy, PartialEq, Eq, Structural)]
pub struct PublicLinkInfo {
    /// A password is needed beside the one in the address.
    pub is_custom_password_protected: bool,
    /// The link is of a format that cannot be opened any more.
    pub is_legacy: bool,
    /// Zero for links of Drive itself.
    pub vendor_type: i32,
}

impl PublicLinkInfo {
    pub fn from_response(raw: &PublicLinkInfoResponse) -> (r: PublicLinkInfo)
        ensures
            r.is_custom_password_protected == (raw.flags & 1 == 1),
            r.is_legacy == (raw.flags == 0 || raw.flags == 1),
            r.vendor_type == raw.vendor_type,
    {
        PublicLinkInfo {
            is_custom_password_protected: raw.is_custom_password_protected(),
            is_legacy: raw.is_legacy(),
            vendor_type: raw.vendor_type,
        }
    }
}

// ---------------------------------------------------------------------------
// The handshake
// ---------------------------------------------------------------------------

/// What is said of a field that is no base64.
pub open spec fn bad_base64(what: Seq<char>, text: Seq<char>) -> Seq<char> {
    what + " is not valid base64: "@ + base64_complaint(text)
}

/// The bytes that a base64 field stands for; `what` names the field.
pub fn decode_base64(value: &str, what: &str) -> (r: Result<Vec<u8>, ProtonError>)
    ensures
        match r {
            Ok(data) => is_base64(value@) && data@ == base64_data(value@),
            Err(e) => !is_base64(value@) && invalid(e, bad_base64(what@, value@)),
        },
        r is Ok ==> base64_text(r->Ok_0@) == value@,
        r is Err ==> r->Err_0 is InvalidOperation && r->Err_0->InvalidOperation_0@ == what@
            + " is not valid base64: "@ + base64_complaint(value@),
{
    match base64_decode(value) {
        Ok(data) => {
            proof {
                assert(base64_text(data@) == value@);
                law_base64_is_injective(base64_data(value@), data@);
            }
            Ok(data)
        },
        Err(complaint) => {
            let mut message: String = owned(what);
            message.append(" is not valid base64: ");
            message.append(complaint.as_str());
            Err(ProtonError::InvalidOperation(message))
        },
    }
}

/// What the handshake starts from: the salt of the password and the server's
/// challenge.
#[derive(Debug, PartialEq, Eq)]
pub struct HandshakeInput {
    pub salt: Vec<u8>,
    pub server_ephemeral: Vec<u8>,
}

/// What the handshake with a link starts from. A link of the old format is refused.
pub fn handshake_input(info: &PublicLinkInfoResponse) -> (r: Result<HandshakeInput, ProtonError>)
    ensures
        if info.flags == 0 || info.flags == 1 {
            r is Err && invalid(
                r->Err_0,
                "this public link uses a legacy format that is no longer supported"@,
            )
        } else if !is_base64(info.url_password_salt@) {
            r is Err && invalid(
                r->Err_0,
                bad_base64("UrlPasswordSalt"@, info.url_password_salt@),
            )
        } else if !is_base64(info.server_ephemeral@) {
            r is Err && invalid(
                r->Err_0,
                bad_base64("ServerEphemeral"@, info.server_ephemeral@),
            )
        } else {
            &&& r is Ok
            &&& r->Ok_0.salt@ == base64_data(info.url_password_salt@)
            &&& r->Ok_0.server_ephemeral@ == base64_data(info.server_ephemeral@)
        },
{
    if info.is_legacy() {
        return Err(
            ProtonError::invalid_operation(
                "this public link uses a legacy format that is no longer supported",
            ),
        );
    }
    let salt: Vec<u8> = match decode_base64(info.url_password_salt.as_str(), "UrlPasswordSalt") {
        Ok(salt) => salt,
        Err(e) => {
            return Err(e);
        },
    };
    let server_ephemeral: Vec<u8> = match decode_base64(
        info.server_ephemeral.as_str(),
        "ServerEphemeral",
    ) {
        Ok(data) => data,
        Err(e) => {
            return Err(e);
        },
    };
    Ok(HandshakeInput { salt, server_ephemeral })
}

/// The request that completes the handshake.
pub fn auth_request(
    client_proof: &Vec<u8>,
    client_ephemeral: &Vec<u8>,
    srp_session: String,
) -> (r: PublicLinkAuthRequest)
    requires
        encodable(client_proof@),
        encodable(client_ephemeral@),
    ensures
        r.client_proof@ == base64_text(client_proof@),
        r.client_ephemeral@ == base64_text(client_ephemeral@),
        r.srp_session == srp_session,
{
    PublicLinkAuthRequest {
        client_proof: base64_encode(client_proof.as_slice()),
        client_ephemeral: base64_encode(client_ephemeral.as_slice()),
        srp_session,
    }
}

/// The server has to prove that it knows the link's secret too. One that does not is
/// refused.
pub fn check_server_proof(response: &PublicLinkAuthResponse, expected: &Vec<u8>) -> (r: Result<
    (),
    ProtonError,
>)
    requires
        encodable(expected@),
    ensures
        match r {
            Ok(()) => response.server_proof@ == base64_text(expected@),
            Err(e) => response.server_proof@ != base64_text(expected@) && invalid(
                e,
                "public link server proof did not match; refusing the session"@,
            ),
        },
{
    let wanted: String = base64_encode(expected.as_slice());
    if same_text(response.server_proof.as_str(), wanted.as_str()) {
        Ok(())
    } else {
        Err(
            ProtonError::invalid_operation(
                "public link server proof did not match; refusing the session",
            ),
        )
    }
}

/// A server proof is accepted only if it is the very proof that was expected.
pub proof fn law_only_the_right_proof_is_accepted(shown: Seq<u8>, expected: Seq<u8>)
    ensures
        base64_text(shown) == base64_text(expected) <==> shown == expected,
{
    if base64_text(shown) == base64_text(expected) {
        law_base64_is_injective(shown, expected);
    }
}

/// The salt of the passphrase that wraps the share key.
pub fn share_password_salt(response: &PublicLinkAuthResponse) -> (r: Result<Vec<u8>, ProtonError>)
    ensures
        match r {
            Ok(salt) => is_base64(response.share.share_password_salt@) && salt@ == base64_data(
                response.share.share_password_salt@,
            ),
            Err(e) => !is_base64(response.share.share_password_salt@) && invalid(
                e,
                bad_base64("SharePasswordSalt"@, response.share.share_password_salt@),
            ),
        },
{
    decode_base64(response.share.share_password_salt.as_str(), "SharePasswordSalt")
}

/// What a completed handshake yields beside the key of the share: the session, the
/// shared node and what visitors may do.
#[derive(Debug, PartialEq, Eq)]
pub struct VisitorSession {
    pub session_id: String,
    pub access_token: String,
    pub root_uid: NodeUid,
    pub public_role: MemberRole,
}

/// What a completed handshake yields. A server that gives no token has not made a
/// session.
pub fn visitor_session(response: PublicLinkAuthResponse) -> (r: Result<VisitorSession, ProtonError>)
    ensures
        match response.access_token {
            Some(token) => r == Ok::<VisitorSession, ProtonError>(
                VisitorSession {
                    session_id: response.uid,
                    access_token: token,
                    root_uid: NodeUid {
                        volume_id: response.share.volume_id,
                        link_id: response.share.link_id,
                    },
                    public_role: MemberRole::shown_for(response.share.public_permissions),
                },
            ),
            None => r is Err && invalid(
                r->Err_0,
                "public link auth returned no access token"@,
            ),
        },
{
    match response.access_token {
        Some(access_token) => Ok(
            VisitorSession {
                session_id: response.uid,
                access_token,
                root_uid: NodeUid::new(response.share.volume_id, response.share.link_id),
                public_role: MemberRole::from_permissions(response.share.public_permissions),
            },
        ),
        None => Err(
            ProtonError::invalid_operation("public link auth returned no access token"),
        ),
    }
}

/// The route of a link's handshake: `info` opens it and `auth` completes it.
pub fn handshake_path(token: &str, step: &str) -> (path: String)
    ensures
        path@ == "drive/urls/"@ + token@ + "/"@ + step@,
{
    let mut path: String = owned("drive/urls/");
    path.append(token);
    path.append("/");
    path.append(step);
    path
}

// ---------------------------------------------------------------------------
// Keys
// ---------------------------------------------------------------------------

/// What is said of a node outside the shared subtree.
pub open spec fn outside_the_link() -> Seq<char> {
    "node has no parent and is not the shared root"@
}

/// The key that a link is locked with.
#[derive(Debug, PartialEq, Eq)]
pub enum LockedWith {
    /// The key of the share: the link is the shared root.
    Share,
    /// The key of this node, its parent.
    Node(NodeUid),
}

/// The key that a link is locked with: that of the share at the shared root, and that
/// of its parent elsewhere.
pub fn locked_with(root_uid: &NodeUid, volume_id: &VolumeId, link: &LinkDto) -> (r: Result<
    LockedWith,
    ProtonError,
>)
    ensures
        if link.id@ == root_uid.link_id@ {
            r == Ok::<LockedWith, ProtonError>(LockedWith::Share)
        } else {
            match link.parent_id {
                Some(parent) => r == Ok::<LockedWith, ProtonError>(
                    LockedWith::Node(NodeUid { volume_id: *volume_id, link_id: parent }),
                ),
                None => r is Err && invalid(r->Err_0, outside_the_link()),
            }
        },
        r is Err ==> r->Err_0 is InvalidOperation && r->Err_0->InvalidOperation_0@
            == "node has no parent and is not the shared root"@,
{
    if link.id.same_as(&root_uid.link_id) {
        return Ok(LockedWith::Share);
    }
    match &link.parent_id {
        Some(parent) => Ok(LockedWith::Node(NodeUid::new(volume_id.clone(), parent.clone()))),
        None => Err(
            ProtonError::invalid_operation("node has no parent and is not the shared root"),
        ),
    }
}

/// What a walk to the key of a node does next.
#[derive(Debug, PartialEq, Eq)]
pub enum VisitorStep {
    /// The key at the top is known: unlock from here.
    Known(String),
    /// Fetch this node.
    Fetch(NodeUid),
}

/// A walk to the key of a node: up to the nearest ancestor whose key is known, or to
/// the shared root, and down again.
#[derive(Debug, PartialEq, Eq)]
pub struct VisitorWalk {
    pub root_uid: NodeUid,
    pub volume_id: VolumeId,
    /// The links passed on the way up.
    pub chain: Vec<LinkDto>,
    pub cursor: NodeUid,
}

impl VisitorWalk {
    pub fn start(root_uid: &NodeUid, target: &NodeUid) -> (walk: VisitorWalk)
        ensures
            walk.root_uid == *root_uid,
            walk.volume_id == target.volume_id,
            walk.chain@.len() == 0,
            walk.cursor == *target,
    {
        VisitorWalk {
            root_uid: root_uid.clone(),
            volume_id: target.volume_id.clone(),
            chain: Vec::new(),
            cursor: target.clone(),
        }
    }

    /// What to do next on the way up.
    pub fn next(&self, keys: &mut NodeCache) -> (step: VisitorStep)
        requires
            old(keys).well_formed(),
        ensures
            final(keys).well_formed(),
            final(keys).bound() == old(keys).bound(),
            final(keys).entries() == touched(old(keys).entries(), self.cursor@),
            if has_key(old(keys).entries(), self.cursor@) {
                step matches VisitorStep::Known(key) && kept_under(
                    old(keys).entries(),
                    self.cursor@,
                ) == Some(key@)
            } else {
                step == VisitorStep::Fetch(self.cursor)
            },
    {
        match keys.get(&self.cursor) {
            Some(key) => VisitorStep::Known(key),
            None => VisitorStep::Fetch(self.cursor.clone()),
        }
    }

    /// Takes in the node that was fetched. At the shared root the way up ends, and
    /// the key of the share unlocks it; elsewhere it goes on to the parent.
    pub fn found(&mut self, link: LinkDto) -> (r: Result<Option<LinkDto>, ProtonError>)
        ensures
            final(self).root_uid == old(self).root_uid,
            final(self).volume_id == old(self).volume_id,
            if link.id@ == old(self).root_uid.link_id@ {
                r == Ok::<Option<LinkDto>, ProtonError>(Some(link)) && *final(self) == *old(self)
            } else {
                match link.parent_id {
                    Some(parent) => {
                        &&& r == Ok::<Option<LinkDto>, ProtonError>(None)
                        &&& final(self).chain@ == old(self).chain@.push(link)
                        &&& final(self).cursor == (NodeUid {
                            volume_id: old(self).cursor.volume_id,
                            link_id: parent,
                        })
                    },
                    None => r is Err && invalid(r->Err_0, outside_the_link()) && *final(self)
                        == *old(self),
                }
            },
    {
        if link.id.same_as(&self.root_uid.link_id) {
            return Ok(Some(link));
        }
        match &link.parent_id {
            Some(parent) => {
                self.cursor = NodeUid::new(self.cursor.volume_id.clone(), parent.clone());
            },
            None => {
                return Err(
                    ProtonError::invalid_operation(
                        "node has no parent and is not the shared root",
                    ),
                );
            },
        }
        self.chain.push(link);
        Ok(None)
    }

    /// Keeps the unlocked key of the shared root.
    pub fn reached_root(&self, node_key: &String, keys: &mut NodeCache)
        requires
            old(keys).well_formed(),
        ensures
            final(keys).well_formed(),
            final(keys).bound() == old(keys).bound(),
            final(keys).entries() == with_entry(
                old(keys).entries(),
                old(keys).bound(),
                self.cursor@,
                node_key@,
            ),
    {
        keys.put(&self.cursor, node_key.clone());
    }

    /// The link to unlock next, on the way down.
    pub fn to_unlock(&self) -> (r: Option<&LinkDto>)
        ensures
            match r {
                Some(link) => self.chain@.len() > 0 && *link == self.chain@.last(),
                None => self.chain@.len() == 0,
            },
    {
        if self.chain.len() > 0 {
            Some(&self.chain[self.chain.len() - 1])
        } else {
            None
        }
    }

    /// Takes in the unlocked key of that link, and keeps it.
    pub fn unlocked(&mut self, node_key: &String, keys: &mut NodeCache)
        requires
            old(self).chain@.len() > 0,
            old(keys).well_formed(),
        ensures
            final(self).chain@ == old(self).chain@.drop_last(),
            final(self).root_uid == old(self).root_uid,
            final(self).volume_id == old(self).volume_id,
            final(self).cursor == old(self).cursor,
            final(keys).well_formed(),
            final(keys).bound() == old(keys).bound(),
            final(keys).entries() == with_entry(
                old(keys).entries(),
                old(keys).bound(),
                (old(self).volume_id@, old(self).chain@.last().id@),
                node_key@,
            ),
    {
        match self.chain.pop() {
            Some(link) => {
                let uid: NodeUid = NodeUid::new(self.volume_id.clone(), link.id);
                keys.put(&uid, node_key.clone());
            },
            None => {},
        }
    }
}

// ---------------------------------------------------------------------------
// Files
// ---------------------------------------------------------------------------

/// The first of the links that were fetched for one node.
pub fn visited_link(uid: &NodeUid, links: Vec<LinkDetailsDto>) -> (r: Result<
    LinkDetailsDto,
    ProtonError,
>)
    ensures
        match r {
            Ok(details) => links@.len() > 0 && details == links@[0],
            Err(e) => links@.len() == 0 && invalid(
                e,
                "node "@ + uid_text(uid@) + " was not found"@,
            ),
        },
{
    let mut rest: Vec<LinkDetailsDto> = links;
    if rest.len() == 0 {
        let mut message: String = owned("node ");
        message.append(uid.to_text().as_str());
        message.append(" was not found");
        return Err(ProtonError::InvalidOperation(message));
    }
    Ok(rest.remove(0))
}

/// The encrypted content key of a shared file.
pub fn visitor_content_key(details: &LinkDetailsDto) -> (r: Result<Vec<u8>, ProtonError>)
    ensures
        ({
            let packet = match details.file_data() {
                Some(file) => file.content_key_packet,
                None => None,
            };
            match packet {
                Some(packet) => if is_base64(packet@) {
                    r is Ok && r->Ok_0@ == base64_data(packet@)
                } else {
                    r is Err && invalid(r->Err_0, bad_base64("ContentKeyPacket"@, packet@))
                },
                None => r is Err && invalid(r->Err_0, "the file has no content key packet"@),
            }
        }),
{
    if let Some(file) = details.file_properties() {
        if let Some(packet) = &file.content_key_packet {
            return decode_base64(packet.as_str(), "ContentKeyPacket");
        }
    }
    Err(ProtonError::invalid_operation("the file has no content key packet"))
}

/// The active revision of a link, if it has one.
pub open spec fn active_revision_of(details: LinkDetailsDto) -> Option<ActiveRevisionDto> {
    match details.file_data() {
        Some(file) => file.active_revision,
        None => None,
    }
}

/// The revision to read: the named one, or else the active one.
pub fn visitor_revision(details: &LinkDetailsDto, named: Option<&str>) -> (r: Result<
    String,
    ProtonError,
>)
    ensures
        match named {
            Some(id) => r is Ok && r->Ok_0@ == id@,
            None => match active_revision_of(*details) {
                Some(revision) => r == Ok::<String, ProtonError>(revision.id),
                None => r is Err && invalid(r->Err_0, "the shared file has no active revision"@),
            },
        },
{
    match named {
        Some(id) => Ok(owned(id)),
        None => {
            if let Some(file) = details.file_properties() {
                if let Some(revision) = &file.active_revision {
                    return Ok(revision.id.clone());
                }
            }
            Err(ProtonError::invalid_operation("the shared file has no active revision"))
        },
    }
}

/// The encrypted attributes of a revision: its own, or, where the server left them
/// out, those of the active revision when that is the one.
pub fn visitor_attributes(
    revision: &RevisionDto,
    details: &LinkDetailsDto,
    revision_id: &str,
) -> (r: Option<String>)
    ensures
        r == (match revision.extended_attributes {
            Some(attributes) => Some(attributes),
            None => match active_revision_of(*details) {
                Some(active) => if active.id@ == revision_id@ {
                    active.extended_attributes
                } else {
                    None
                },
                None => None,
            },
        }),
{
    match &revision.extended_attributes {
        Some(attributes) => Some(attributes.clone()),
        None => {
            if let Some(file) = details.file_properties() {
                if let Some(active) = &file.active_revision {
                    if same_text(active.id.as_str(), revision_id) {
                        return active.extended_attributes.clone();
                    }
                }
            }
            None
        },
    }
}

/// Whether `kind` is what a visitor sees a link as: a folder, or else a file.
pub open spec fn is_visited_kind(
    kind: NodeKind,
    details: LinkDetailsDto,
    common: Option<DecryptedCommonExtendedAttributes>,
) -> bool {
    if link_type_of(details.link.link_type as int) == LinkType::Folder {
        kind == NodeKind::Folder
    } else {
        match kind {
            NodeKind::Folder => false,
            NodeKind::File {
                media_type,
                total_size_on_storage,
                active_revision_state,
                active_revision_id,
                claimed_size,
                claimed_modification_time,
                content_sha1,
            } => {
                &&& match details.file_data() {
                    Some(file) => media_type == file.media_type && total_size_on_storage
                        == file.total_size_on_storage,
                    None => media_type@.len() == 0 && total_size_on_storage == 0,
                }
                &&& match active_revision_of(details) {
                    Some(active) => active_revision_state == Some(
                        RevisionState::with_wire(active.state),
                    ) && active_revision_id == Some(active.id),
                    None => active_revision_state is None && active_revision_id is None,
                }
                &&& match common {
                    Some(c) => claimed_size == c.size && claimed_modification_time
                        == c.modification_time && content_sha1 == (match c.digests {
                        Some(digests) => digests.sha1,
                        None => None,
                    }),
                    None => claimed_size is None && claimed_modification_time is None
                        && content_sha1 is None,
                }
            },
        }
    }
}

/// A node of the shared subtree, given its decrypted name and, for a file, what its
/// uploader claims. Nothing is claimed of signatures.
pub fn visited_node(
    volume_id: &VolumeId,
    details: &LinkDetailsDto,
    name: String,
    common: Option<DecryptedCommonExtendedAttributes>,
) -> (node: Node)
    ensures
        node.uid == (NodeUid { volume_id: *volume_id, link_id: details.link.id }),
        node.parent_uid == optional_uid(*volume_id, details.link.parent_id),
        is_visited_kind(node.kind, *details, common),
        node.name == name,
        node.creation_time == details.link.creation_time,
        node.modification_time == details.link.modification_time,
        node.trashed == details.link.in_trash(),
        node.is_shared,
        node.is_shared_publicly,
        node.signature_email == details.link.name_signature_email,
        node.membership is None,
        node.photo is None,
        node.album is None,
        node.verification == (NodeVerification {
            name: VerificationStatus::NotSigned,
            passphrase: VerificationStatus::NotSigned,
            content_key: None,
            extended_attributes: None,
        }),
        node.trashed == (details.link.state == 2 || details.link.trash_time is Some),
        node.parent_uid is Some <==> details.link.parent_id is Some,
        node.parent_uid is Some ==> node.parent_uid->0 == (NodeUid {
            volume_id: *volume_id,
            link_id: details.link.parent_id->0,
        }),
        node.kind is Folder <==> details.link.link_type == 1,
{
    let link: &LinkDto = &details.link;
    let kind: NodeKind = match link.parsed_type() {
        LinkType::Folder => NodeKind::Folder,
        _ => {
            let (media_type, total_size_on_storage): (String, i64) = match details.file_properties() {
                Some(file) => (file.media_type.clone(), file.total_size_on_storage),
                None => (String::new(), 0),
            };
            let active: Option<&ActiveRevisionDto> = match details.file_properties() {
                Some(file) => match &file.active_revision {
                    Some(active) => Some(active),
                    None => None,
                },
                None => None,
            };
            let (active_revision_state, active_revision_id): (
                Option<RevisionState>,
                Option<String>,
            ) = match active {
                Some(active) => (
                    Some(RevisionState::from_raw(active.state)),
                    Some(active.id.clone()),
                ),
                None => (None, None),
            };
            let (claimed_size, claimed_modification_time, content_sha1): (
                Option<i64>,
                Option<String>,
                Option<String>,
            ) = match common {
                Some(c) => {
                    let sha1: Option<String> = match c.digests {
                        Some(digests) => digests.sha1,
                        None => None,
                    };
                    (c.size, c.modification_time, sha1)
                },
                None => (None, None, None),
            };
            NodeKind::File {
                media_type,
                total_size_on_storage,
                active_revision_state,
                active_revision_id,
                claimed_size,
                claimed_modification_time,
                content_sha1,
            }
        },
    };
    Node {
        uid: NodeUid::new(volume_id.clone(), link.id.clone()),
        parent_uid: optional_uid_in(volume_id, &link.parent_id),
        kind,
        name,
        creation_time: link.creation_time,
        modification_time: link.modification_time,
        trashed: link.is_trashed(),
        is_shared: true,
        is_shared_publicly: true,
        signature_email: link.name_signature_email.clone(),
        membership: None,
        photo: None,
        album: None,
        verification: NodeVerification::default(),
    }
}

/// What a visitor sees of a link: a folder is a folder, and a file has the size and the
/// kind that the server gives, the revision that is active, and what its attributes claim.
pub proof fn law_visitors_see_what_the_link_says(
    kind: NodeKind,
    details: LinkDetailsDto,
    common: Option<DecryptedCommonExtendedAttributes>,
)
    requires
        is_visited_kind(kind, details, common),
    ensures
        kind is Folder <==> details.link.link_type == 1,
        kind is File && details.file_data() is Some ==> kind->File_media_type
            == details.file_data()->0.media_type && kind->File_total_size_on_storage
            == details.file_data()->0.total_size_on_storage,
        kind is File && details.file_data() is None ==> kind->File_media_type@.len() == 0
            && kind->File_total_size_on_storage == 0 && kind->File_active_revision_id is None
            && kind->File_active_revision_state is None,
        kind is File && details.file_data() is Some ==> {
            let active = details.file_data()->0.active_revision;
            &&& active is Some ==> kind->File_active_revision_id == Some(active->0.id)
                && kind->File_active_revision_state == Some(
                RevisionState::with_wire(active->0.state),
            )
            &&& active is None ==> kind->File_active_revision_id is None
                && kind->File_active_revision_state is None
        },
        kind is File && common is Some ==> kind->File_claimed_size == common->0.size
            && kind->File_claimed_modification_time == common->0.modification_time,
        kind is File && common is Some && common->0.digests is Some ==> kind->File_content_sha1
            == common->0.digests->0.sha1,
        kind is File && (common is None || common->0.digests is None) ==> kind->File_content_sha1
            is None,
        kind is File && common is None ==> kind->File_claimed_size is None
            && kind->File_claimed_modification_time is None,
{
}

/// The active revision is that of the data of the file, and the messages name what is
/// wrong.
pub proof fn law_active_revisions_are_those_of_the_file(
    details: LinkDetailsDto,
    what: Seq<char>,
    text: Seq<char>,
)
    ensures
        details.file_data() is None ==> active_revision_of(details) is None,
        details.file_data() is Some ==> active_revision_of(details)
            == details.file_data()->0.active_revision,
        bad_base64(what, text) == what + " is not valid base64: "@ + base64_complaint(text),
        outside_the_link() == "node has no parent and is not the shared root"@,
{
}

} // verus!
