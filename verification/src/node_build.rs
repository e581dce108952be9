//! From a link, as the server describes it, to a node. Decryption happens
//! elsewhere: what is decided here is what to decrypt, and what the node is given
//! what came of it.

use vstd::prelude::*;

use crate::digest::{base64_data, base64_decode, is_base64, law_base64_is_injective, base64_text};
use crate::dtos::{
    AlbumDto, AlbumInclusionDto, DecryptedExtendedAttributes, FileDto, LinkDetailsDto, LinkDto,
    LinkType, PhotoDto, ShareMembershipSummaryDto, link_type_of,
};
use crate::error::{invalid, ProtonError};
use crate::ids::{LinkId, NodeUid, VolumeId};
use crate::node::{
    AlbumProperties, Node, NodeKind, NodeVerification, PhotoProperties, RevisionState,
    VerificationStatus,
};
use crate::photos::PhotoTag;
use crate::sharing::ShareMembership;
use crate::text::{owned, push_signed, signed_decimal};

verus! {

/// How much of a node is decrypted.
#[derive(Debug, Clone, Copy, PartialEq, Eq, Structural)]
pub enum NodeDetail {
    /// Everything.
    Full,
    /// What the key of the parent can read. The key of a file stays locked; that
    /// of a folder does not, since its children need it.
    Light,
}

/// Whether the key of the node itself is unlocked.
pub open spec fn unlocks_node_key(detail: NodeDetail, link: LinkDto) -> bool {
    detail == NodeDetail::Full || link_type_of(link.link_type as int) != LinkType::File
}

pub fn wants_node_key(detail: NodeDetail, link: &LinkDto) -> (r: bool)
    ensures
        r == unlocks_node_key(detail, *link),
        r <==> detail == NodeDetail::Full || link.link_type != 2,
{
    detail == NodeDetail::Full || link.parsed_type() != LinkType::File
}

/// The content key packet of a file, decoded; `None` where there is nothing to
/// decrypt: no unlocked key, no packet, or one that is not base64.
pub open spec fn packet_to_decrypt(details: LinkDetailsDto, unlocked: bool) -> Option<Seq<u8>> {
    match details.file_data() {
        Some(file) => match file.content_key_packet {
            Some(packet) => if unlocked && is_base64(packet@) {
                Some(base64_data(packet@))
            } else {
                None
            },
            None => None,
        },
        None => None,
    }
}

/// The content key packet to decrypt, if any.
pub fn content_key_packet(details: &LinkDetailsDto, unlocked: bool) -> (r: Option<Vec<u8>>)
    ensures
        r is Some == packet_to_decrypt(*details, unlocked) is Some,
        r is Some ==> r->0@ == packet_to_decrypt(*details, unlocked)->0,
        ({
            let file = if details.file is Some {
                details.file
            } else if details.photo is Some {
                Some(details.photo->0.file)
            } else {
                None
            };
            &&& r is Some <==> unlocked && file is Some && file->0.content_key_packet is Some
                && is_base64(file->0.content_key_packet->0@)
            &&& r is Some ==> base64_text(r->0@) == file->0.content_key_packet->0@
        }),
{
    if !unlocked {
        return None;
    }
    match details.file_properties() {
        Some(file) => match &file.content_key_packet {
            Some(packet) => decoded_packet(packet),
            None => None,
        },
        None => None,
    }
}

/// What a base64 text stands for; `None` where it is not base64.
pub fn decoded_packet(packet: &String) -> (r: Option<Vec<u8>>)
    ensures
        r is Some == is_base64(packet@),
        r is Some ==> r->0@ == base64_data(packet@),
{
    match base64_decode(packet.as_str()) {
        Ok(data) => {
            proof {
                assert(base64_text(data@) == packet@);
                law_base64_is_injective(base64_data(packet@), data@);
            }
            Some(data)
        },
        Err(_) => None,
    }
}

/// The encrypted attributes of the active revision; `None` where there is nothing
/// to decrypt.
pub open spec fn attributes_to_decrypt(details: LinkDetailsDto, unlocked: bool) -> Option<String> {
    match details.file_data() {
        Some(file) => match file.active_revision {
            Some(revision) => if unlocked {
                revision.extended_attributes
            } else {
                None
            },
            None => None,
        },
        None => None,
    }
}

/// The encrypted attributes to decrypt, if any.
pub fn encrypted_attributes(details: &LinkDetailsDto, unlocked: bool) -> (r: Option<String>)
    ensures
        r == attributes_to_decrypt(*details, unlocked),
        ({
            let file = if details.file is Some {
                details.file
            } else if details.photo is Some {
                Some(details.photo->0.file)
            } else {
                None
            };
            &&& r is Some <==> unlocked && file is Some && file->0.active_revision is Some
                && file->0.active_revision->0.extended_attributes is Some
            &&& r is Some ==> r == file->0.active_revision->0.extended_attributes
        }),
{
    if !unlocked {
        return None;
    }
    match details.file_properties() {
        Some(file) => match &file.active_revision {
            Some(revision) => match &revision.extended_attributes {
                Some(attributes) => Some(attributes.clone()),
                None => None,
            },
            None => None,
        },
        None => None,
    }
}

/// The node of a link in a volume.
pub fn uid_in(volume_id: &VolumeId, link_id: &LinkId) -> (r: NodeUid)
    ensures
        r == (NodeUid { volume_id: *volume_id, link_id: *link_id }),
{
    NodeUid::new(volume_id.clone(), link_id.clone())
}

/// The node of an optional link.
pub open spec fn optional_uid(volume_id: VolumeId, link_id: Option<LinkId>) -> Option<NodeUid> {
    match link_id {
        Some(link_id) => Some(NodeUid { volume_id, link_id }),
        None => None,
    }
}

pub fn optional_uid_in(volume_id: &VolumeId, link_id: &Option<LinkId>) -> (r: Option<NodeUid>)
    ensures
        r == optional_uid(*volume_id, *link_id),
        r is Some <==> link_id is Some,
        r is Some ==> r->0.volume_id == *volume_id && r->0.link_id == link_id->0,
{
    match link_id {
        Some(link_id) => Some(uid_in(volume_id, link_id)),
        None => None,
    }
}

/// The nodes of links in a volume.
pub open spec fn uids_of(volume_id: VolumeId, links: Seq<LinkId>) -> Seq<NodeUid> {
    Seq::new(links.len(), |i: int| NodeUid { volume_id, link_id: links[i] })
}

pub fn uids_in(volume_id: &VolumeId, links: &Vec<LinkId>) -> (r: Vec<NodeUid>)
    ensures
        r@ == uids_of(*volume_id, links@),
        r@.len() == links@.len(),
        forall|i: int|
            0 <= i < r@.len() ==> (#[trigger] r@[i]).volume_id == *volume_id && r@[i].link_id
                == links@[i],
{
    let mut out: Vec<NodeUid> = Vec::new();
    let mut i: usize = 0;
    while i < links.len()
        invariant
            i <= links@.len(),
            out@ == uids_of(*volume_id, links@).take(i as int),
        decreases links@.len() - i,
    {
        out.push(uid_in(volume_id, &links[i]));
        i += 1;
        assert(out@ =~= uids_of(*volume_id, links@).take(i as int));
    }
    assert(out@ =~= uids_of(*volume_id, links@));
    out
}

/// The albums that a photo is in.
pub open spec fn album_links(inclusions: Seq<AlbumInclusionDto>) -> Seq<LinkId> {
    Seq::new(inclusions.len(), |i: int| inclusions[i].album_link_id)
}

fn album_uids_in(volume_id: &VolumeId, inclusions: &Vec<AlbumInclusionDto>) -> (r: Vec<NodeUid>)
    ensures
        r@ == uids_of(*volume_id, album_links(inclusions@)),
{
    let mut links: Vec<LinkId> = Vec::new();
    let mut i: usize = 0;
    while i < inclusions.len()
        invariant
            i <= inclusions@.len(),
            links@ == album_links(inclusions@).take(i as int),
        decreases inclusions@.len() - i,
    {
        links.push(inclusions[i].album_link_id.clone());
        i += 1;
        assert(links@ =~= album_links(inclusions@).take(i as int));
    }
    assert(links@ =~= album_links(inclusions@));
    uids_in(volume_id, &links)
}

/// The tags with these wire values. A value without a tag is left out.
pub open spec fn known_tags(raw: Seq<i32>) -> Seq<PhotoTag>
    decreases raw.len(),
{
    if raw.len() == 0 {
        Seq::empty()
    } else {
        let before = known_tags(raw.drop_last());
        match PhotoTag::with_wire(raw.last() as int) {
            Some(tag) => before.push(tag),
            None => before,
        }
    }
}

pub fn tags_from_raw(raw: &Vec<i32>) -> (r: Vec<PhotoTag>)
    ensures
        r@ == known_tags(raw@),
        r@ == raw@.filter(|t: i32| 0 <= t <= 9).map_values(|t: i32| PhotoTag::with_wire(t as int)->0),
{
    proof {
        law_unknown_tags_are_left_out(raw@);
    }
    let mut out: Vec<PhotoTag> = Vec::new();
    let mut i: usize = 0;
    assert(raw@.take(0) =~= Seq::<i32>::empty());
    while i < raw.len()
        invariant
            i <= raw@.len(),
            out@ == known_tags(raw@.take(i as int)),
        decreases raw@.len() - i,
    {
        proof {
            assert(raw@.take(i + 1).drop_last() =~= raw@.take(i as int));
        }
        match PhotoTag::from_raw(raw[i]) {
            Some(tag) => out.push(tag),
            None => {},
        }
        i += 1;
    }
    assert(raw@.take(i as int) =~= raw@);
    out
}

/// A photo has the tags whose numbers are known, in order. The others are left out.
pub proof fn law_unknown_tags_are_left_out(raw: Seq<i32>)
    ensures
        known_tags(raw) == raw.filter(|t: i32| 0 <= t <= 9).map_values(
            |t: i32| PhotoTag::with_wire(t as int)->0,
        ),
    decreases raw.len(),
{
    reveal(Seq::filter);
    let known = |t: i32| 0 <= t <= 9;
    let tag = |t: i32| PhotoTag::with_wire(t as int)->0;
    if raw.len() > 0 {
        let fewer = raw.drop_last();
        law_unknown_tags_are_left_out(fewer);
        assert(raw.filter(known).map_values(tag) =~= if known(raw.last()) {
            fewer.filter(known).map_values(tag).push(tag(raw.last()))
        } else {
            fewer.filter(known).map_values(tag)
        });
    } else {
        assert(raw.filter(known).map_values(tag) =~= Seq::<PhotoTag>::empty());
    }
}

/// Whether `p` is the photo part of a node on the volume.
pub open spec fn is_photo_part(p: PhotoProperties, volume_id: VolumeId, photo: PhotoDto) -> bool {
    &&& p.capture_time == photo.capture_time
    &&& p.content_hash == photo.content_hash
    &&& p.main_photo_uid == optional_uid(volume_id, photo.main_photo_link_id)
    &&& p.related_photo_uids@ == uids_of(volume_id, photo.related_photo_link_ids@)
    &&& p.tags@ == known_tags(photo.tags@)
    &&& p.album_uids@ == uids_of(volume_id, album_links(photo.album_inclusions@))
}

fn photo_part(volume_id: &VolumeId, photo: &PhotoDto) -> (p: PhotoProperties)
    ensures
        is_photo_part(p, *volume_id, *photo),
{
    PhotoProperties {
        capture_time: photo.capture_time,
        content_hash: photo.content_hash.clone(),
        main_photo_uid: optional_uid_in(volume_id, &photo.main_photo_link_id),
        related_photo_uids: uids_in(volume_id, &photo.related_photo_link_ids),
        tags: tags_from_raw(&photo.tags),
        album_uids: album_uids_in(volume_id, &photo.album_inclusions),
    }
}

/// The album part of a node on the volume. A time of zero means no activity.
pub open spec fn album_part_of(volume_id: VolumeId, album: AlbumDto) -> AlbumProperties {
    AlbumProperties {
        photo_count: album.photo_count,
        cover_photo_uid: optional_uid(volume_id, album.cover_link_id),
        last_activity_time: if album.last_activity_time != 0 {
            Some(album.last_activity_time)
        } else {
            None
        },
    }
}

fn album_part(volume_id: &VolumeId, album: &AlbumDto) -> (p: AlbumProperties)
    ensures
        p == album_part_of(*volume_id, *album),
{
    AlbumProperties {
        photo_count: album.photo_count,
        cover_photo_uid: optional_uid_in(volume_id, &album.cover_link_id),
        last_activity_time: if album.last_activity_time != 0 {
            Some(album.last_activity_time)
        } else {
            None
        },
    }
}

/// A membership as the server tells it.
pub fn share_membership_from_dto(dto: &ShareMembershipSummaryDto) -> (r: ShareMembership)
    ensures
        r == (ShareMembership {
            share_id: dto.share_id,
            membership_id: dto.membership_id,
            permissions: dto.permissions,
        }),
{
    ShareMembership {
        share_id: dto.share_id.clone(),
        membership_id: dto.membership_id.clone(),
        permissions: dto.permissions,
    }
}

/// What decrypting a link gave: its name, its key where it was unlocked, how the
/// signatures on both came out, and what came of the content key and of the
/// attributes of the active revision.
#[derive(Debug, PartialEq, Eq)]
pub struct DecryptedLink {
    pub name: String,
    pub node_key: Option<String>,
    pub name_status: VerificationStatus,
    pub passphrase_status: VerificationStatus,
    /// `None` where the content key was not or could not be decrypted. It counts only
    /// where the node key was unlocked.
    pub content_key_status: Option<VerificationStatus>,
    /// `None` where the attributes were not or could not be decrypted. They count only
    /// where the node key was unlocked.
    pub attributes: Option<(DecryptedExtendedAttributes, VerificationStatus)>,
}

impl DecryptedLink {
    /// The attributes that the unlocked node key gave, and how their signature came
    /// out.
    pub open spec fn unlocked_attributes(self) -> Option<
        (DecryptedExtendedAttributes, VerificationStatus),
    > {
        if self.node_key is Some {
            self.attributes
        } else {
            None
        }
    }

    /// The size that the uploader claims.
    pub open spec fn claimed_size(self) -> Option<i64> {
        match self.unlocked_attributes() {
            Some((attributes, _)) => match attributes.common {
                Some(common) => common.size,
                None => None,
            },
            None => None,
        }
    }

    /// The modification time that the uploader claims.
    pub open spec fn claimed_modification_time(self) -> Option<String> {
        match self.unlocked_attributes() {
            Some((attributes, _)) => match attributes.common {
                Some(common) => common.modification_time,
                None => None,
            },
            None => None,
        }
    }

    /// The content digest that the uploader claims.
    pub open spec fn claimed_sha1(self) -> Option<String> {
        match self.unlocked_attributes() {
            Some((attributes, _)) => match attributes.common {
                Some(common) => match common.digests {
                    Some(digests) => digests.sha1,
                    None => None,
                },
                None => None,
            },
            None => None,
        }
    }

    /// How the signatures of a file, or of a folder, came out.
    pub open spec fn verification(self, is_file: bool) -> NodeVerification {
        NodeVerification {
            name: self.name_status,
            passphrase: self.passphrase_status,
            content_key: if is_file && self.node_key is Some {
                self.content_key_status
            } else {
                None
            },
            extended_attributes: match self.unlocked_attributes() {
                Some((_, status)) => if is_file {
                    Some(status)
                } else {
                    None
                },
                None => None,
            },
        }
    }
}

/// The file part of a node.
pub open spec fn file_kind(file: FileDto, decrypted: DecryptedLink) -> NodeKind {
    NodeKind::File {
        media_type: file.media_type,
        total_size_on_storage: file.total_size_on_storage,
        active_revision_state: match file.active_revision {
            Some(revision) => Some(RevisionState::with_wire(revision.state)),
            None => None,
        },
        active_revision_id: match file.active_revision {
            Some(revision) => Some(revision.id),
            None => None,
        },
        claimed_size: decrypted.claimed_size(),
        claimed_modification_time: decrypted.claimed_modification_time(),
        content_sha1: decrypted.claimed_sha1(),
    }
}

/// Whether the node is the one that the link stands for: a folder or album, or a
/// file or photo.
pub open spec fn is_node_of(
    node: Node,
    volume_id: VolumeId,
    details: LinkDetailsDto,
    decrypted: DecryptedLink,
) -> bool {
    let link = details.link;
    let is_file = link_type_of(link.link_type as int) == LinkType::File;
    &&& node.uid == (NodeUid { volume_id, link_id: link.id })
    &&& node.parent_uid == optional_uid(volume_id, link.parent_id)
    &&& node.name == decrypted.name
    &&& node.creation_time == link.creation_time
    &&& node.modification_time == link.modification_time
    &&& node.trashed == link.in_trash()
    &&& node.is_shared == details.sharing is Some
    &&& node.is_shared_publicly == (details.sharing is Some
        && details.sharing->0.share_url_id is Some)
    &&& node.signature_email == link.signature_email
    &&& match details.membership {
        Some(m) => node.membership == Some(
            ShareMembership {
                share_id: m.share_id,
                membership_id: m.membership_id,
                permissions: m.permissions,
            },
        ),
        None => node.membership is None,
    }
    &&& node.verification == decrypted.verification(is_file)
    &&& if is_file {
        &&& details.file_data() is Some
        &&& node.kind == file_kind(details.file_data()->0, decrypted)
        &&& node.album is None
        &&& match details.photo {
            Some(photo) => node.photo is Some && is_photo_part(node.photo->0, volume_id, photo),
            None => node.photo is None,
        }
    } else {
        &&& node.kind is Folder
        &&& node.photo is None
        &&& match details.album {
            Some(album) => node.album == Some(album_part_of(volume_id, album)),
            None => node.album is None,
        }
    }
}

/// Why a link cannot be a node, if it cannot: a type that is not known, a folder
/// without its key, or a file without file data.
pub open spec fn refusal_of(details: LinkDetailsDto, decrypted: DecryptedLink) -> Option<Seq<char>> {
    match link_type_of(details.link.link_type as int) {
        LinkType::Folder | LinkType::Album => if decrypted.node_key is None {
            Some("folder node built without its key"@)
        } else {
            None
        },
        LinkType::File => if details.file_data() is None {
            Some("file node missing file properties"@)
        } else {
            None
        },
        LinkType::Unknown => Some(
            "unsupported link type "@ + signed_decimal(details.link.link_type as int),
        ),
    }
}

fn file_part(file: &FileDto, decrypted: &DecryptedLink) -> (kind: NodeKind)
    ensures
        kind == file_kind(*file, *decrypted),
{
    let mut claimed_size: Option<i64> = None;
    let mut claimed_modification_time: Option<String> = None;
    let mut content_sha1: Option<String> = None;
    if let (Some(_), Some((attributes, _))) = (&decrypted.node_key, &decrypted.attributes) {
        if let Some(common) = &attributes.common {
            claimed_size = common.size;
            claimed_modification_time = common.modification_time.clone();
            if let Some(digests) = &common.digests {
                content_sha1 = digests.sha1.clone();
            }
        }
    }
    let (active_revision_state, active_revision_id): (Option<RevisionState>, Option<String>) =
        match &file.active_revision {
        Some(revision) => (
            Some(RevisionState::from_raw(revision.state)),
            Some(revision.id.clone()),
        ),
        None => (None, None),
    };
    NodeKind::File {
        media_type: file.media_type.clone(),
        total_size_on_storage: file.total_size_on_storage,
        active_revision_state,
        active_revision_id,
        claimed_size,
        claimed_modification_time,
        content_sha1,
    }
}

/// Whether this is what comes of building the node of a link, given what decrypting
/// it gave.
pub open spec fn is_built(
    r: Result<Node, ProtonError>,
    volume_id: VolumeId,
    details: LinkDetailsDto,
    decrypted: DecryptedLink,
) -> bool {
    match r {
        Ok(node) => refusal_of(details, decrypted) is None && is_node_of(
            node,
            volume_id,
            details,
            decrypted,
        ),
        Err(e) => refusal_of(details, decrypted) is Some && invalid(
            e,
            refusal_of(details, decrypted)->0,
        ),
    }
}

/// The node that a link stands for, given what decrypting it gave.
pub fn build_node(volume_id: &VolumeId, details: &LinkDetailsDto, decrypted: DecryptedLink) -> (r:
    Result<Node, ProtonError>)
    ensures
        is_built(r, *volume_id, *details, decrypted),
        r is Ok <==> {
            ||| (details.link.link_type == 1 || details.link.link_type == 3) && decrypted.node_key is Some
            ||| details.link.link_type == 2 && (details.file is Some || details.photo is Some)
        },
        r matches Ok(node) ==> {
            &&& node.uid.volume_id == *volume_id
            &&& node.uid.link_id == details.link.id
            &&& match node.parent_uid {
                Some(parent) => parent.volume_id == *volume_id && details.link.parent_id == Some(
                    parent.link_id,
                ),
                None => details.link.parent_id is None,
            }
            &&& node.name == decrypted.name
            &&& node.trashed <==> details.link.state == 2 || details.link.trash_time is Some
            &&& node.creation_time == details.link.creation_time
            &&& node.modification_time == details.link.modification_time
            &&& node.is_shared <==> details.sharing is Some
            &&& node.is_shared_publicly <==> details.sharing is Some
                && details.sharing->0.share_url_id is Some
            &&& node.signature_email == details.link.signature_email
            &&& node.membership is Some <==> details.membership is Some
            &&& node.membership is Some ==> node.membership->0.share_id
                == details.membership->0.share_id && node.membership->0.membership_id
                == details.membership->0.membership_id && node.membership->0.permissions
                == details.membership->0.permissions
            &&& node.verification.name == decrypted.name_status
            &&& node.verification.passphrase == decrypted.passphrase_status
            &&& node.kind is Folder <==> details.link.link_type != 2
        },
        r is Ok && details.link.link_type != 2 ==> {
            let node = r->Ok_0;
            &&& node.photo is None
            &&& node.verification.content_key is None
            &&& node.verification.extended_attributes is None
            &&& node.album is Some <==> details.album is Some
            &&& node.album is Some ==> {
                let album = details.album->0;
                &&& node.album->0.photo_count == album.photo_count
                &&& node.album->0.last_activity_time == (if album.last_activity_time == 0 {
                    None
                } else {
                    Some(album.last_activity_time)
                })
                &&& match node.album->0.cover_photo_uid {
                    Some(cover) => cover.volume_id == *volume_id && album.cover_link_id == Some(
                        cover.link_id,
                    ),
                    None => album.cover_link_id is None,
                }
            }
        },
        r is Ok && details.link.link_type == 2 ==> {
            let node = r->Ok_0;
            let file = if details.file is Some {
                details.file->0
            } else {
                details.photo->0.file
            };
            &&& node.album is None
            &&& node.kind matches NodeKind::File {
                media_type,
                total_size_on_storage,
                active_revision_state,
                active_revision_id,
                claimed_size,
                claimed_modification_time,
                content_sha1,
            }
            &&& media_type == file.media_type
            &&& total_size_on_storage == file.total_size_on_storage
            &&& active_revision_id is Some <==> file.active_revision is Some
            &&& active_revision_state is Some <==> file.active_revision is Some
            &&& file.active_revision is Some ==> active_revision_id->0 == file.active_revision->0.id && (
            active_revision_state->0 == RevisionState::Superseded <==> file.active_revision->0.state
                == Some(2i32))
            &&& node.verification.content_key == (if decrypted.node_key is Some {
                decrypted.content_key_status
            } else {
                None
            })
            &&& if decrypted.node_key is Some && decrypted.attributes is Some {
                let attributes = (decrypted.attributes->0).0;
                &&& node.verification.extended_attributes == Some((decrypted.attributes->0).1)
                &&& claimed_size == (if attributes.common is Some {
                    attributes.common->0.size
                } else {
                    None
                })
                &&& claimed_modification_time == (if attributes.common is Some {
                    attributes.common->0.modification_time
                } else {
                    None
                })
                &&& content_sha1 == (if attributes.common is Some && attributes.common->0.digests is Some {
                    attributes.common->0.digests->0.sha1
                } else {
                    None
                })
            } else {
                &&& node.verification.extended_attributes is None
                &&& claimed_size is None
                &&& claimed_modification_time is None
                &&& content_sha1 is None
            }
            &&& node.photo is Some <==> details.photo is Some
            &&& node.photo is Some ==> {
                let photo = details.photo->0;
                let said = node.photo->0;
                &&& said.capture_time == photo.capture_time
                &&& said.content_hash == photo.content_hash
                &&& match said.main_photo_uid {
                    Some(main) => main.volume_id == *volume_id && photo.main_photo_link_id == Some(
                        main.link_id,
                    ),
                    None => photo.main_photo_link_id is None,
                }
                &&& said.related_photo_uids@.len() == photo.related_photo_link_ids@.len()
                &&& forall|i: int|
                    0 <= i < said.related_photo_uids@.len() ==> (
                    #[trigger] said.related_photo_uids@[i]).volume_id == *volume_id
                        && said.related_photo_uids@[i].link_id == photo.related_photo_link_ids@[i]
                &&& said.album_uids@.len() == photo.album_inclusions@.len()
                &&& forall|i: int|
                    0 <= i < said.album_uids@.len() ==> (#[trigger] said.album_uids@[i]).volume_id
                        == *volume_id && said.album_uids@[i].link_id
                        == photo.album_inclusions@[i].album_link_id
                &&& said.tags@ == photo.tags@.filter(|t: i32| 0 <= t <= 9).map_values(
                    |t: i32| PhotoTag::with_wire(t as int)->0,
                )
            }
        },
        r matches Err(e) ==> {
            &&& details.link.link_type == 1 || details.link.link_type == 3 ==> invalid(
                e,
                "folder node built without its key"@,
            )
            &&& details.link.link_type == 2 ==> invalid(e, "file node missing file properties"@)
            &&& !(1 <= details.link.link_type <= 3) ==> invalid(
                e,
                "unsupported link type "@ + signed_decimal(details.link.link_type as int),
            )
        },
{
    proof {
        if details.photo is Some {
            law_unknown_tags_are_left_out(details.photo->0.tags@);
        }
    }
    let link: &LinkDto = &details.link;
    let mut album: Option<AlbumProperties> = None;
    let mut photo: Option<PhotoProperties> = None;
    let mut content_key: Option<VerificationStatus> = None;
    let mut extended_attributes: Option<VerificationStatus> = None;
    let kind: NodeKind = match link.parsed_type() {
        LinkType::Folder | LinkType::Album => {
            if decrypted.node_key.is_none() {
                return Err(ProtonError::invalid_operation("folder node built without its key"));
            }
            if let Some(dto) = &details.album {
                album = Some(album_part(volume_id, dto));
            }
            NodeKind::Folder
        },
        LinkType::File => {
            match details.file_properties() {
                Some(file) => {
                    if decrypted.node_key.is_some() {
                        content_key = decrypted.content_key_status;
                        if let Some((_, status)) = &decrypted.attributes {
                            extended_attributes = Some(*status);
                        }
                    }
                    if let Some(dto) = &details.photo {
                        photo = Some(photo_part(volume_id, dto));
                    }
                    file_part(file, &decrypted)
                },
                None => {
                    return Err(
                        ProtonError::invalid_operation("file node missing file properties"),
                    );
                },
            }
        },
        LinkType::Unknown => {
            let mut message: String = owned("unsupported link type ");
            push_signed(&mut message, link.link_type as i64);
            return Err(ProtonError::invalid_operation(message.as_str()));
        },
    };
    let is_shared_publicly: bool = match &details.sharing {
        Some(sharing) => sharing.share_url_id.is_some(),
        None => false,
    };
    let membership: Option<ShareMembership> = match &details.membership {
        Some(dto) => Some(share_membership_from_dto(dto)),
        None => None,
    };
    Ok(
        Node {
            uid: uid_in(volume_id, &link.id),
            parent_uid: optional_uid_in(volume_id, &link.parent_id),
            kind,
            name: decrypted.name,
            creation_time: link.creation_time,
            modification_time: link.modification_time,
            trashed: link.is_trashed(),
            is_shared: details.sharing.is_some(),
            is_shared_publicly,
            signature_email: link.signature_email.clone(),
            membership,
            photo,
            album,
            verification: NodeVerification {
                name: decrypted.name_status,
                passphrase: decrypted.passphrase_status,
                content_key,
                extended_attributes,
            },
        },
    )
}

/// A node says what its link says: which node it is and under which parent, when it was
/// made and changed, whether it is in the trash, and whether and how it is shared. A
/// file has its file data, and what its own key told of it; a folder has neither.
pub proof fn law_a_node_says_what_its_link_says(
    r: Result<Node, ProtonError>,
    volume_id: VolumeId,
    details: LinkDetailsDto,
    decrypted: DecryptedLink,
)
    requires
        is_built(r, volume_id, details, decrypted),
    ensures
        r is Ok <==> {
            ||| (details.link.link_type == 1 || details.link.link_type == 3) && decrypted.node_key is Some
            ||| details.link.link_type == 2 && (details.file is Some || details.photo is Some)
        },
        r matches Ok(node) ==> {
            &&& node.uid.volume_id == volume_id
            &&& node.uid.link_id == details.link.id
            &&& match node.parent_uid {
                Some(parent) => parent.volume_id == volume_id && details.link.parent_id == Some(
                    parent.link_id,
                ),
                None => details.link.parent_id is None,
            }
            &&& node.name == decrypted.name
            &&& node.trashed <==> details.link.state == 2 || details.link.trash_time is Some
            &&& node.creation_time == details.link.creation_time
            &&& node.modification_time == details.link.modification_time
            &&& node.is_shared <==> details.sharing is Some
            &&& node.is_shared_publicly <==> details.sharing is Some
                && details.sharing->0.share_url_id is Some
            &&& node.signature_email == details.link.signature_email
            &&& node.membership is Some <==> details.membership is Some
            &&& node.membership is Some ==> node.membership->0.share_id
                == details.membership->0.share_id && node.membership->0.membership_id
                == details.membership->0.membership_id && node.membership->0.permissions
                == details.membership->0.permissions
            &&& node.verification.name == decrypted.name_status
            &&& node.verification.passphrase == decrypted.passphrase_status
            &&& node.kind is Folder <==> details.link.link_type != 2
        },
        r is Ok && details.link.link_type != 2 ==> {
            let node = r->Ok_0;
            &&& node.photo is None
            &&& node.verification.content_key is None
            &&& node.verification.extended_attributes is None
            &&& node.album is Some <==> details.album is Some
            &&& node.album is Some ==> {
                let album = details.album->0;
                &&& node.album->0.photo_count == album.photo_count
                &&& node.album->0.last_activity_time == (if album.last_activity_time == 0 {
                    None
                } else {
                    Some(album.last_activity_time)
                })
                &&& match node.album->0.cover_photo_uid {
                    Some(cover) => cover.volume_id == volume_id && album.cover_link_id == Some(
                        cover.link_id,
                    ),
                    None => album.cover_link_id is None,
                }
            }
        },
        r is Ok && details.link.link_type == 2 ==> {
            let node = r->Ok_0;
            let file = if details.file is Some {
                details.file->0
            } else {
                details.photo->0.file
            };
            &&& node.album is None
            &&& node.kind matches NodeKind::File {
                media_type,
                total_size_on_storage,
                active_revision_state,
                active_revision_id,
                claimed_size,
                claimed_modification_time,
                content_sha1,
            }
            &&& media_type == file.media_type
            &&& total_size_on_storage == file.total_size_on_storage
            &&& active_revision_id is Some <==> file.active_revision is Some
            &&& active_revision_state is Some <==> file.active_revision is Some
            &&& file.active_revision is Some ==> active_revision_id->0 == file.active_revision->0.id && (
            active_revision_state->0 == RevisionState::Superseded <==> file.active_revision->0.state
                == Some(2i32))
            &&& node.verification.content_key == (if decrypted.node_key is Some {
                decrypted.content_key_status
            } else {
                None
            })
            &&& if decrypted.node_key is Some && decrypted.attributes is Some {
                let attributes = (decrypted.attributes->0).0;
                &&& node.verification.extended_attributes == Some((decrypted.attributes->0).1)
                &&& claimed_size == (if attributes.common is Some {
                    attributes.common->0.size
                } else {
                    None
                })
                &&& claimed_modification_time == (if attributes.common is Some {
                    attributes.common->0.modification_time
                } else {
                    None
                })
                &&& content_sha1 == (if attributes.common is Some && attributes.common->0.digests is Some {
                    attributes.common->0.digests->0.sha1
                } else {
                    None
                })
            } else {
                &&& node.verification.extended_attributes is None
                &&& claimed_size is None
                &&& claimed_modification_time is None
                &&& content_sha1 is None
            }
            &&& node.photo is Some <==> details.photo is Some
            &&& node.photo is Some ==> {
                let photo = details.photo->0;
                let said = node.photo->0;
                &&& said.capture_time == photo.capture_time
                &&& said.content_hash == photo.content_hash
                &&& match said.main_photo_uid {
                    Some(main) => main.volume_id == volume_id && photo.main_photo_link_id == Some(
                        main.link_id,
                    ),
                    None => photo.main_photo_link_id is None,
                }
                &&& said.related_photo_uids@.len() == photo.related_photo_link_ids@.len()
                &&& forall|i: int|
                    0 <= i < said.related_photo_uids@.len() ==> (
                    #[trigger] said.related_photo_uids@[i]).volume_id == volume_id
                        && said.related_photo_uids@[i].link_id == photo.related_photo_link_ids@[i]
                &&& said.album_uids@.len() == photo.album_inclusions@.len()
                &&& forall|i: int|
                    0 <= i < said.album_uids@.len() ==> (#[trigger] said.album_uids@[i]).volume_id
                        == volume_id && said.album_uids@[i].link_id
                        == photo.album_inclusions@[i].album_link_id
                &&& said.tags@ == photo.tags@.filter(|t: i32| 0 <= t <= 9).map_values(
                    |t: i32| PhotoTag::with_wire(t as int)->0,
                )
            }
        },
        r matches Err(e) ==> {
            &&& details.link.link_type == 1 || details.link.link_type == 3 ==> invalid(
                e,
                "folder node built without its key"@,
            )
            &&& details.link.link_type == 2 ==> invalid(e, "file node missing file properties"@)
            &&& !(1 <= details.link.link_type <= 3) ==> invalid(
                e,
                "unsupported link type "@ + signed_decimal(details.link.link_type as int),
            )
        },
{
    if details.photo is Some {
        law_unknown_tags_are_left_out(details.photo->0.tags@);
    }
}

// ---------------------------------------------------------------------------
// Light and full nodes
// ---------------------------------------------------------------------------

/// Whether a link was decrypted twice, lightly and in full, with the same name and the
/// same signatures on it. Which node keys were unlocked is what the two differ in.
pub open spec fn are_light_and_full(
    link: LinkDto,
    light: DecryptedLink,
    full: DecryptedLink,
) -> bool {
    &&& light.name == full.name
    &&& light.name_status == full.name_status
    &&& light.passphrase_status == full.passphrase_status
    &&& light.node_key is Some == unlocks_node_key(NodeDetail::Light, link)
    &&& full.node_key is Some == unlocks_node_key(NodeDetail::Full, link)
}

/// Whether two photo parts say the same.
pub open spec fn same_photo(a: PhotoProperties, b: PhotoProperties) -> bool {
    &&& a.capture_time == b.capture_time
    &&& a.content_hash == b.content_hash
    &&& a.main_photo_uid == b.main_photo_uid
    &&& a.related_photo_uids@ == b.related_photo_uids@
    &&& a.tags@ == b.tags@
    &&& a.album_uids@ == b.album_uids@
}

/// A file without what only its own key tells of it. A folder stays as it is.
pub open spec fn without_claims(kind: NodeKind) -> NodeKind {
    match kind {
        NodeKind::Folder => kind,
        NodeKind::File {
            media_type,
            total_size_on_storage,
            active_revision_state,
            active_revision_id,
            ..
        } => NodeKind::File {
            media_type,
            total_size_on_storage,
            active_revision_state,
            active_revision_id,
            claimed_size: None,
            claimed_modification_time: None,
            content_sha1: None,
        },
    }
}

/// Whether a node is another one without what only the key of a file tells: what the
/// uploader claims of its contents, and how the signatures on the content key and on
/// the attributes came out. Of a folder nothing is missing.
pub open spec fn is_light_node_of(light: Node, full: Node) -> bool {
    &&& light.uid == full.uid
    &&& light.parent_uid == full.parent_uid
    &&& light.kind == without_claims(full.kind)
    &&& light.name == full.name
    &&& light.creation_time == full.creation_time
    &&& light.modification_time == full.modification_time
    &&& light.trashed == full.trashed
    &&& light.is_shared == full.is_shared
    &&& light.is_shared_publicly == full.is_shared_publicly
    &&& light.signature_email == full.signature_email
    &&& light.membership == full.membership
    &&& light.album == full.album
    &&& match full.photo {
        Some(photo) => light.photo is Some && same_photo(light.photo->0, photo),
        None => light.photo is None,
    }
    &&& light.verification == (NodeVerification {
        content_key: None,
        extended_attributes: None,
        ..full.verification
    })
    &&& full.kind is Folder ==> light == full
}

/// A light node is the full one but for what the key of a file unlocks, and a folder is
/// the same either way. Where one of them is refused, so is the other, for the same
/// reason.
pub proof fn law_light_nodes_lack_only_what_a_file_key_unlocks(
    volume_id: VolumeId,
    details: LinkDetailsDto,
    light: DecryptedLink,
    full: DecryptedLink,
    light_result: Result<Node, ProtonError>,
    full_result: Result<Node, ProtonError>,
)
    requires
        are_light_and_full(details.link, light, full),
        is_built(light_result, volume_id, details, light),
        is_built(full_result, volume_id, details, full),
    ensures
        refusal_of(details, light) == refusal_of(details, full),
        light_result is Ok == full_result is Ok,
        light_result is Ok ==> is_light_node_of(light_result->Ok_0, full_result->Ok_0),
{
}

} // verus!
