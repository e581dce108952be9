//! Sharing a node: the share it is reached through, who is invited, who already
//! has access, and what is saved of other people's links.

use vstd::prelude::*;
use vstd::string::{StrSliceExecFns, StringExecFns};

use crate::addresses::{lowercase, lowercase_of};
use crate::digest::{base64_encode, base64_text};
use crate::drafts::encodable;
use crate::dtos::{
    BookmarkDto, BookmarkShareUrlDto, CreateBookmarkRequest,
    CreatePublicLinkRequest, CreateShareRequest, ExternalInvitationDto,
    ExternalInvitationResponseDto, InvitationDetailsResponse, InviteEmailDetailsDto,
    InviteExternalUserRequest, InviteProtonUserInvitationDto, InviteProtonUserRequest,
    LinkDetailsDto, ShareInvitationDto, ShareMemberDto, ShareUrlDto, UpdatePermissionsRequest,
};
use crate::error::{invalid, ProtonError};
use crate::ids::{LinkId, NodeUid, ShareId, VolumeId};
use crate::public_urls::{
    drive_link_url, generated_part, is_custom, link_flags, public_link_url,
    PUBLIC_LINK_PASSWORD_LEN,
};
use crate::sharing::{
    Bookmark, ExternalInvitation, ExternalInvitationState, IncomingInvitation, MemberRole,
    PublicLink, ShareInvitation, ShareMember, EDITOR_PERMISSIONS, VIEWER_PERMISSIONS,
};
use crate::text::{joined, owned, position_of, texts};

verus! {

// ---------------------------------------------------------------------------
// The share of a node
// ---------------------------------------------------------------------------

/// Whether link `i` is the first one with the id.
pub open spec fn first_detail(details: Seq<LinkDetailsDto>, id: Seq<char>, i: int) -> bool {
    &&& 0 <= i < details.len()
    &&& details[i].link.id@ == id
    &&& forall|j: int| 0 <= j < i ==> (#[trigger] details[j]).link.id@ != id
}

/// Whether none of the links has the id.
pub open spec fn no_detail(details: Seq<LinkDetailsDto>, id: Seq<char>) -> bool {
    forall|j: int| 0 <= j < details.len() ==> (#[trigger] details[j]).link.id@ != id
}

/// The link of a node among those that were fetched for it.
pub fn detail_of<'a>(details: &'a Vec<LinkDetailsDto>, uid: &NodeUid) -> (r: Option<
    &'a LinkDetailsDto,
>)
    ensures
        match r {
            Some(detail) => exists|i: int| #[trigger]
                first_detail(details@, uid.link_id@, i) && *detail == details@[i],
            None => no_detail(details@, uid.link_id@),
        },
{
    let mut i: usize = 0;
    while i < details.len()
        invariant
            i <= details@.len(),
            forall|j: int| 0 <= j < i ==> (#[trigger] details@[j]).link.id@ != uid.link_id@,
        decreases details@.len() - i,
    {
        if details[i].link.id.same_as(&uid.link_id) {
            assert(first_detail(details@, uid.link_id@, i as int));
            return Some(&details[i]);
        }
        i += 1;
    }
    None
}

/// The link of a node that is to be shared.
pub fn node_to_share<'a>(details: &'a Vec<LinkDetailsDto>, uid: &NodeUid) -> (r: Result<
    &'a LinkDetailsDto,
    ProtonError,
>)
    ensures
        match r {
            Ok(detail) => exists|i: int| #[trigger]
                first_detail(details@, uid.link_id@, i) && *detail == details@[i],
            Err(e) => no_detail(details@, uid.link_id@) && invalid(e, "node not found"@),
        },
{
    match detail_of(details, uid) {
        Some(detail) => Ok(detail),
        None => Err(ProtonError::invalid_operation("node not found")),
    }
}

/// The route of a share.
pub fn share_path(share_id: &ShareId) -> (path: String)
    ensures
        path@ == "shares/"@ + share_id@,
{
    joined("shares/", share_id.as_str())
}

/// The route that creates a share on a volume.
pub fn create_share_path(volume_id: &VolumeId) -> (path: String)
    ensures
        path@ == "volumes/"@ + volume_id@ + "/shares"@,
{
    let mut path: String = owned("volumes/");
    path.append(volume_id.as_str());
    path.append("/shares");
    path
}

/// The share of a node, if it is shared.
pub fn node_share_id(details: &Vec<LinkDetailsDto>, uid: &NodeUid) -> (r: Option<ShareId>)
    ensures
        match r {
            Some(share_id) => exists|i: int| #[trigger]
                first_detail(details@, uid.link_id@, i) && details@[i].sharing is Some && share_id
                    == details@[i].sharing->0.share_id,
            None => no_detail(details@, uid.link_id@) || exists|i: int| #[trigger]
                first_detail(details@, uid.link_id@, i) && details@[i].sharing is None,
        },
{
    match detail_of(details, uid) {
        Some(detail) => match &detail.sharing {
            Some(sharing) => Some(sharing.share_id.clone()),
            None => None,
        },
        None => None,
    }
}

/// Our membership in the share of a node that somebody shared with us: the share
/// and the membership that leaving gives up.
pub fn membership_to_leave(details: &Vec<LinkDetailsDto>, uid: &NodeUid) -> (r: Result<
    (ShareId, String),
    ProtonError,
>)
    ensures
        match r {
            Ok((share_id, membership_id)) => exists|i: int| #[trigger]
                first_detail(details@, uid.link_id@, i) && details@[i].membership is Some
                    && share_id == details@[i].membership->0.share_id && membership_id
                    == details@[i].membership->0.membership_id,
            Err(e) => {
                &&& no_detail(details@, uid.link_id@) || exists|i: int| #[trigger]
                    first_detail(details@, uid.link_id@, i) && details@[i].membership is None
                &&& invalid(e, "you can leave only an item that is shared with you"@)
            },
        },
{
    if let Some(detail) = detail_of(details, uid) {
        if let Some(membership) = &detail.membership {
            return Ok((membership.share_id.clone(), membership.membership_id.clone()));
        }
    }
    Err(ProtonError::invalid_operation("you can leave only an item that is shared with you"))
}

/// The request that creates the share of a node.
pub fn create_share_request(
    uid: &NodeUid,
    address_id: String,
    share_key: String,
    share_passphrase: String,
    share_passphrase_signature: String,
    passphrase_key_packet: String,
    name_key_packet: String,
) -> (r: CreateShareRequest)
    ensures
        r.root_link_id == uid.link_id,
        r.address_id == address_id,
        r.name@ == "New Share"@,
        r.share_key == share_key,
        r.share_passphrase == share_passphrase,
        r.share_passphrase_signature == share_passphrase_signature,
        r.passphrase_key_packet == passphrase_key_packet,
        r.name_key_packet == name_key_packet,
{
    CreateShareRequest {
        root_link_id: uid.link_id.clone(),
        address_id,
        name: owned("New Share"),
        share_key,
        share_passphrase,
        share_passphrase_signature,
        passphrase_key_packet,
        name_key_packet,
    }
}

// ---------------------------------------------------------------------------
// Members and invitations
// ---------------------------------------------------------------------------

/// An invitation, as it is listed.
pub open spec fn invitation_of(share_id: ShareId, dto: ShareInvitationDto) -> ShareInvitation {
    ShareInvitation {
        share_id,
        invitation_id: dto.invitation_id,
        invitee_email: dto.invitee_email,
        inviter_email: dto.inviter_email,
        role: MemberRole::shown_for(dto.permissions),
        invitation_time: dto.create_time,
    }
}

pub fn invitation_from_dto(share_id: &ShareId, dto: ShareInvitationDto) -> (r: ShareInvitation)
    ensures
        r == invitation_of(*share_id, dto),
        r.share_id == *share_id,
        r.invitation_id == dto.invitation_id,
        r.invitee_email == dto.invitee_email,
        r.inviter_email == dto.inviter_email,
        r.invitation_time == dto.create_time,
        r.role == MemberRole::shown_for(dto.permissions),
{
    ShareInvitation {
        share_id: share_id.clone(),
        invitation_id: dto.invitation_id,
        invitee_email: dto.invitee_email,
        inviter_email: dto.inviter_email,
        role: MemberRole::from_permissions(dto.permissions),
        invitation_time: dto.create_time,
    }
}

/// An invitation of somebody without an account, as it is listed.
pub open spec fn external_invitation_of(
    share_id: ShareId,
    dto: ExternalInvitationResponseDto,
) -> ExternalInvitation {
    ExternalInvitation {
        share_id,
        invitation_id: dto.external_invitation_id,
        invitee_email: dto.invitee_email,
        inviter_email: dto.inviter_email,
        role: MemberRole::shown_for(dto.permissions),
        invitation_time: dto.create_time,
        state: ExternalInvitationState::with_wire(dto.state as int),
    }
}

pub fn external_invitation_from_dto(
    share_id: &ShareId,
    dto: ExternalInvitationResponseDto,
) -> (r: ExternalInvitation)
    ensures
        r == external_invitation_of(*share_id, dto),
        r.share_id == *share_id,
        r.invitation_id == dto.external_invitation_id,
        r.invitee_email == dto.invitee_email,
        r.inviter_email == dto.inviter_email,
        r.invitation_time == dto.create_time,
        r.role == MemberRole::shown_for(dto.permissions),
        r.state == ExternalInvitationState::Pending <==> dto.state == 1,
{
    ExternalInvitation {
        share_id: share_id.clone(),
        invitation_id: dto.external_invitation_id,
        invitee_email: dto.invitee_email,
        inviter_email: dto.inviter_email,
        role: MemberRole::from_permissions(dto.permissions),
        invitation_time: dto.create_time,
        state: ExternalInvitationState::from_raw(dto.state),
    }
}

/// A member, as they are listed.
pub open spec fn member_of(share_id: ShareId, dto: ShareMemberDto) -> ShareMember {
    ShareMember {
        share_id,
        membership_id: dto.member_id,
        email: dto.email,
        added_by_email: dto.inviter_email,
        role: MemberRole::shown_for(dto.permissions),
        invitation_time: dto.create_time,
    }
}

pub fn member_from_dto(share_id: &ShareId, dto: ShareMemberDto) -> (r: ShareMember)
    ensures
        r == member_of(*share_id, dto),
        r.share_id == *share_id,
        r.membership_id == dto.member_id,
        r.email == dto.email,
        r.added_by_email == dto.inviter_email,
        r.invitation_time == dto.create_time,
        r.role == MemberRole::shown_for(dto.permissions),
{
    ShareMember {
        share_id: share_id.clone(),
        membership_id: dto.member_id,
        email: dto.email,
        added_by_email: dto.inviter_email,
        role: MemberRole::from_permissions(dto.permissions),
        invitation_time: dto.create_time,
    }
}

/// The members of a share, in the order of the listing.
pub fn share_members(share_id: &ShareId, members: Vec<ShareMemberDto>) -> (r: Vec<ShareMember>)
    ensures
        r@.len() == members@.len(),
        forall|i: int| 0 <= i < r@.len() ==> #[trigger] r@[i] == member_of(*share_id, members@[i]),
{
    let ghost all = members@;
    let mut rest: Vec<ShareMemberDto> = members;
    let mut out: Vec<ShareMember> = Vec::new();
    while rest.len() > 0
        invariant
            out@.len() + rest@.len() == all.len(),
            rest@ == all.skip(out@.len() as int),
            forall|i: int|
                0 <= i < out@.len() ==> #[trigger] out@[i] == member_of(*share_id, all[i]),
        decreases rest@.len(),
    {
        out.push(member_from_dto(share_id, rest.remove(0)));
        assert(rest@ =~= all.skip(out@.len() as int));
    }
    out
}

/// The invitations of a share, in the order of the listing.
pub fn share_invitations(share_id: &ShareId, invitations: Vec<ShareInvitationDto>) -> (r: Vec<
    ShareInvitation,
>)
    ensures
        r@.len() == invitations@.len(),
        forall|i: int|
            0 <= i < r@.len() ==> #[trigger] r@[i] == invitation_of(*share_id, invitations@[i]),
{
    let ghost all = invitations@;
    let mut rest: Vec<ShareInvitationDto> = invitations;
    let mut out: Vec<ShareInvitation> = Vec::new();
    while rest.len() > 0
        invariant
            out@.len() + rest@.len() == all.len(),
            rest@ == all.skip(out@.len() as int),
            forall|i: int|
                0 <= i < out@.len() ==> #[trigger] out@[i] == invitation_of(*share_id, all[i]),
        decreases rest@.len(),
    {
        out.push(invitation_from_dto(share_id, rest.remove(0)));
        assert(rest@ =~= all.skip(out@.len() as int));
    }
    out
}

/// The invitations of people without an account, in the order of the listing.
pub fn external_invitations(
    share_id: &ShareId,
    invitations: Vec<ExternalInvitationResponseDto>,
) -> (r: Vec<ExternalInvitation>)
    ensures
        r@.len() == invitations@.len(),
        forall|i: int|
            0 <= i < r@.len() ==> #[trigger] r@[i] == external_invitation_of(
                *share_id,
                invitations@[i],
            ),
{
    let ghost all = invitations@;
    let mut rest: Vec<ExternalInvitationResponseDto> = invitations;
    let mut out: Vec<ExternalInvitation> = Vec::new();
    while rest.len() > 0
        invariant
            out@.len() + rest@.len() == all.len(),
            rest@ == all.skip(out@.len() as int),
            forall|i: int|
                0 <= i < out@.len() ==> #[trigger] out@[i] == external_invitation_of(
                    *share_id,
                    all[i],
                ),
        decreases rest@.len(),
    {
        out.push(external_invitation_from_dto(share_id, rest.remove(0)));
        assert(rest@ =~= all.skip(out@.len() as int));
    }
    out
}

// ---------------------------------------------------------------------------
// Inviting
// ---------------------------------------------------------------------------

/// The mail addresses of those who were invited or are members already.
pub open spec fn known_to(
    external: Seq<ExternalInvitation>,
    invitations: Seq<ShareInvitation>,
    members: Seq<ShareMember>,
) -> Seq<Seq<char>> {
    Seq::new(external.len(), |i: int| external[i].invitee_email@) + Seq::new(
        invitations.len(),
        |i: int| invitations[i].invitee_email@,
    ) + Seq::new(members.len(), |i: int| members[i].email@)
}

/// The mail addresses of those who were invited or are members already.
pub fn known_emails(
    external: &Vec<ExternalInvitation>,
    invitations: &Vec<ShareInvitation>,
    members: &Vec<ShareMember>,
) -> (r: Vec<String>)
    ensures
        texts(r@) == known_to(external@, invitations@, members@),
{
    let mut out: Vec<String> = Vec::new();
    let mut i: usize = 0;
    while i < external.len()
        invariant
            i <= external@.len(),
            out@.len() == i,
            forall|j: int| 0 <= j < i ==> (#[trigger] out@[j])@ == external@[j].invitee_email@,
        decreases external@.len() - i,
    {
        out.push(external[i].invitee_email.clone());
        i += 1;
    }
    let ghost first = out@;
    let mut k: usize = 0;
    while k < invitations.len()
        invariant
            k <= invitations@.len(),
            out@.len() == first.len() + k,
            forall|j: int| 0 <= j < first.len() ==> #[trigger] out@[j] == first[j],
            forall|j: int|
                first.len() <= j < out@.len() ==> (#[trigger] out@[j])@ == invitations@[j
                    - first.len()].invitee_email@,
        decreases invitations@.len() - k,
    {
        out.push(invitations[k].invitee_email.clone());
        k += 1;
    }
    let ghost second = out@;
    let mut m: usize = 0;
    while m < members.len()
        invariant
            m <= members@.len(),
            out@.len() == second.len() + m,
            forall|j: int| 0 <= j < second.len() ==> #[trigger] out@[j] == second[j],
            forall|j: int|
                second.len() <= j < out@.len() ==> (#[trigger] out@[j])@ == members@[j
                    - second.len()].email@,
        decreases members@.len() - m,
    {
        out.push(members[m].email.clone());
        m += 1;
    }
    assert(texts(out@) =~= known_to(external@, invitations@, members@)) by {
        assert forall|j: int| 0 <= j < out@.len() implies texts(out@)[j] == known_to(
            external@,
            invitations@,
            members@,
        )[j] by {
            if j < first.len() {
                assert(out@[j] == second[j] && second[j] == first[j]);
            } else if j < second.len() {
                assert(out@[j] == second[j]);
            }
        }
    }
    out
}

/// Somebody to be invited. `folded` is the mail address in lower case.
#[derive(Debug, PartialEq, Eq)]
pub struct Invitee {
    pub email: String,
    pub folded: String,
    pub role: MemberRole,
}

/// What inviting does next.
#[derive(Debug, PartialEq, Eq)]
pub enum InviteStep {
    /// Invite this address, with these permissions.
    Invite { email: String, permissions: i32 },
    /// Stop with an error.
    Fail(ProtonError),
    /// Everybody was gone through.
    Done,
}

/// Inviting people to a share: those who are still to be gone through, and the mail
/// addresses, in lower case, of those who have access or were asked already.
#[derive(Debug, PartialEq, Eq)]
pub struct InviteRun {
    pub already: Vec<String>,
    pub pending: Vec<Invitee>,
}

impl InviteRun {
    /// Whether the person has access or was asked already.
    pub open spec fn knows(self, invitee: Invitee) -> bool {
        texts(self.already@).contains(invitee.folded@)
    }

    /// Inviting `invitees` to a share that `known` are part of.
    pub fn start(known: &Vec<String>, invitees: Vec<(String, MemberRole)>) -> (run: InviteRun)
        ensures
            run.already@.len() == known@.len(),
            forall|i: int|
                0 <= i < known@.len() ==> (#[trigger] run.already@[i])@ == lowercase_of(known@[i]@),
            run.pending@.len() == invitees@.len(),
            forall|i: int|
                0 <= i < invitees@.len() ==> (#[trigger] run.pending@[i]).email == invitees@[i].0
                    && run.pending@[i].role == invitees@[i].1 && run.pending@[i].folded@
                    == lowercase_of(invitees@[i].0@),
    {
        let mut already: Vec<String> = Vec::new();
        let mut i: usize = 0;
        while i < known.len()
            invariant
                i <= known@.len(),
                already@.len() == i,
                forall|j: int|
                    0 <= j < i ==> (#[trigger] already@[j])@ == lowercase_of(known@[j]@),
            decreases known@.len() - i,
        {
            already.push(lowercase(known[i].as_str()));
            i += 1;
        }
        let ghost all = invitees@;
        let mut rest: Vec<(String, MemberRole)> = invitees;
        let mut pending: Vec<Invitee> = Vec::new();
        while rest.len() > 0
            invariant
                pending@.len() + rest@.len() == all.len(),
                rest@ == all.skip(pending@.len() as int),
                forall|j: int|
                    0 <= j < pending@.len() ==> (#[trigger] pending@[j]).email == all[j].0
                        && pending@[j].role == all[j].1 && pending@[j].folded@ == lowercase_of(
                        all[j].0@,
                    ),
            decreases rest@.len(),
        {
            let (email, role): (String, MemberRole) = rest.remove(0);
            let folded: String = lowercase(email.as_str());
            pending.push(Invitee { email, folded, role });
            assert(rest@ =~= all.skip(pending@.len() as int));
        }
        InviteRun { already, pending }
    }

    /// What to do next. Those who have access or were asked already are passed over.
    /// Nobody can be invited with a role that is inherited.
    pub fn next(&mut self) -> (step: InviteStep)
        ensures
            final(self).already == old(self).already,
            exists|k: int|
                #![trigger old(self).pending@.skip(k)]
                {
                    &&& 0 <= k <= old(self).pending@.len()
                    &&& forall|i: int|
                        0 <= i < k ==> old(self).knows(#[trigger] old(self).pending@[i])
                    &&& if k == old(self).pending@.len() {
                        step == InviteStep::Done && final(self).pending@.len() == 0
                    } else {
                        let invitee = old(self).pending@[k];
                        &&& !old(self).knows(invitee)
                        &&& final(self).pending@ == old(self).pending@.skip(k + 1)
                        &&& match invitee.role.mask() {
                            Some(permissions) => step == (InviteStep::Invite {
                                email: invitee.email,
                                permissions,
                            }),
                            None => step matches InviteStep::Fail(e) && invalid(
                                e,
                                "cannot invite a user with the inherited role"@,
                            ),
                        }
                    }
                },
    {
        let ghost start = self.pending@;
        let ghost mut k: int = 0;
        assert(start.skip(0) =~= start);
        while self.pending.len() > 0
            invariant
                self.already == old(self).already,
                start == old(self).pending@,
                0 <= k <= start.len(),
                self.pending@ == start.skip(k),
                forall|i: int| 0 <= i < k ==> old(self).knows(#[trigger] start[i]),
            decreases self.pending@.len(),
        {
            let invitee: Invitee = self.pending.remove(0);
            proof {
                assert(invitee == start[k]);
                assert(self.pending@ =~= start.skip(k + 1));
            }
            match position_of(&self.already, invitee.folded.as_str()) {
                Some(p) => {
                    proof {
                        assert(texts(self.already@)[p as int] == invitee.folded@);
                        k = k + 1;
                    }
                },
                None => {
                    let ghost from_here = start.skip(k);
                    return match invitee.role.to_permissions() {
                        Some(permissions) => InviteStep::Invite {
                            email: invitee.email,
                            permissions,
                        },
                        None => InviteStep::Fail(
                            ProtonError::invalid_operation(
                                "cannot invite a user with the inherited role",
                            ),
                        ),
                    };
                },
            }
        }
        assert(start.skip(k).len() == 0);
        InviteStep::Done
    }
}

/// The key that an invitation is encrypted to: the first of the invitee's.
pub fn invitee_key(keys: &Vec<String>, email: &str) -> (r: Result<String, ProtonError>)
    ensures
        match r {
            Ok(key) => keys@.len() > 0 && key == keys@[0],
            Err(e) => keys@.len() == 0 && invalid(e, "no public key for invitee "@ + email@),
        },
{
    if keys.len() > 0 {
        Ok(keys[0].clone())
    } else {
        Err(ProtonError::InvalidOperation(joined("no public key for invitee ", email)))
    }
}

/// The request that invites somebody with an account.
pub fn invite_request(
    inviter_email: &str,
    invitee_email: String,
    permissions: i32,
    key_packet: String,
    key_packet_signature: String,
    message: Option<String>,
) -> (r: InviteProtonUserRequest)
    ensures
        r.invitation.inviter_email@ == inviter_email@,
        r.invitation.invitee_email == invitee_email,
        r.invitation.permissions == permissions,
        r.invitation.key_packet == key_packet,
        r.invitation.key_packet_signature == key_packet_signature,
        r.invitation.external_invitation_id is None,
        r.email_details.message == message,
        r.email_details.item_name is None,
{
    InviteProtonUserRequest {
        invitation: InviteProtonUserInvitationDto {
            inviter_email: owned(inviter_email),
            invitee_email,
            permissions,
            key_packet,
            key_packet_signature,
            external_invitation_id: None,
        },
        email_details: InviteEmailDetailsDto { message, item_name: None },
    }
}

/// The request that invites somebody without an account.
pub fn invite_external_request(
    inviter_address_id: &str,
    invitee_email: String,
    permissions: i32,
    signature: String,
    message: Option<String>,
) -> (r: InviteExternalUserRequest)
    ensures
        r.external_invitation.inviter_address_id@ == inviter_address_id@,
        r.external_invitation.invitee_email == invitee_email,
        r.external_invitation.permissions == permissions,
        r.external_invitation.external_invitation_signature == signature,
        r.email_details.message == message,
        r.email_details.item_name is None,
{
    InviteExternalUserRequest {
        external_invitation: ExternalInvitationDto {
            inviter_address_id: owned(inviter_address_id),
            invitee_email,
            permissions,
            external_invitation_signature: signature,
        },
        email_details: InviteEmailDetailsDto { message, item_name: None },
    }
}

/// The invitees with an account, or those without one, in order.
pub open spec fn invitees_with(
    invitees: Seq<(String, MemberRole)>,
    has_account: Seq<bool>,
    wanted: bool,
) -> Seq<(String, MemberRole)>
    decreases invitees.len(),
{
    if invitees.len() == 0 {
        Seq::empty()
    } else {
        let before = invitees_with(invitees.drop_last(), has_account, wanted);
        if has_account[invitees.len() - 1] == wanted {
            before.push(invitees.last())
        } else {
            before
        }
    }
}

/// Splits invitees into those with an account and those without. Each goes one way,
/// in order.
pub fn split_invitees(invitees: Vec<(String, MemberRole)>, has_account: &Vec<bool>) -> (r: (
    Vec<(String, MemberRole)>,
    Vec<(String, MemberRole)>,
))
    requires
        has_account@.len() == invitees@.len(),
    ensures
        r.0@ == invitees_with(invitees@, has_account@, true),
        r.1@ == invitees_with(invitees@, has_account@, false),
{
    let ghost all = invitees@;
    let mut rest: Vec<(String, MemberRole)> = invitees;
    let mut with: Vec<(String, MemberRole)> = Vec::new();
    let mut without: Vec<(String, MemberRole)> = Vec::new();
    let mut i: usize = 0;
    assert(all.take(0) =~= Seq::<(String, MemberRole)>::empty());
    while i < has_account.len()
        invariant
            i <= has_account@.len() == all.len(),
            rest@ == all.skip(i as int),
            with@ == invitees_with(all.take(i as int), has_account@, true),
            without@ == invitees_with(all.take(i as int), has_account@, false),
        decreases has_account@.len() - i,
    {
        let invitee: (String, MemberRole) = rest.remove(0);
        assert(invitee == all[i as int]);
        assert(all.take(i + 1).drop_last() =~= all.take(i as int));
        if has_account[i] {
            with.push(invitee);
        } else {
            without.push(invitee);
        }
        i += 1;
        assert(rest@ =~= all.skip(i as int));
    }
    assert(all.take(i as int) =~= all);
    (with, without)
}

/// Nobody is lost and nobody is invited both ways.
pub proof fn law_invitees_are_split(invitees: Seq<(String, MemberRole)>, has_account: Seq<bool>)
    requires
        has_account.len() >= invitees.len(),
    ensures
        invitees_with(invitees, has_account, true).len() + invitees_with(
            invitees,
            has_account,
            false,
        ).len() == invitees.len(),
        forall|k: int|
            0 <= k < invitees.len() ==> invitees_with(invitees, has_account, has_account[k]).contains(
                #[trigger] invitees[k],
            ),
    decreases invitees.len(),
{
    if invitees.len() > 0 {
        let fewer = invitees.drop_last();
        law_invitees_are_split(fewer, has_account);
        assert forall|k: int| 0 <= k < invitees.len() implies invitees_with(
            invitees,
            has_account,
            has_account[k],
        ).contains(#[trigger] invitees[k]) by {
            let wanted = has_account[k];
            let before = invitees_with(fewer, has_account, wanted);
            let after = invitees_with(invitees, has_account, wanted);
            if k < fewer.len() {
                assert(fewer[k] == invitees[k]);
                assert(before.contains(fewer[k]));
                let p = choose|p: int| 0 <= p < before.len() && before[p] == fewer[k];
                assert(after[p] == invitees[k]);
            } else {
                assert(after.last() == invitees[k]);
            }
        }
    }
}

/// The request that changes a role. `what` says whose role it is.
pub fn role_request(role: MemberRole, what: &str) -> (r: Result<
    UpdatePermissionsRequest,
    ProtonError,
>)
    ensures
        match role.mask() {
            Some(permissions) => r == Ok::<UpdatePermissionsRequest, ProtonError>(
                UpdatePermissionsRequest { permissions },
            ),
            None => r is Err && invalid(
                r->Err_0,
                "cannot set "@ + what@ + " to the inherited role"@,
            ),
        },
{
    match role.to_permissions() {
        Some(permissions) => Ok(UpdatePermissionsRequest { permissions }),
        None => {
            let mut message: String = owned("cannot set ");
            message.append(what);
            message.append(" to the inherited role");
            Err(ProtonError::InvalidOperation(message))
        },
    }
}

/// An invitation addressed to us. Its item's name may not have been readable.
pub fn incoming_invitation(detail: InvitationDetailsResponse, node_name: Option<String>) -> (r:
    IncomingInvitation)
    ensures
        r.invitation_id == detail.invitation.invitation_id,
        r.inviter_email == detail.invitation.inviter_email,
        r.invitee_email == detail.invitation.invitee_email,
        r.role == MemberRole::shown_for(detail.invitation.permissions),
        r.invitation_time == detail.invitation.create_time,
        r.node_uid@ == (detail.share.volume_id@, detail.link.link_id@),
        r.node_name == node_name,
        r.is_folder == (detail.link.link_type == 1),
{
    let node_uid: NodeUid = NodeUid::new(
        VolumeId::new(detail.share.volume_id.as_str()),
        LinkId::new(detail.link.link_id.as_str()),
    );
    IncomingInvitation {
        invitation_id: detail.invitation.invitation_id,
        inviter_email: detail.invitation.inviter_email,
        invitee_email: detail.invitation.invitee_email,
        role: MemberRole::from_permissions(detail.invitation.permissions),
        invitation_time: detail.invitation.create_time,
        node_uid,
        node_name,
        is_folder: detail.link.link_type == 1,
    }
}

// ---------------------------------------------------------------------------
// Public links
// ---------------------------------------------------------------------------

/// The permissions of a public link. It can let its visitors read or write, no more.
pub fn link_permissions(role: MemberRole) -> (r: Result<i32, ProtonError>)
    ensures
        match role {
            MemberRole::Viewer | MemberRole::Editor => r == Ok::<i32, ProtonError>(role.mask()->0),
            _ => r is Err && invalid(
                r->Err_0,
                "a public link can only grant the Viewer or Editor role"@,
            ),
        },
{
    match role {
        MemberRole::Viewer => Ok(VIEWER_PERMISSIONS),
        MemberRole::Editor => Ok(EDITOR_PERMISSIONS),
        _ => Err(
            ProtonError::invalid_operation(
                "a public link can only grant the Viewer or Editor role",
            ),
        ),
    }
}

/// What protects a public link, as the server stores it.
#[derive(Debug, PartialEq, Eq)]
pub struct LinkProtection {
    /// The salt of the passphrase that wraps the share key.
    pub key_salt: Vec<u8>,
    /// The share key, wrapped with that passphrase.
    pub key_packet: Vec<u8>,
    /// The full password, encrypted to the owner.
    pub armored_password: String,
    pub url_password_salt: String,
    pub srp_verifier: String,
    pub srp_modulus_id: String,
}

/// The request that creates a public link. It can be opened any number of times.
pub fn public_link_request(
    creator_email: String,
    permissions: i32,
    custom_password: Option<&str>,
    expiration_time: Option<i64>,
    protection: LinkProtection,
) -> (r: CreatePublicLinkRequest)
    requires
        encodable(protection.key_salt@),
        encodable(protection.key_packet@),
    ensures
        r.creator_email == creator_email,
        r.permissions == permissions,
        r.flags == (if is_custom(custom_password) {
            3int
        } else {
            2
        }),
        r.expiration_time == expiration_time,
        r.share_password_salt@ == base64_text(protection.key_salt@),
        r.share_passphrase_key_packet@ == base64_text(protection.key_packet@),
        r.password == protection.armored_password,
        r.url_password_salt == protection.url_password_salt,
        r.srp_verifier == protection.srp_verifier,
        r.srp_modulus_id == protection.srp_modulus_id,
        r.max_accesses == 0,
{
    CreatePublicLinkRequest {
        creator_email,
        permissions,
        flags: link_flags(custom_password),
        expiration_time,
        share_password_salt: base64_encode(protection.key_salt.as_slice()),
        share_passphrase_key_packet: base64_encode(protection.key_packet.as_slice()),
        password: protection.armored_password,
        url_password_salt: protection.url_password_salt,
        srp_verifier: protection.srp_verifier,
        srp_modulus_id: protection.srp_modulus_id,
        max_accesses: 0,
    }
}

/// The public link that was created. Its address carries the made-up password.
pub fn created_link(
    share_id: ShareId,
    created: ShareUrlDto,
    generated: &str,
    role: MemberRole,
    flags: i32,
    expiration_time: Option<i64>,
    now: i64,
) -> (r: PublicLink)
    ensures
        r.share_id == share_id,
        r.public_link_id == created.share_url_id,
        r.url is Some,
        r.url->0@ == created.public_url@ + "#"@ + generated@,
        r.role == role,
        r.creation_time == now,
        r.expiration_time == expiration_time,
        r.has_custom_password == (flags == 3),
{
    let url: String = public_link_url(created.public_url.as_str(), generated);
    PublicLink {
        share_id,
        public_link_id: created.share_url_id,
        url: Some(url),
        role,
        creation_time: now,
        expiration_time,
        has_custom_password: flags == 3,
    }
}

/// Whether the address of a link can be put together again, from where it is and
/// its encrypted password.
pub fn recoverable_password(dto: &ShareUrlDto) -> (r: Option<&String>)
    ensures
        match r {
            Some(password) => dto.public_url@.len() > 0 && dto.password == Some(*password),
            None => dto.public_url@.len() == 0 || dto.password is None,
        },
{
    if dto.public_url.as_str().unicode_len() == 0 {
        return None;
    }
    match &dto.password {
        Some(password) => Some(password),
        None => None,
    }
}

/// The address of a link, given its decrypted full password: the generated part of
/// that goes into the address.
pub fn recovered_url(public_url: &str, full_password: &str) -> (url: String)
    ensures
        url@ == public_url@ + "#"@ + (if full_password@.len() < PUBLIC_LINK_PASSWORD_LEN {
            full_password@
        } else {
            full_password@.take(PUBLIC_LINK_PASSWORD_LEN as int)
        }),
{
    let part: String = generated_part(full_password);
    public_link_url(public_url, part.as_str())
}

/// The text that bytes stand for, with what is no UTF-8 replaced.
pub uninterp spec fn lossy_text(bytes: Seq<u8>) -> Seq<char>;

/// `String::from_utf8_lossy` of the standard library. Bytes that are the UTF-8 of a
/// text give that text.
#[verifier::external_body]
pub(crate) fn from_utf8_lossy(bytes: &[u8]) -> (text: String)
    ensures
        text@ == lossy_text(bytes@),
        forall|s: Seq<char>| #[trigger] vstd::utf8::encode_utf8(s) == bytes@ ==> text@ == s,
{
    String::from_utf8_lossy(bytes).into_owned()
}

/// The address of a link, given the bytes of its decrypted full password.
pub fn recover_public_link_url(dto: &ShareUrlDto, decrypted: &[u8]) -> (url: Option<String>)
    ensures
        match url {
            Some(url) => dto.public_url@.len() > 0 && dto.password is Some && url@
                == dto.public_url@ + "#"@ + (if lossy_text(decrypted@).len()
                < PUBLIC_LINK_PASSWORD_LEN {
                lossy_text(decrypted@)
            } else {
                lossy_text(decrypted@).take(PUBLIC_LINK_PASSWORD_LEN as int)
            }),
            None => dto.public_url@.len() == 0 || dto.password is None,
        },
{
    match recoverable_password(dto) {
        Some(_) => {
            let full: String = from_utf8_lossy(decrypted);
            Some(recovered_url(dto.public_url.as_str(), full.as_str()))
        },
        None => None,
    }
}

/// The public link of a share: the first one listed, with its address where that
/// could be put together again.
pub fn listed_link(share_id: ShareId, dto: ShareUrlDto, url: Option<String>) -> (r: PublicLink)
    ensures
        r == (PublicLink {
            share_id,
            public_link_id: dto.share_url_id,
            url,
            role: MemberRole::shown_for(dto.permissions),
            creation_time: dto.create_time,
            expiration_time: dto.expiration_time,
            has_custom_password: dto.flags == 3,
        }),
{
    PublicLink {
        share_id,
        public_link_id: dto.share_url_id,
        url,
        role: MemberRole::from_permissions(dto.permissions),
        creation_time: dto.create_time,
        expiration_time: dto.expiration_time,
        has_custom_password: dto.flags == 3,
    }
}

// ---------------------------------------------------------------------------
// Bookmarks
// ---------------------------------------------------------------------------

/// Whether a bookmark is the saved link, with this password in its address.
pub open spec fn is_bookmark(r: Bookmark, dto: BookmarkDto, password: Seq<char>) -> bool {
    &&& r.url@ == "https://drive.proton.me/urls/"@ + dto.token.token@ + "#"@ + password
    &&& r.token == dto.token.token
    &&& r.node_name is None
    &&& r.is_folder == (dto.token.link_type == 1)
    &&& r.creation_time == dto.create_time
}

/// A saved link, given its decrypted password.
pub fn bookmark(dto: BookmarkDto, url_password: &str) -> (r: Bookmark)
    ensures
        is_bookmark(r, dto, url_password@),
{
    let url: String = drive_link_url(dto.token.token.as_str(), url_password);
    Bookmark {
        url,
        token: dto.token.token,
        node_name: None,
        is_folder: dto.token.link_type == 1,
        creation_time: dto.create_time,
    }
}

/// A saved link, given the bytes of its decrypted password.
pub fn bookmark_from_dto(dto: BookmarkDto, decrypted: &[u8]) -> (r: Bookmark)
    ensures
        is_bookmark(r, dto, lossy_text(decrypted@)),
{
    let url_password: String = from_utf8_lossy(decrypted);
    bookmark(dto, url_password.as_str())
}

/// The saved links whose password could be decrypted, each with its bytes.
pub open spec fn readable(entries: Seq<(BookmarkDto, Option<Vec<u8>>)>) -> Seq<
    (BookmarkDto, Vec<u8>),
>
    decreases entries.len(),
{
    if entries.len() == 0 {
        Seq::empty()
    } else {
        let before = readable(entries.drop_last());
        match entries.last().1 {
            Some(decrypted) => before.push((entries.last().0, decrypted)),
            None => before,
        }
    }
}

/// The saved links, in order. One whose password could not be decrypted is passed
/// over.
pub fn bookmarks(entries: Vec<(BookmarkDto, Option<Vec<u8>>)>) -> (r: Vec<Bookmark>)
    ensures
        r@.len() == readable(entries@).len(),
        forall|i: int|
            0 <= i < r@.len() ==> is_bookmark(
                #[trigger] r@[i],
                readable(entries@)[i].0,
                lossy_text(readable(entries@)[i].1@),
            ),
{
    let mut rest: Vec<(BookmarkDto, Option<Vec<u8>>)> = entries;
    let ghost all = rest@;
    let ghost mut taken: int = 0;
    let mut out: Vec<Bookmark> = Vec::new();
    assert(all.take(0) =~= Seq::<(BookmarkDto, Option<Vec<u8>>)>::empty());
    while rest.len() > 0
        invariant
            0 <= taken <= all.len(),
            rest@ == all.skip(taken),
            out@.len() == readable(all.take(taken)).len(),
            forall|i: int|
                0 <= i < out@.len() ==> is_bookmark(
                    #[trigger] out@[i],
                    readable(all.take(taken))[i].0,
                    lossy_text(readable(all.take(taken))[i].1@),
                ),
        decreases rest@.len(),
    {
        let (dto, decrypted) = rest.remove(0);
        proof {
            assert((dto, decrypted) == all[taken]);
            assert(all.take(taken + 1).drop_last() =~= all.take(taken));
        }
        match decrypted {
            Some(bytes) => out.push(bookmark_from_dto(dto, bytes.as_slice())),
            None => {},
        }
        proof {
            taken = taken + 1;
            assert(rest@ =~= all.skip(taken));
        }
    }
    assert(all.take(taken) =~= all);
    out
}

/// What is encrypted when a link is saved: the password in its address and the
/// custom one, if there is one.
pub fn bookmark_secret(url_password: &str, custom_password: Option<&str>) -> (r: String)
    ensures
        r@ == (match custom_password {
            Some(custom) => url_password@ + custom@,
            None => url_password@,
        }),
{
    match custom_password {
        Some(custom) => joined(url_password, custom),
        None => owned(url_password),
    }
}

/// The request that saves a link. The secret is encrypted to the account's own
/// address key, which the ids name.
pub fn bookmark_request(
    encrypted_url_password: String,
    address_id: String,
    address_key_id: String,
) -> (r: CreateBookmarkRequest)
    ensures
        r.bookmark_share_url.encrypted_url_password == encrypted_url_password,
        r.bookmark_share_url.address_id == address_id,
        r.bookmark_share_url.address_key_id == address_key_id,
{
    CreateBookmarkRequest {
        bookmark_share_url: BookmarkShareUrlDto {
            encrypted_url_password,
            address_id,
            address_key_id,
        },
    }
}

/// The route of a saved link.
pub fn bookmark_path(token: &str) -> (path: String)
    ensures
        path@ == "v2/urls/"@ + token@ + "/bookmark"@,
{
    let mut path: String = owned("v2/urls/");
    path.append(token);
    path.append("/bookmark");
    path
}

// ---------------------------------------------------------------------------
// Routes
// ---------------------------------------------------------------------------

/// The start of the routes of a share.
pub open spec fn share_route(share_id: ShareId) -> Seq<char> {
    "v2/shares/"@ + share_id@
}

/// The route of something of a share: its members, invitations or external
/// invitations, or one of them.
pub fn share_part_path(share_id: &ShareId, part: &str, id: Option<&str>) -> (path: String)
    ensures
        path@ == (match id {
            Some(id) => share_route(*share_id) + "/"@ + part@ + "/"@ + id@,
            None => share_route(*share_id) + "/"@ + part@,
        }),
{
    let mut path: String = owned("v2/shares/");
    path.append(share_id.as_str());
    path.append("/");
    path.append(part);
    match id {
        Some(id) => {
            path.append("/");
            path.append(id);
        },
        None => {},
    }
    path
}

/// The route of the public links of a share, or of one of them.
pub fn share_urls_path(share_id: &ShareId, id: Option<&str>) -> (path: String)
    ensures
        path@ == (match id {
            Some(id) => "shares/"@ + share_id@ + "/urls"@ + "/"@ + id@,
            None => "shares/"@ + share_id@ + "/urls"@,
        }),
{
    let mut path: String = owned("shares/");
    path.append(share_id.as_str());
    path.append("/urls");
    match id {
        Some(id) => {
            path.append("/");
            path.append(id);
        },
        None => {},
    }
    path
}

/// The route of an invitation addressed to us, or of what is done with it.
pub fn invitation_path(invitation_id: &str, action: Option<&str>) -> (path: String)
    ensures
        path@ == (match action {
            Some(action) => "v2/shares/invitations/"@ + invitation_id@ + "/"@ + action@,
            None => "v2/shares/invitations/"@ + invitation_id@,
        }),
{
    let mut path: String = owned("v2/shares/invitations/");
    path.append(invitation_id);
    match action {
        Some(action) => {
            path.append("/");
            path.append(action);
        },
        None => {},
    }
    path
}

/// Members and invitations are what the server says of them.
pub proof fn law_members_are_what_the_server_says(
    share_id: ShareId,
    member: ShareMemberDto,
    invitation: ShareInvitationDto,
    external: ExternalInvitationResponseDto,
)
    ensures
        member_of(share_id, member).share_id == share_id,
        member_of(share_id, member).membership_id == member.member_id,
        member_of(share_id, member).email == member.email,
        member_of(share_id, member).added_by_email == member.inviter_email,
        member_of(share_id, member).invitation_time == member.create_time,
        member_of(share_id, member).role == MemberRole::shown_for(member.permissions),
        invitation_of(share_id, invitation).share_id == share_id,
        invitation_of(share_id, invitation).invitation_id == invitation.invitation_id,
        invitation_of(share_id, invitation).invitee_email == invitation.invitee_email,
        invitation_of(share_id, invitation).inviter_email == invitation.inviter_email,
        invitation_of(share_id, invitation).invitation_time == invitation.create_time,
        invitation_of(share_id, invitation).role == MemberRole::shown_for(invitation.permissions),
        external_invitation_of(share_id, external).share_id == share_id,
        external_invitation_of(share_id, external).invitation_id == external.external_invitation_id,
        external_invitation_of(share_id, external).invitee_email == external.invitee_email,
        external_invitation_of(share_id, external).inviter_email == external.inviter_email,
        external_invitation_of(share_id, external).invitation_time == external.create_time,
        external_invitation_of(share_id, external).role == MemberRole::shown_for(
            external.permissions,
        ),
        external_invitation_of(share_id, external).state == ExternalInvitationState::Pending
            <==> external.state == 1,
        share_route(share_id) == "v2/shares/"@ + share_id@,
{
}

/// Somebody is known already just when they are invited, from outside or not, or are a
/// member.
pub proof fn law_known_are_invited_or_members(
    external: Seq<ExternalInvitation>,
    invitations: Seq<ShareInvitation>,
    members: Seq<ShareMember>,
    email: Seq<char>,
    run: InviteRun,
    invitee: Invitee,
)
    ensures
        known_to(external, invitations, members).contains(email) <==> {
            ||| exists|i: int|
                0 <= i < external.len() && (#[trigger] external[i]).invitee_email@ == email
            ||| exists|i: int|
                0 <= i < invitations.len() && (#[trigger] invitations[i]).invitee_email@ == email
            ||| exists|i: int| 0 <= i < members.len() && (#[trigger] members[i]).email@ == email
        },
        run.knows(invitee) <==> exists|i: int|
            0 <= i < run.already@.len() && (#[trigger] run.already@[i])@ == invitee.folded@,
{
    let known = known_to(external, invitations, members);
    let a = external.len() as int;
    let b = a + invitations.len();
    if known.contains(email) {
        let k = known.index_of(email);
        if k < a {
            assert(external[k].invitee_email@ == email);
        } else if k < b {
            assert(invitations[k - a].invitee_email@ == email);
        } else {
            assert(members[k - b].email@ == email);
        }
    }
    if exists|i: int| 0 <= i < external.len() && (#[trigger] external[i]).invitee_email@ == email {
        let i = choose|i: int|
            0 <= i < external.len() && (#[trigger] external[i]).invitee_email@ == email;
        assert(known[i] == email);
    }
    if exists|i: int|
        0 <= i < invitations.len() && (#[trigger] invitations[i]).invitee_email@ == email {
        let i = choose|i: int|
            0 <= i < invitations.len() && (#[trigger] invitations[i]).invitee_email@ == email;
        assert(known[a + i] == email);
    }
    if exists|i: int| 0 <= i < members.len() && (#[trigger] members[i]).email@ == email {
        let i = choose|i: int| 0 <= i < members.len() && (#[trigger] members[i]).email@ == email;
        assert(known[b + i] == email);
    }
    let already = texts(run.already@);
    if run.knows(invitee) {
        let i = already.index_of(invitee.folded@);
        assert(run.already@[i]@ == invitee.folded@);
    }
    if exists|i: int|
        0 <= i < run.already@.len() && (#[trigger] run.already@[i])@ == invitee.folded@ {
        let i = choose|i: int|
            0 <= i < run.already@.len() && (#[trigger] run.already@[i])@ == invitee.folded@;
        assert(already[i] == invitee.folded@);
    }
}

/// Invitees are split by whether they have an account, each part in order.
pub proof fn law_invitees_keep_their_order(
    invitees: Seq<(String, MemberRole)>,
    has_account: Seq<bool>,
    wanted: bool,
)
    requires
        has_account.len() >= invitees.len(),
    ensures
        invitees_with(invitees, has_account, wanted) == Seq::new(
            invitees.len(),
            |i: int| (invitees[i], has_account[i]),
        ).filter(|entry: ((String, MemberRole), bool)| entry.1 == wanted).map_values(
            |entry: ((String, MemberRole), bool)| entry.0,
        ),
    decreases invitees.len(),
{
    reveal(Seq::filter);
    let kept = |entry: ((String, MemberRole), bool)| entry.1 == wanted;
    let who = |entry: ((String, MemberRole), bool)| entry.0;
    let all = Seq::new(invitees.len(), |i: int| (invitees[i], has_account[i]));
    if invitees.len() > 0 {
        let fewer = invitees.drop_last();
        law_invitees_keep_their_order(fewer, has_account, wanted);
        let before = Seq::new(fewer.len(), |i: int| (fewer[i], has_account[i]));
        assert(all.drop_last() =~= before);
        assert(all.filter(kept).map_values(who) =~= if kept(all.last()) {
            before.filter(kept).map_values(who).push(who(all.last()))
        } else {
            before.filter(kept).map_values(who)
        });
    } else {
        assert(all.filter(kept).map_values(who) =~= Seq::<(String, MemberRole)>::empty());
    }
}

/// A bookmark leads to the link it was made of, and those that cannot be read are passed
/// over.
pub proof fn law_bookmarks_lead_to_their_link(
    bookmark: Bookmark,
    dto: BookmarkDto,
    password: Seq<char>,
    entries: Seq<(BookmarkDto, Option<Vec<u8>>)>,
)
    ensures
        is_bookmark(bookmark, dto, password) ==> {
            &&& bookmark.url@ == "https://drive.proton.me/urls/"@ + dto.token.token@ + "#"@
                + password
            &&& bookmark.token == dto.token.token
            &&& bookmark.node_name is None
            &&& bookmark.is_folder <==> dto.token.link_type == 1
            &&& bookmark.creation_time == dto.create_time
        },
        readable(entries) == entries.filter(
            |entry: (BookmarkDto, Option<Vec<u8>>)| entry.1 is Some,
        ).map_values(|entry: (BookmarkDto, Option<Vec<u8>>)| (entry.0, entry.1->0)),
    decreases entries.len(),
{
    reveal(Seq::filter);
    let kept = |entry: (BookmarkDto, Option<Vec<u8>>)| entry.1 is Some;
    let read = |entry: (BookmarkDto, Option<Vec<u8>>)| (entry.0, entry.1->0);
    if entries.len() > 0 {
        let fewer = entries.drop_last();
        law_bookmarks_lead_to_their_link(bookmark, dto, password, fewer);
        assert(entries.filter(kept).map_values(read) =~= if kept(entries.last()) {
            fewer.filter(kept).map_values(read).push(read(entries.last()))
        } else {
            fewer.filter(kept).map_values(read)
        });
    } else {
        assert(entries.filter(kept).map_values(read) =~= Seq::<(BookmarkDto, Vec<u8>)>::empty());
    }
}

/// Details are found by the id of their link, and the first ones count.
pub proof fn law_details_are_found_by_their_link(
    details: Seq<LinkDetailsDto>,
    id: Seq<char>,
    i: int,
)
    ensures
        first_detail(details, id, i) <==> 0 <= i < details.len() && details[i].link.id@ == id && (
        forall|j: int| 0 <= j < i ==> (#[trigger] details[j]).link.id@ != id),
        no_detail(details, id) <==> forall|j: int|
            0 <= j < details.len() ==> (#[trigger] details[j]).link.id@ != id,
{
}

} // verus!
