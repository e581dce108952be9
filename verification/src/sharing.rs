//! Sharing: roles, members, invitations, public links and bookmarks.

use vstd::prelude::*;

use crate::ids::{NodeUid, ShareId};

verus! {

/// What somebody may do with a shared item. On the wire a role is a mask of
/// permissions.
#[derive(Debug, Clone, Copy, PartialEq, Eq, Structural)]
pub enum MemberRole {
    /// May read.
    Viewer,
    /// May read and write.
    Editor,
    /// May read, write and administer.
    Admin,
    /// Has no permissions of its own; what it may do is inherited. It is only ever
    /// read, never sent.
    Inherited,
}

/// The mask of a viewer: read.
pub const VIEWER_PERMISSIONS: i32 = 4;

/// The mask of an editor: read and write.
pub const EDITOR_PERMISSIONS: i32 = 6;

/// The mask of an administrator: read, write and administer.
pub const ADMIN_PERMISSIONS: i32 = 22;

impl MemberRole {
    /// The mask that is sent for the role.
    pub open spec fn mask(self) -> Option<i32> {
        match self {
            MemberRole::Viewer => Some(VIEWER_PERMISSIONS),
            MemberRole::Editor => Some(EDITOR_PERMISSIONS),
            MemberRole::Admin => Some(ADMIN_PERMISSIONS),
            MemberRole::Inherited => None,
        }
    }

    /// The role that has exactly this mask, if any has.
    pub open spec fn with_mask(mask: Option<i32>) -> Option<MemberRole> {
        if mask is None {
            Some(MemberRole::Inherited)
        } else if mask == Some(VIEWER_PERMISSIONS) {
            Some(MemberRole::Viewer)
        } else if mask == Some(EDITOR_PERMISSIONS) {
            Some(MemberRole::Editor)
        } else if mask == Some(ADMIN_PERMISSIONS) {
            Some(MemberRole::Admin)
        } else {
            None
        }
    }

    /// The role shown for a mask: its own role, or a viewer where no role has it.
    pub open spec fn shown_for(mask: Option<i32>) -> MemberRole {
        match MemberRole::with_mask(mask) {
            Some(role) => role,
            None => MemberRole::Viewer,
        }
    }

    /// The mask to send for the role; `None` for an inherited one.
    pub fn to_permissions(self) -> (r: Option<i32>)
        ensures
            r == self.mask(),
    {
        match self {
            MemberRole::Viewer => Some(VIEWER_PERMISSIONS),
            MemberRole::Editor => Some(EDITOR_PERMISSIONS),
            MemberRole::Admin => Some(ADMIN_PERMISSIONS),
            MemberRole::Inherited => None,
        }
    }

    /// The role shown for a mask. An unknown mask counts as a viewer.
    pub fn from_permissions(permissions: Option<i32>) -> (r: MemberRole)
        ensures
            r == MemberRole::shown_for(permissions),
    {
        match MemberRole::from_permissions_exact(permissions) {
            Some(role) => role,
            None => MemberRole::Viewer,
        }
    }

    /// The role of a mask, or `None` where the mask belongs to no role.
    pub fn from_permissions_exact(permissions: Option<i32>) -> (r: Option<MemberRole>)
        ensures
            r == MemberRole::with_mask(permissions),
    {
        match permissions {
            None => Some(MemberRole::Inherited),
            Some(mask) => if mask == VIEWER_PERMISSIONS {
                Some(MemberRole::Viewer)
            } else if mask == EDITOR_PERMISSIONS {
                Some(MemberRole::Editor)
            } else if mask == ADMIN_PERMISSIONS {
                Some(MemberRole::Admin)
            } else {
                None
            },
        }
    }
}

/// A role survives the wire: the mask sent for it reads back as the same role, in
/// both mappings.
pub proof fn law_role_survives_the_wire(role: MemberRole)
    ensures
        MemberRole::with_mask(role.mask()) == Some(role),
        MemberRole::shown_for(role.mask()) == role,
{
}

/// The two readings of a mask differ only where no role has it: there the strict
/// one admits that it does not know and the lenient one shows a viewer.
pub proof fn law_lenient_reading_extends_the_strict_one(mask: Option<i32>)
    ensures
        MemberRole::with_mask(mask) is Some ==> MemberRole::shown_for(mask)
            == MemberRole::with_mask(mask)->0,
        MemberRole::with_mask(mask) is None ==> MemberRole::shown_for(mask) == MemberRole::Viewer,
        MemberRole::with_mask(mask) is None <==> (mask is Some && mask->0 != VIEWER_PERMISSIONS
            && mask->0 != EDITOR_PERMISSIONS && mask->0 != ADMIN_PERMISSIONS),
{
}

/// Each role has its mask, and no mask means that the role is inherited.
pub proof fn law_masks_of_roles(state: int)
    ensures
        MemberRole::Viewer.mask() == Some(4i32),
        MemberRole::Editor.mask() == Some(6i32),
        MemberRole::Admin.mask() == Some(22i32),
        MemberRole::Inherited.mask() is None,
        MemberRole::shown_for(Some(4i32)) == MemberRole::Viewer,
        MemberRole::shown_for(Some(6i32)) == MemberRole::Editor,
        MemberRole::shown_for(Some(22i32)) == MemberRole::Admin,
        MemberRole::shown_for(None) == MemberRole::Inherited,
        forall|mask: i32|
            mask != 6 && mask != 22 ==> #[trigger] MemberRole::shown_for(Some(mask))
                == MemberRole::Viewer,
        forall|mask: i32|
            mask != 4 && mask != 6 && mask != 22 ==> (#[trigger] MemberRole::with_mask(
                Some(mask),
            )) is None,
        ExternalInvitationState::with_wire(state) == ExternalInvitationState::Pending <==> state
            == 1,
{
}

/// Our membership in a share that somebody else owns.
#[derive(Debug, Clone, PartialEq, Eq)]
pub struct ShareMembership {
    pub share_id: ShareId,
    pub membership_id: String,
    /// The mask as the server sent it. Roles are read off it each time.
    pub permissions: i32,
}

impl ShareMembership {
    pub fn role(&self) -> (r: MemberRole)
        ensures
            r == MemberRole::shown_for(Some(self.permissions)),
    {
        MemberRole::from_permissions(Some(self.permissions))
    }

    pub fn role_exact(&self) -> (r: Option<MemberRole>)
        ensures
            r == MemberRole::with_mask(Some(self.permissions)),
    {
        MemberRole::from_permissions_exact(Some(self.permissions))
    }
}

/// An item shared with us, and the share through which it was granted.
#[derive(Debug, Clone, PartialEq, Eq)]
pub struct SharedWithMeItem {
    pub uid: NodeUid,
    pub share_id: ShareId,
}

/// Somebody who accepted an invitation to a share.
#[derive(Debug, Clone, PartialEq, Eq)]
pub struct ShareMember {
    pub share_id: ShareId,
    pub membership_id: String,
    pub email: String,
    pub added_by_email: String,
    pub role: MemberRole,
    /// When the member was invited, in seconds since the epoch.
    pub invitation_time: i64,
}

/// A public link on a node.
#[derive(Debug, Clone, PartialEq, Eq)]
pub struct PublicLink {
    pub share_id: ShareId,
    pub public_link_id: String,
    /// The whole address with its password fragment, where it is known.
    pub url: Option<String>,
    pub role: MemberRole,
    pub creation_time: i64,
    pub expiration_time: Option<i64>,
    /// Whether a password is needed beside the one in the address.
    pub has_custom_password: bool,
}

/// An invitation that has not been accepted yet.
#[derive(Debug, Clone, PartialEq, Eq)]
pub struct ShareInvitation {
    pub share_id: ShareId,
    pub invitation_id: String,
    pub invitee_email: String,
    pub inviter_email: String,
    pub role: MemberRole,
    pub invitation_time: i64,
}

/// How far somebody without an account has come.
#[derive(Debug, Clone, Copy, PartialEq, Eq, Structural)]
pub enum ExternalInvitationState {
    /// No account yet.
    Pending,
    /// An account exists; the invitation can be turned into a membership.
    UserRegistered,
}

impl ExternalInvitationState {
    /// The state with wire value `state`.
    pub open spec fn with_wire(state: int) -> ExternalInvitationState {
        if state == 1 {
            ExternalInvitationState::Pending
        } else {
            ExternalInvitationState::UserRegistered
        }
    }

    pub fn from_raw(state: i32) -> (r: ExternalInvitationState)
        ensures
            r == ExternalInvitationState::with_wire(state as int),
    {
        if state == 1 {
            ExternalInvitationState::Pending
        } else {
            ExternalInvitationState::UserRegistered
        }
    }
}

/// An invitation of somebody without an account.
#[derive(Debug, Clone, PartialEq, Eq)]
pub struct ExternalInvitation {
    pub share_id: ShareId,
    pub invitation_id: String,
    pub invitee_email: String,
    pub inviter_email: String,
    pub role: MemberRole,
    pub invitation_time: i64,
    pub state: ExternalInvitationState,
}

/// An invitation addressed to us.
#[derive(Debug, Clone, PartialEq, Eq)]
pub struct IncomingInvitation {
    pub invitation_id: String,
    pub inviter_email: String,
    pub invitee_email: String,
    pub role: MemberRole,
    pub invitation_time: i64,
    pub node_uid: NodeUid,
    /// The name of the item, where it could be decrypted.
    pub node_name: Option<String>,
    pub is_folder: bool,
}

/// A public link saved to the account.
#[derive(Debug, Clone, PartialEq, Eq)]
pub struct Bookmark {
    pub token: String,
    pub url: String,
    pub node_name: Option<String>,
    pub is_folder: bool,
    pub creation_time: i64,
}

} // verus!
