//! The values that stand for what the server sends.

use std::time::Duration;

use proton_drive_rs::devices::DeviceType;
use proton_drive_rs::dtos::{PublicLinkInfoResponse, ShareMembershipSummaryDto, ShareTargetType};
use proton_drive_rs::event_manager::EventManagerConfig;
use proton_drive_rs::ids::ShareId;
use proton_drive_rs::node::RevisionState;
use proton_drive_rs::node_build::share_membership_from_dto;
use proton_drive_rs::photos::PhotoTag;
use proton_drive_rs::sharing::{MemberRole, ShareMembership};

#[test]
fn device_type_round_trips_through_the_wire_value() {
    for device_type in [DeviceType::Windows, DeviceType::MacOs, DeviceType::Linux] {
        assert_eq!(
            DeviceType::from_raw(device_type.as_i32()).expect("known device type"),
            device_type
        );
    }
    assert!(DeviceType::from_raw(0).is_err());
    assert!(DeviceType::from_raw(4).is_err());
}

#[test]
fn only_drive_share_targets_are_drive_items() {
    for (raw, expected) in [
        (0, false),
        (1, true),
        (2, true),
        (3, false),
        (4, false),
        (5, true),
    ] {
        let kind = ShareTargetType::from_raw(raw).expect("known target type");
        assert_eq!(kind.is_drive_item(), expected, "target type {raw}");
    }
    assert!(ShareTargetType::from_raw(6).is_none());
}

#[test]
fn config_defaults_match_ts_scheduler() {
    let config = EventManagerConfig::default();
    assert_eq!(config.foreground_interval, Duration::from_secs(30).as_nanos());
    assert_eq!(config.background_interval, Duration::from_secs(600).as_nanos());
    assert!(config.channel_capacity > 0);
}

#[test]
fn revision_state_maps_the_wire_value() {
    assert_eq!(RevisionState::from_raw(Some(2)), RevisionState::Superseded);
    assert_eq!(RevisionState::from_raw(Some(1)), RevisionState::Active);
    assert_eq!(RevisionState::from_raw(Some(0)), RevisionState::Active);
    assert_eq!(RevisionState::from_raw(None), RevisionState::Active);
}

#[test]
fn photo_tag_discriminants_match_csharp() {
    assert_eq!(PhotoTag::Favorite.as_i32(), 0);
    assert_eq!(PhotoTag::Video.as_i32(), 2);
    assert_eq!(PhotoTag::Raw.as_i32(), 9);
}

#[test]
fn the_strict_role_mapping_refuses_to_guess_at_an_unknown_mask() {
    for (mask, want) in [
        (None, MemberRole::Inherited),
        (Some(4), MemberRole::Viewer),
        (Some(6), MemberRole::Editor),
        (Some(22), MemberRole::Admin),
    ] {
        assert_eq!(MemberRole::from_permissions_exact(mask), Some(want));
        assert_eq!(MemberRole::from_permissions(mask), want);
    }

    for mask in [0, 2, 8, 16, 30, -1] {
        assert_eq!(MemberRole::from_permissions_exact(Some(mask)), None);
        assert_eq!(MemberRole::from_permissions(Some(mask)), MemberRole::Viewer);
    }
}

#[test]
fn a_membership_decodes_roles_from_its_raw_permissions() {
    let membership = |permissions| ShareMembership {
        share_id: ShareId::new("s1"),
        membership_id: "m1".to_string(),
        permissions,
    };

    let editor = membership(6);
    assert_eq!(editor.role(), MemberRole::Editor);
    assert_eq!(editor.role_exact(), Some(MemberRole::Editor));

    let viewer = membership(4);
    assert_eq!(viewer.role(), MemberRole::Viewer);
    assert_eq!(viewer.role_exact(), Some(MemberRole::Viewer));

    let unknown = membership(38);
    assert_eq!(unknown.role(), MemberRole::Viewer);
    assert_eq!(unknown.role_exact(), None);
    assert_eq!(unknown.permissions, 38);
}

#[test]
fn membership_dto_copies_raw_authority_into_the_public_shape() {
    let dto = ShareMembershipSummaryDto {
        share_id: ShareId::new("share-1"),
        membership_id: "membership-1".to_string(),
        permissions: 38,
    };

    let membership = share_membership_from_dto(&dto);
    assert_eq!(membership.share_id, dto.share_id);
    assert_eq!(membership.membership_id, dto.membership_id);
    assert_eq!(membership.permissions, 38);
    assert_eq!(membership.role(), MemberRole::Viewer);
    assert_eq!(membership.role_exact(), None);
}

fn info(flags: i32) -> PublicLinkInfoResponse {
    PublicLinkInfoResponse {
        version: 4,
        modulus: String::new(),
        server_ephemeral: String::new(),
        url_password_salt: String::new(),
        srp_session: String::new(),
        flags,
        vendor_type: 0,
    }
}

#[test]
fn link_flags_classify_custom_password_and_legacy_links() {
    assert!(info(0).is_legacy());
    assert!(info(1).is_legacy());
    assert!(!info(2).is_legacy());
    assert!(!info(3).is_legacy());

    assert!(!info(2).is_custom_password_protected());
    assert!(info(3).is_custom_password_protected());
}
