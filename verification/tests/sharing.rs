//! Sharing: members, invitations, public links, visitors, photos and devices.

use proton_drive_rs::addresses::{
    address_primary_key_id, membership_address, named_author, own_address, primary_key, OwnAddress,
};
use proton_drive_rs::cache::NodeCache;
use proton_drive_rs::devices::{
    clear_name_request, created_device, device_creation_request, device_metadata,
    device_metadata_by_uid, device_path, device_rename_request, device_root_name,
    volume_creation_request, DeviceType, RootMaterial,
};
use proton_drive_rs::digest::{name_hash, sha1_hex};
use proton_drive_rs::dtos::{
    ActiveRevisionDto, BookmarkDto, BookmarkTokenDto, DeviceCreationResultDto, DeviceDataDto,
    DeviceListItemDto, DeviceListResponse, DeviceShareDataDto, ExternalInvitationResponseDto,
    FileDto, FindPhotoDuplicatesResponse, IncomingInvitationDto, InvitationDetailsResponse,
    InvitationLinkDto, InvitationShareDto, LinkDetailsDto, LinkDto, LinkSharingDto,
    PhotoDuplicateDto, PhotoTagsRequest, PublicLinkAuthResponse, PublicLinkInfoResponse,
    PublicLinkShareDto, RevisionDto, ShareInvitationDto, ShareMemberDto,
    ShareMembershipSummaryDto, ShareUrlDto,
};
use proton_drive_rs::error::ProtonError;
use proton_drive_rs::ids::{LinkId, NodeUid, ShareId, VolumeId};
use proton_drive_rs::node::NodeKind;
use proton_drive_rs::photo_library::{
    apply_tag_update, duplicates_path, duplicates_request, eq_ignore_ascii_case,
    find_photo_duplicates, matching_photos, PhotoUpdateRun, PhotoUpdateStep, TagStep,
};
use proton_drive_rs::photos::{PhotoTag, PhotoTagsUpdate};
use proton_drive_rs::public_urls::{
    drive_link_url, full_password, generate_key_salt, generate_public_link_password,
    generated_part, link_flags, parse_public_link_url, password_from_bytes, public_link_url,
    random_bytes, KEY_SALT_LEN, PUBLIC_LINK_PASSWORD_LEN,
};
use proton_drive_rs::shares::{
    bookmark_from_dto, bookmark_path, bookmark_request, bookmark_secret, bookmarks,
    create_share_path,
    create_share_request, created_link, external_invitations, incoming_invitation,
    invitation_path, invite_external_request, invite_request, invitee_key, known_emails,
    link_permissions, listed_link, membership_to_leave, node_share_id, node_to_share,
    public_link_request, recover_public_link_url, recoverable_password, role_request,
    share_invitations, share_members, share_part_path, share_path, share_urls_path,
    split_invitees, InviteRun, InviteStep, LinkProtection,
};
use proton_drive_rs::sharing::{ExternalInvitationState, MemberRole};
use proton_drive_rs::text::position_of;
use proton_drive_rs::time::{epoch_of_reading, now_epoch_seconds};
use proton_drive_rs::visitor::{
    auth_request, check_server_proof, handshake_input, handshake_path, inflight_blocks,
    locked_with, share_password_salt, visited_link, visited_node, visitor_attributes,
    visitor_content_key, visitor_revision, visitor_session, LockedWith, PublicLinkInfo,
    VisitorStep, VisitorWalk, NODE_KEY_CACHE_CAPACITY,
};

fn message(error: ProtonError) -> String {
    match error {
        ProtonError::InvalidOperation(message) => message,
        other => panic!("expected an invalid operation, got {other:?}"),
    }
}

fn uid(link: &str) -> NodeUid {
    NodeUid::new(VolumeId::new("vol"), LinkId::new(link))
}

fn link(id: &str, parent: Option<&str>) -> LinkDto {
    LinkDto {
        id: LinkId::new(id),
        link_type: 1,
        parent_id: parent.map(LinkId::new),
        state: 1,
        creation_time: 1,
        modification_time: 2,
        trash_time: None,
        name: format!("name of {id}"),
        name_hash: None,
        key: String::new(),
        passphrase: String::new(),
        passphrase_signature: None,
        signature_email: Some("owner@example.org".to_string()),
        name_signature_email: Some("namer@example.org".to_string()),
    }
}

fn details(id: &str, parent: Option<&str>) -> LinkDetailsDto {
    LinkDetailsDto {
        link: link(id, parent),
        folder: None,
        file: None,
        photo: None,
        sharing: None,
        membership: None,
        album: None,
    }
}

#[test]
fn parses_token_and_password_from_a_share_url() {
    let (token, password) =
        parse_public_link_url("https://drive.proton.me/urls/ABC123#s3cr3t").unwrap();
    assert_eq!(token, "ABC123");
    assert_eq!(password, "s3cr3t");
}

#[test]
fn tolerates_a_trailing_slash_before_the_fragment() {
    let (token, password) =
        parse_public_link_url("https://drive.proton.me/urls/ABC123/#s3cr3t").unwrap();
    assert_eq!(token, "ABC123");
    assert_eq!(password, "s3cr3t");
}

#[test]
fn rejects_urls_without_a_usable_secret() {
    // No fragment at all: the URL carries no password to open anything with.
    assert!(parse_public_link_url("https://drive.proton.me/urls/ABC123").is_err());
    // Empty fragment, empty token.
    assert!(parse_public_link_url("https://drive.proton.me/urls/ABC123#").is_err());
    assert!(parse_public_link_url("https://drive.proton.me/urls/#s3cr3t").is_err());
}

#[test]
fn an_address_is_split_at_its_first_hash_and_last_container() {
    for refused in [
        "https://drive.proton.me/urls/A/B#secret",
        "https://drive.proton.me/link/A#secret",
        "#secret",
        "",
    ] {
        assert_eq!(
            message(parse_public_link_url(refused).expect_err(refused)),
            "invalid public link url"
        );
    }
    assert_eq!(
        parse_public_link_url("x/urls/y/urls/T//#a#b"),
        Ok(("T".to_string(), "a#b".to_string()))
    );
    let url = drive_link_url("TOKEN", "secret");
    assert_eq!(url, "https://drive.proton.me/urls/TOKEN#secret");
    assert_eq!(
        parse_public_link_url(&url),
        Ok(("TOKEN".to_string(), "secret".to_string()))
    );
    assert_eq!(public_link_url("https://x", "s"), "https://x#s");
}

#[test]
fn generated_passwords_are_letters_and_digits() {
    assert_eq!(
        password_from_bytes(&vec![0, 25, 26, 51, 52, 61, 62, 255]),
        "AZaz09AH"
    );
    let password = generate_public_link_password().expect("system RNG");
    assert_eq!(password.chars().count(), PUBLIC_LINK_PASSWORD_LEN);
    assert!(password.chars().all(|c| c.is_ascii_alphanumeric()));
    assert_ne!(
        generate_public_link_password().expect("system RNG"),
        password
    );
    let salt = generate_key_salt().expect("system RNG");
    assert_eq!(salt.len(), KEY_SALT_LEN);
    assert_ne!(salt, vec![0; KEY_SALT_LEN]);
    assert_eq!(random_bytes(3).expect("system RNG").len(), 3);
    assert_eq!(random_bytes(0), Some(Vec::new()));
}

#[test]
fn a_custom_password_follows_the_generated_one() {
    assert_eq!(full_password("GENERATED123", None), "GENERATED123");
    assert_eq!(full_password("GENERATED123", Some("")), "GENERATED123");
    let full = full_password("GENERATED123", Some("mine"));
    assert_eq!(full, "GENERATED123mine");
    assert_eq!(generated_part(&full), "GENERATED123");
    assert_eq!(generated_part("short"), "short");
    assert_eq!(link_flags(None), 2);
    assert_eq!(link_flags(Some("")), 2);
    assert_eq!(link_flags(Some("mine")), 3);
}

#[test]
fn digests_are_written_in_hex() {
    assert_eq!(sha1_hex(b"abc"), "a9993e364706816aba3e25717850c26c9cd0d89d");
    assert_eq!(
        name_hash(b"key", b"report.txt"),
        "f54ce8d61676da97d8ff34c7a9e6eb21498dd8696755ca0460075682d2e08489"
    );
}

#[test]
fn the_clock_counts_from_the_epoch() {
    assert_eq!(epoch_of_reading(Some(77)), 77);
    assert_eq!(epoch_of_reading(None), 0);
    assert!(now_epoch_seconds() > 1_600_000_000);
}

fn address(id: &str, email: &str) -> OwnAddress {
    OwnAddress {
        id: id.to_string(),
        email: email.to_string(),
        primary_key_index: 1,
        primary_key_id: format!("key of {id}"),
    }
}

#[test]
fn own_addresses_are_found_whatever_their_case() {
    let addresses = vec![address("1", "One@Example.org"), address("2", "Ärger@example.org")];
    assert_eq!(own_address(&addresses, "oNE@example.ORG").expect("1").id, "1");
    assert_eq!(own_address(&addresses, "ärger@EXAMPLE.org").expect("2").id, "2");
    assert_eq!(
        message(own_address(&addresses, "Else@example.org").expect_err("not ours")),
        "no own address for Else@example.org"
    );
    assert_eq!(membership_address(&addresses, "2").expect("2").id, "2");
    assert_eq!(
        message(membership_address(&addresses, "3").expect_err("unknown")),
        "membership address not found"
    );
    assert_eq!(
        address_primary_key_id(&addresses, "1"),
        Ok("key of 1".to_string())
    );
    let keys = vec!["a".to_string(), "b".to_string()];
    assert_eq!(
        primary_key(&addresses[0], &keys, "address"),
        Ok("b".to_string())
    );
    assert_eq!(
        message(primary_key(&addresses[0], &Vec::new(), "membership address").expect_err("none")),
        "membership address has no primary key"
    );
    assert_eq!(position_of(&keys, "b"), Some(1));
    assert_eq!(position_of(&keys, "B"), None);

    assert_eq!(named_author(Some("me@example.org")), Some("me@example.org"));
    assert_eq!(named_author(Some("")), None);
    assert_eq!(named_author(None), None);
}

fn invitation(email: &str) -> ShareInvitationDto {
    ShareInvitationDto {
        invitation_id: "i".to_string(),
        inviter_email: "me@example.org".to_string(),
        invitee_email: email.to_string(),
        permissions: Some(6),
        create_time: 5,
    }
}

fn member(email: &str) -> ShareMemberDto {
    ShareMemberDto {
        member_id: "m".to_string(),
        inviter_email: "me@example.org".to_string(),
        email: email.to_string(),
        permissions: Some(22),
        create_time: 6,
    }
}

fn external(email: &str, state: i32) -> ExternalInvitationResponseDto {
    ExternalInvitationResponseDto {
        external_invitation_id: "e".to_string(),
        inviter_email: "me@example.org".to_string(),
        invitee_email: email.to_string(),
        permissions: None,
        create_time: 7,
        state,
    }
}

#[test]
fn those_who_have_access_are_not_invited_again() {
    let share = ShareId::new("share");
    let invitations = share_invitations(&share, vec![invitation("Invited@example.org")]);
    let members = share_members(&share, vec![member("member@example.org")]);
    let outside = external_invitations(&share, vec![external("out@example.org", 1)]);
    assert_eq!(invitations[0].role, MemberRole::Editor);
    assert_eq!(members[0].role, MemberRole::Admin);
    assert_eq!(members[0].added_by_email, "me@example.org");
    assert_eq!(outside[0].role, MemberRole::Inherited);
    assert_eq!(outside[0].share_id, share);
    assert_eq!(outside[0].state, ExternalInvitationState::Pending);

    let known = known_emails(&outside, &invitations, &members);
    assert_eq!(known.len(), 3);
    let mut run = InviteRun::start(
        &known,
        vec![
            ("invited@EXAMPLE.org".to_string(), MemberRole::Viewer),
            ("New@example.org".to_string(), MemberRole::Viewer),
            ("Member@example.org".to_string(), MemberRole::Viewer),
            ("bad@example.org".to_string(), MemberRole::Inherited),
        ],
    );
    assert_eq!(
        run.next(),
        InviteStep::Invite {
            email: "New@example.org".to_string(),
            permissions: 4,
        }
    );
    match run.next() {
        InviteStep::Fail(error) => assert_eq!(
            message(error),
            "cannot invite a user with the inherited role"
        ),
        other => panic!("expected a refusal, got {other:?}"),
    }
    assert_eq!(run.next(), InviteStep::Done);
}

#[test]
fn invitees_are_split_by_whether_they_have_an_account() {
    let invitees = || {
        vec![
            ("a".to_string(), MemberRole::Viewer),
            ("b".to_string(), MemberRole::Editor),
            ("c".to_string(), MemberRole::Viewer),
        ]
    };
    let (inside, outside) = split_invitees(invitees(), &vec![true, false, true]);
    assert_eq!(inside, vec![invitees()[0].clone(), invitees()[2].clone()]);
    assert_eq!(outside, vec![invitees()[1].clone()]);

    assert_eq!(
        invitee_key(&vec!["first".to_string(), "second".to_string()], "a"),
        Ok("first".to_string())
    );
    assert_eq!(
        message(invitee_key(&Vec::new(), "a@b").expect_err("no key")),
        "no public key for invitee a@b"
    );
    let request = invite_request(
        "me",
        "you".to_string(),
        4,
        "packet".to_string(),
        "signature".to_string(),
        Some("hello".to_string()),
    );
    assert_eq!(request.invitation.inviter_email, "me");
    assert_eq!(request.email_details.message, Some("hello".to_string()));
    let request = invite_external_request("address", "you".to_string(), 4, "s".to_string(), None);
    assert_eq!(request.external_invitation.inviter_address_id, "address");
    assert_eq!(request.email_details.message, None);
}

#[test]
fn roles_that_cannot_be_set_are_refused() {
    assert_eq!(
        role_request(MemberRole::Editor, "a member")
            .expect("a role")
            .permissions,
        6
    );
    assert_eq!(
        message(role_request(MemberRole::Inherited, "an invitation").expect_err("inherited")),
        "cannot set an invitation to the inherited role"
    );
    assert_eq!(link_permissions(MemberRole::Viewer), Ok(4));
    assert_eq!(link_permissions(MemberRole::Editor), Ok(6));
    for role in [MemberRole::Admin, MemberRole::Inherited] {
        assert_eq!(
            message(link_permissions(role).expect_err("too much")),
            "a public link can only grant the Viewer or Editor role"
        );
    }
}

#[test]
fn the_share_of_a_node_is_found_by_its_own_link() {
    let mut shared = details("a", None);
    shared.sharing = Some(LinkSharingDto {
        share_id: ShareId::new("s"),
        share_url_id: None,
    });
    shared.membership = Some(ShareMembershipSummaryDto {
        share_id: ShareId::new("theirs"),
        membership_id: "m".to_string(),
        permissions: 4,
    });
    let fetched = vec![details("other", None), shared];
    assert_eq!(node_share_id(&fetched, &uid("a")), Some(ShareId::new("s")));
    assert_eq!(node_share_id(&fetched, &uid("other")), None);
    assert_eq!(
        membership_to_leave(&fetched, &uid("a")),
        Ok((ShareId::new("theirs"), "m".to_string()))
    );
    assert_eq!(
        message(membership_to_leave(&fetched, &uid("other")).expect_err("not shared")),
        "you can leave only an item that is shared with you"
    );
    assert!(node_to_share(&fetched, &uid("a")).is_ok());
    assert_eq!(
        message(node_to_share(&fetched, &uid("b")).expect_err("missing")),
        "node not found"
    );
    let request = create_share_request(
        &uid("a"),
        "address".to_string(),
        "key".to_string(),
        "passphrase".to_string(),
        "signature".to_string(),
        "packet".to_string(),
        "name packet".to_string(),
    );
    assert_eq!(request.root_link_id, LinkId::new("a"));
    assert_eq!(request.name, "New Share");

    let share = ShareId::new("s");
    assert_eq!(share_path(&share), "shares/s");
    assert_eq!(create_share_path(&VolumeId::new("vol")), "volumes/vol/shares");
    assert_eq!(share_part_path(&share, "members", None), "v2/shares/s/members");
    assert_eq!(
        share_part_path(&share, "invitations", Some("i")),
        "v2/shares/s/invitations/i"
    );
    assert_eq!(share_urls_path(&share, None), "shares/s/urls");
    assert_eq!(share_urls_path(&share, Some("u")), "shares/s/urls/u");
    assert_eq!(invitation_path("i", None), "v2/shares/invitations/i");
    assert_eq!(
        invitation_path("i", Some("accept")),
        "v2/shares/invitations/i/accept"
    );
    assert_eq!(bookmark_path("t"), "v2/urls/t/bookmark");
}

#[test]
fn an_invitation_shows_what_is_shared() {
    let detail = InvitationDetailsResponse {
        invitation: IncomingInvitationDto {
            invitation_id: "i".to_string(),
            inviter_email: "them".to_string(),
            invitee_email: "me".to_string(),
            key_packet: String::new(),
            key_packet_signature: String::new(),
            permissions: Some(4),
            create_time: 3,
        },
        share: InvitationShareDto {
            share_key: String::new(),
            passphrase: String::new(),
            creator_email: String::new(),
            volume_id: "vol".to_string(),
            share_target_type: 1,
        },
        link: InvitationLinkDto {
            link_id: "a".to_string(),
            link_type: 1,
            mime_type: None,
            name: String::new(),
        },
    };
    let shown = incoming_invitation(detail, Some("name".to_string()));
    assert_eq!(shown.node_uid, uid("a"));
    assert_eq!(shown.role, MemberRole::Viewer);
    assert!(shown.is_folder);
    assert_eq!(shown.node_name, Some("name".to_string()));
}

fn share_url(public_url: &str, password: Option<&str>, flags: i32) -> ShareUrlDto {
    ShareUrlDto {
        share_url_id: "u".to_string(),
        share_id: None,
        public_url: public_url.to_string(),
        password: password.map(str::to_string),
        create_time: 3,
        expiration_time: Some(9),
        permissions: Some(4),
        flags,
        num_accesses: 0,
    }
}

#[test]
fn a_public_link_keeps_its_generated_password_in_its_address() {
    let request = public_link_request(
        "me".to_string(),
        4,
        Some("mine"),
        None,
        LinkProtection {
            key_salt: vec![1, 2, 3],
            key_packet: b"salt".to_vec(),
            armored_password: "armored".to_string(),
            url_password_salt: "url salt".to_string(),
            srp_verifier: "verifier".to_string(),
            srp_modulus_id: "modulus".to_string(),
        },
    );
    assert_eq!(request.flags, 3);
    assert_eq!(request.share_password_salt, "AQID");
    assert_eq!(request.share_passphrase_key_packet, "c2FsdA==");
    assert_eq!(request.max_accesses, 0);

    let created = created_link(
        ShareId::new("s"),
        share_url("https://x", None, 0),
        "GENERATED123",
        MemberRole::Viewer,
        3,
        Some(8),
        7,
    );
    assert_eq!(created.url, Some("https://x#GENERATED123".to_string()));
    assert!(created.has_custom_password);
    assert_eq!((created.creation_time, created.expiration_time), (7, Some(8)));

    let dto = share_url("https://x", Some("stored"), 3);
    assert_eq!(recoverable_password(&dto), Some(&"stored".to_string()));
    assert_eq!(
        recover_public_link_url(&dto, b"GENERATED123mine"),
        Some("https://x#GENERATED123".to_string())
    );
    // What is no text is shown as far as it is.
    assert_eq!(
        recover_public_link_url(&dto, b"AB\xffC"),
        Some("https://x#AB\u{fffd}C".to_string())
    );
    assert_eq!(
        recover_public_link_url(&share_url("", Some("stored"), 2), b"x"),
        None
    );
    assert_eq!(
        recover_public_link_url(&share_url("https://x", None, 2), b"x"),
        None
    );
    let listed = listed_link(ShareId::new("s"), dto, None);
    assert!(listed.has_custom_password);
    assert_eq!(listed.role, MemberRole::Viewer);
    assert_eq!(listed.creation_time, 3);
}

fn saved_link(token: &str, link_type: i32) -> BookmarkDto {
    BookmarkDto {
        token: BookmarkTokenDto {
            token: token.to_string(),
            share_key: String::new(),
            share_passphrase: String::new(),
            share_password_salt: String::new(),
            link_type,
            mime_type: None,
            name: String::new(),
            node_key: String::new(),
            node_passphrase: String::new(),
            content_key_packet: None,
        },
        create_time: 4,
        encrypted_url_password: None,
    }
}

#[test]
fn a_bookmark_opens_the_link() {
    let saved = bookmark_from_dto(saved_link("TOKEN", 2), b"secret");
    assert_eq!(saved.url, "https://drive.proton.me/urls/TOKEN#secret");
    assert_eq!(saved.token, "TOKEN");
    assert!(!saved.is_folder);
    assert_eq!(bookmark_secret("url", None), "url");
    assert_eq!(bookmark_secret("url", Some("custom")), "urlcustom");
    let request = bookmark_request("enc".to_string(), "a".to_string(), "k".to_string());
    assert_eq!(request.bookmark_share_url.address_key_id, "k");
}

#[test]
fn unreadable_bookmarks_are_passed_over() {
    let listed = bookmarks(vec![
        (saved_link("a", 1), Some(b"one".to_vec())),
        (saved_link("b", 1), None),
        (saved_link("c", 2), Some(vec![0xff])),
    ]);
    let urls: Vec<&str> = listed.iter().map(|b| b.url.as_str()).collect();
    assert_eq!(
        urls,
        vec![
            "https://drive.proton.me/urls/a#one",
            "https://drive.proton.me/urls/c#\u{fffd}",
        ]
    );
    assert!(listed[0].is_folder);
}

fn link_info(flags: i32, salt: &str, ephemeral: &str) -> PublicLinkInfoResponse {
    PublicLinkInfoResponse {
        version: 4,
        modulus: String::new(),
        server_ephemeral: ephemeral.to_string(),
        url_password_salt: salt.to_string(),
        srp_session: String::new(),
        flags,
        vendor_type: 1,
    }
}

fn auth(proof: &str, token: Option<&str>, salt: &str) -> PublicLinkAuthResponse {
    PublicLinkAuthResponse {
        server_proof: proof.to_string(),
        uid: "session".to_string(),
        access_token: token.map(str::to_string),
        share: PublicLinkShareDto {
            volume_id: VolumeId::new("vol"),
            link_id: LinkId::new("root"),
            share_password_salt: salt.to_string(),
            share_key: String::new(),
            share_passphrase: String::new(),
            public_permissions: Some(6),
        },
    }
}

#[test]
fn a_visitor_accepts_only_the_right_server() {
    let shown = PublicLinkInfo::from_response(&link_info(3, "", ""));
    assert!(shown.is_custom_password_protected && !shown.is_legacy);
    let input = handshake_input(&link_info(2, "c2FsdA==", "AQID")).expect("readable");
    assert_eq!(input.salt, b"salt".to_vec());
    assert_eq!(input.server_ephemeral, vec![1, 2, 3]);
    let refusal = |info| message(handshake_input(&info).expect_err("refused"));
    assert_eq!(
        refusal(link_info(1, "c2FsdA==", "AQID")),
        "this public link uses a legacy format that is no longer supported"
    );
    assert!(refusal(link_info(2, "?", "AQID")).starts_with("UrlPasswordSalt is not valid base64: "));
    assert!(
        refusal(link_info(2, "AQID", "?")).starts_with("ServerEphemeral is not valid base64: ")
    );
    let request = auth_request(&b"proof".to_vec(), &vec![1, 2, 3], "srp".to_string());
    assert_eq!(request.client_proof, "cHJvb2Y=");
    assert_eq!(request.client_ephemeral, "AQID");

    assert!(check_server_proof(&auth("cHJvb2Y=", None, ""), &b"proof".to_vec()).is_ok());
    assert_eq!(
        message(
            check_server_proof(&auth("cHJvb2Y=", None, ""), &b"prooF".to_vec())
                .expect_err("another server")
        ),
        "public link server proof did not match; refusing the session"
    );
    let session = visitor_session(auth("", Some("token"), "")).expect("a session");
    assert_eq!(session.root_uid, uid("root"));
    assert_eq!(session.public_role, MemberRole::Editor);
    assert_eq!(session.access_token, "token");
    assert_eq!(
        message(visitor_session(auth("", None, "")).expect_err("no token")),
        "public link auth returned no access token"
    );
    assert_eq!(
        share_password_salt(&auth("", None, "AQID")),
        Ok(vec![1, 2, 3])
    );
    assert!(message(share_password_salt(&auth("", None, "?")).expect_err("unreadable"))
        .starts_with("SharePasswordSalt is not valid base64: "));
    assert_eq!(handshake_path("TOKEN", "info"), "drive/urls/TOKEN/info");
    assert_eq!(inflight_blocks(0), 1);
    assert_eq!(inflight_blocks(9), 9);
}

#[test]
fn a_visitor_climbs_to_the_shared_root() {
    let root = uid("root");
    let volume = VolumeId::new("vol");
    assert_eq!(
        locked_with(&root, &volume, &link("root", Some("hidden"))),
        Ok(LockedWith::Share)
    );
    assert_eq!(
        locked_with(&root, &volume, &link("a", Some("b"))),
        Ok(LockedWith::Node(uid("b")))
    );
    assert_eq!(
        message(locked_with(&root, &volume, &link("a", None)).expect_err("outside")),
        "node has no parent and is not the shared root"
    );

    let mut keys = NodeCache::new(NODE_KEY_CACHE_CAPACITY);
    let mut walk = VisitorWalk::start(&root, &uid("a"));
    assert_eq!(walk.next(&mut keys), VisitorStep::Fetch(uid("a")));
    assert_eq!(walk.found(link("a", Some("root"))), Ok(None));
    assert_eq!(walk.next(&mut keys), VisitorStep::Fetch(uid("root")));
    assert_eq!(
        walk.found(link("root", None)).expect("the root").expect("it").id,
        LinkId::new("root")
    );
    walk.reached_root(&"root key".to_string(), &mut keys);
    assert_eq!(walk.to_unlock().expect("a").id, LinkId::new("a"));
    walk.unlocked(&"key a".to_string(), &mut keys);
    assert!(walk.to_unlock().is_none());
    let again = VisitorWalk::start(&root, &uid("a"));
    assert_eq!(
        again.next(&mut keys),
        VisitorStep::Known("key a".to_string())
    );
    let mut outside = VisitorWalk::start(&root, &uid("x"));
    assert!(outside.found(link("x", None)).is_err());
}

fn file(packet: Option<&str>, revision: Option<&str>) -> FileDto {
    FileDto {
        media_type: "text/plain".to_string(),
        total_size_on_storage: 0,
        content_key_packet: packet.map(str::to_string),
        content_key_signature: None,
        active_revision: revision.map(|id| ActiveRevisionDto {
            id: id.to_string(),
            creation_time: 0,
            state: None,
            encrypted_size: 0,
            signature_email: None,
            extended_attributes: Some("active attributes".to_string()),
        }),
    }
}

#[test]
fn a_visitor_reads_the_shared_file() {
    assert_eq!(
        message(visited_link(&uid("a"), Vec::new()).expect_err("missing")),
        "node vol~a was not found"
    );
    let mut detail = details("a", Some("root"));
    detail.link.link_type = 2;
    assert_eq!(
        message(visitor_content_key(&detail).expect_err("no packet")),
        "the file has no content key packet"
    );
    assert_eq!(
        message(visitor_revision(&detail, None).expect_err("none")),
        "the shared file has no active revision"
    );
    detail.file = Some(file(Some("AQID"), Some("rev")));
    assert_eq!(visitor_content_key(&detail), Ok(vec![1, 2, 3]));
    assert_eq!(visitor_revision(&detail, None), Ok("rev".to_string()));
    assert_eq!(visitor_revision(&detail, Some("old")), Ok("old".to_string()));
    let revision = |attributes: Option<&str>| RevisionDto {
        id: "rev".to_string(),
        manifest_signature: None,
        signature_email: None,
        extended_attributes: attributes.map(str::to_string),
        thumbnails: Vec::new(),
        blocks: Vec::new(),
    };
    assert_eq!(
        visitor_attributes(&revision(Some("own")), &detail, "rev"),
        Some("own".to_string())
    );
    assert_eq!(
        visitor_attributes(&revision(None), &detail, "rev"),
        Some("active attributes".to_string())
    );
    assert_eq!(visitor_attributes(&revision(None), &detail, "old"), None);

    let node = visited_node(&VolumeId::new("vol"), &detail, "name".to_string(), None);
    assert!(node.is_shared && node.is_shared_publicly);
    assert_eq!(node.signature_email, Some("namer@example.org".to_string()));
    assert!(matches!(node.kind, NodeKind::File { .. }));
    let found = visited_link(&uid("a"), vec![detail]).expect("there");
    assert_eq!(found.link.id, LinkId::new("a"));
}

fn candidate(name: &str, content: &str, state: Option<i32>, id: Option<&str>) -> PhotoDuplicateDto {
    PhotoDuplicateDto {
        name_hash: name.to_string(),
        content_hash: content.to_string(),
        link_state: state,
        client_uid: None,
        link_id: id.map(LinkId::new),
    }
}

#[test]
fn duplicates_match_in_name_and_content() {
    assert!(eq_ignore_ascii_case("aBc1", "AbC1"));
    assert!(!eq_ignore_ascii_case("abc", "abd"));
    assert!(!eq_ignore_ascii_case("ä", "Ä"));

    let volume = VolumeId::new("vol");
    let found = vec![
        candidate("AA", "bb", Some(1), Some("match")),
        candidate("aa", "bb", Some(2), Some("trashed")),
        candidate("aa", "bb", Some(1), None),
        candidate("aa", "cc", Some(1), Some("other content")),
        candidate("aa", "BB", Some(1), Some("match too")),
    ];
    assert_eq!(
        matching_photos(&volume, &found, "aa", "bb"),
        vec![uid("match"), uid("match too")]
    );

    let name = "33e6a690c2bda4755d86abc4f4c17aea3f1f08e3bd25ecdde5ae3e3435839dc1";
    let content = "aa1bdcce8c04f796abafe7dee41bd1a90a1c3ab75bf7198c41f64449460def70";
    assert_eq!(duplicates_request(b"key", "cat.jpg").name_hashes, vec![name]);
    let response = FindPhotoDuplicatesResponse {
        duplicate_hashes: vec![
            candidate(name, content, Some(1), Some("same")),
            candidate(name, name, Some(1), Some("different")),
        ],
    };
    assert_eq!(
        find_photo_duplicates(&volume, b"key", "cat.jpg", b"pixels", &response),
        vec![uid("same")]
    );
    assert_eq!(duplicates_path(&volume), "volumes/vol/photos/duplicates");
}

fn update(link: &str, add: Vec<PhotoTag>, remove: Vec<PhotoTag>) -> PhotoTagsUpdate {
    PhotoTagsUpdate {
        node_uid: uid(link),
        tags_to_add: add,
        tags_to_remove: remove,
    }
}

fn tags(wires: &[i32]) -> PhotoTagsRequest {
    PhotoTagsRequest {
        tags: wires.to_vec(),
    }
}

const TAGS_OF_P: &str = "photos/volumes/vol/links/p/tags";

#[test]
fn the_favorite_mark_has_its_own_route() {
    let wanted = update(
        "p",
        vec![PhotoTag::Video, PhotoTag::Favorite, PhotoTag::Raw],
        vec![PhotoTag::Favorite],
    );
    let own = VolumeId::new("vol");
    assert_eq!(
        apply_tag_update(&wanted, Some(&own)).expect("own photo"),
        vec![
            TagStep::Favorite("photos/volumes/vol/links/p/favorite".to_string()),
            TagStep::AddTags(TAGS_OF_P.to_string(), tags(&[2, 9])),
            TagStep::RemoveTags(TAGS_OF_P.to_string(), tags(&[0])),
        ]
    );
    for volume in [None, Some(&VolumeId::new("other"))] {
        assert_eq!(
            message(apply_tag_update(&wanted, volume).expect_err("not ours")),
            "favoriting a photo that is not on this account's photos volume is not supported yet"
        );
    }
}

#[test]
fn every_photo_is_reported_in_order() {
    let mut run = PhotoUpdateRun::start(
        vec![
            update("a", vec![PhotoTag::Favorite], Vec::new()),
            update("p", vec![PhotoTag::Video], vec![PhotoTag::Raw]),
            update("c", Vec::new(), Vec::new()),
            update("p", vec![PhotoTag::Video], Vec::new()),
        ],
        None,
    );
    match run.next() {
        PhotoUpdateStep::Report(photo, outcome) => {
            assert_eq!(photo, uid("a"));
            assert!(outcome.is_err());
        }
        other => panic!("expected a report, got {other:?}"),
    }
    let add = || PhotoUpdateStep::Send(TagStep::AddTags(TAGS_OF_P.to_string(), tags(&[2])));
    assert_eq!(run.next(), add());
    // The first request fails: the second is not sent.
    let refused = ProtonError::invalid_operation("refused");
    assert_eq!(
        run.failed(refused.clone()),
        PhotoUpdateStep::Report(uid("p"), Err(refused))
    );
    assert_eq!(run.next(), PhotoUpdateStep::Report(uid("c"), Ok(())));
    assert_eq!(run.next(), add());
    assert_eq!(run.next(), PhotoUpdateStep::Report(uid("p"), Ok(())));
    assert_eq!(run.next(), PhotoUpdateStep::End);
}

fn listed_device(id: &str, kind: i32, name: Option<&str>) -> DeviceListItemDto {
    DeviceListItemDto {
        device: DeviceDataDto {
            id: id.to_string(),
            volume_id: VolumeId::new("vol"),
            device_type: kind,
            creation_time: 1,
            last_sync_time: None,
        },
        share: DeviceShareDataDto {
            id: ShareId::new("s"),
            root_link_id: LinkId::new("root"),
            name: name.map(str::to_string),
        },
    }
}

#[test]
fn devices_are_listed_with_their_roots() {
    let list = |devices| device_metadata(DeviceListResponse { devices });
    let devices = list(vec![
        listed_device("1", 2, Some("old name")),
        listed_device("2", 3, Some("")),
    ])
    .expect("known kinds");
    assert_eq!(devices[0].device_type, DeviceType::MacOs);
    assert_eq!(devices[0].root_folder_uid, uid("root"));
    assert!(devices[0].has_deprecated_name);
    assert!(!devices[1].has_deprecated_name);
    let error = message(list(vec![listed_device("1", 7, None)]).expect_err("unknown kind"));
    assert!(error.contains('7'), "{error}");
    let device = device_metadata_by_uid(devices, "2").expect("listed");
    let device = device.into_device(Ok("name".to_string()));
    assert_eq!((device.uid.as_str(), device.name), ("2", Ok("name".to_string())));
    assert_eq!(
        message(device_metadata_by_uid(Vec::new(), "9").expect_err("missing")),
        "device 9 not found"
    );
    assert_eq!(
        device_root_name(&vec![details("root", None)], &uid("root")),
        Ok("name of root".to_string())
    );
    assert_eq!(
        message(device_root_name(&Vec::new(), &uid("root")).expect_err("missing")),
        "device root folder vol~root not found"
    );
    assert_eq!(device_path("9"), "devices/9");
}

fn material() -> RootMaterial {
    RootMaterial {
        share_key: "share key".to_string(),
        share_passphrase: "share passphrase".to_string(),
        share_passphrase_signature: "share signature".to_string(),
        folder_name: "folder name".to_string(),
        folder_key: "folder key".to_string(),
        folder_passphrase: "folder passphrase".to_string(),
        folder_passphrase_signature: "folder signature".to_string(),
        folder_hash_key: "hash key".to_string(),
    }
}

#[test]
fn a_device_is_made_with_a_share_and_a_root() {
    let request = device_creation_request(
        DeviceType::Linux,
        "address".to_string(),
        "key id".to_string(),
        material(),
    );
    assert_eq!(request.device.device_type, 3);
    assert_eq!(request.device.sync_state, 0);
    assert_eq!(request.share.passphrase_signature, "share signature");
    assert_eq!(request.link.node_hash_key, "hash key");
    let volume = volume_creation_request("address".to_string(), "key id".to_string(), material());
    assert_eq!(volume.folder_name, "folder name");
    assert_eq!(volume.folder_hash_key, "hash key");

    let created = created_device(
        DeviceCreationResultDto {
            id: "d".to_string(),
            share_id: ShareId::new("s"),
            root_link_id: LinkId::new("root"),
        },
        DeviceType::Linux,
        "box",
        VolumeId::new("vol"),
        9,
    );
    assert_eq!(created.root_folder_uid, uid("root"));
    assert_eq!(created.name, Ok("box".to_string()));
    assert_eq!(created.creation_time, 9);
    assert_eq!(clear_name_request().share.name, "");
    let rename = device_rename_request("enc".to_string(), "me".to_string());
    assert_eq!((rename.name.as_str(), rename.name_hash.as_str()), ("enc", ""));
}
