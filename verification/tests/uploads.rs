//! Uploading: blocks, manifests, targets, drafts and what is recorded.

use proton_drive_rs::drafts::{
    delete_drafts_path, draft_deletion, file_creation_request, files_path, folder_creation_request,
    folders_path, revision_creation_request, undeleted_drafts, FileDraftRun, FileDraftSpec,
    FileDraftStep, FileSecrets, FolderSecrets, RevisionDraft, RevisionDraftRun, RevisionDraftStep,
};
use proton_drive_rs::dtos::{
    AggregateLinksResponse, ApiResponse, BlockUploadPreparationResponse, BlockUploadTarget,
    BlockVerificationInputResponse, DecryptedCommonExtendedAttributes, FileCreationIdentifiers,
    FileCreationResponse, LinkIdResponsePair, RevisionConflict, RevisionCreationIdentity,
    RevisionCreationResponse,
};
use proton_drive_rs::error::{
    is_expired_upload_token, is_upload_timeout, ProtonApiError, ProtonError, ResponseCode,
};
use proton_drive_rs::ids::{LinkId, NodeUid, VolumeId};
use proton_drive_rs::node::{Thumbnail, ThumbnailType};
use proton_drive_rs::photos::{PhotoTag, PhotoUploadMetadata};
use proton_drive_rs::pipeline::{BlockFill, EncryptWindow, WindowStep};
use proton_drive_rs::sealing::{
    build_photos_attributes, file_attributes, folder_attributes, photos_attributes_at,
    seal_path, seal_request, sealed_attributes, small_attributes, small_content,
    small_file_metadata, small_file_path, small_revision_metadata, small_revision_path,
};
use proton_drive_rs::storing::{
    batch_requests, slots_wanted, take_block_target, take_thumbnail_target, upload_jobs,
    write_result, BatchRun, BlockUpload, BlockWriteResult, UploadContext, UploadStep,
};
use proton_drive_rs::transport::{rank_block_sizes, DEFAULT_BLOCK_SIZE};
use proton_drive_rs::upload::{
    assemble_manifest, encrypt_content_block, encrypt_thumbnail_block, order_thumbnails,
    small_upload_applicable, verification_code, verification_packet, verification_path,
    verification_token, PlaintextTally, MAX_CONCURRENT_BLOCK_ENCRYPTS,
    MAX_CONCURRENT_BLOCK_UPLOADS,
};

fn digest(byte: u8) -> [u8; 32] {
    [byte; 32]
}

fn message(error: ProtonError) -> String {
    match error {
        ProtonError::InvalidOperation(message) => message,
        other => panic!("expected an invalid operation, got {other:?}"),
    }
}

fn api_error(code: ResponseCode, http_status: u16) -> ProtonError {
    ProtonError::Api(ProtonApiError {
        code,
        http_status,
        message: String::new(),
        details: None,
    })
}

fn uid(link: &str) -> NodeUid {
    NodeUid::new(VolumeId::new("vol"), LinkId::new(link))
}

#[test]
fn small_upload_respects_encryption_overhead_budget() {
    assert!(small_upload_applicable(0));
    assert!(small_upload_applicable(119_156));
    assert!(!small_upload_applicable(119_157));
    assert!(!small_upload_applicable(usize::MAX));
}

// The pipeline stores blocks out of order; the manifest must not be.
#[test]
fn manifest_is_thumbnails_then_blocks_in_index_order() {
    let manifest = assemble_manifest(
        &[digest(0xaa), digest(0xbb)],
        vec![(3, digest(3)), (1, digest(1)), (2, digest(2))],
    );

    assert_eq!(manifest.len(), 5 * 32);
    let entries: Vec<u8> = manifest.chunks(32).map(|entry| entry[0]).collect();
    assert_eq!(entries, vec![0xaa, 0xbb, 1, 2, 3]);
}

#[test]
fn manifest_of_a_thumbnail_less_empty_file_is_empty() {
    assert!(assemble_manifest(&[], Vec::new()).is_empty());
}

#[test]
fn the_manifest_does_not_depend_on_the_order_of_storage() {
    let one = assemble_manifest(&[], vec![(1, digest(1)), (2, digest(2))]);
    let other = assemble_manifest(&[], vec![(2, digest(2)), (1, digest(1))]);
    assert_eq!(one, other);
}

fn target(index: Option<i32>, thumbnail_type: Option<i32>, token: &str) -> BlockUploadTarget {
    BlockUploadTarget {
        bare_url: "https://storage.example/blob".to_string(),
        token: token.to_string(),
        index,
        thumbnail_type,
    }
}

#[test]
fn upload_targets_are_matched_by_index_not_position() {
    let mut targets = vec![
        target(Some(2), None, "second"),
        target(Some(1), None, "first"),
    ];

    assert_eq!(
        take_block_target(&mut targets, 1)
            .expect("target for 1")
            .token,
        "first"
    );
    assert_eq!(
        take_block_target(&mut targets, 2)
            .expect("target for 2")
            .token,
        "second"
    );
    assert!(take_block_target(&mut targets, 3).is_none());
}

// A response that does not echo indices is consumed in request order.
#[test]
fn upload_targets_without_indices_fall_back_to_request_order() {
    let mut targets = vec![target(None, None, "first"), target(None, None, "second")];

    assert_eq!(
        take_block_target(&mut targets, 7)
            .expect("first target")
            .token,
        "first"
    );
    assert_eq!(
        take_block_target(&mut targets, 9)
            .expect("second target")
            .token,
        "second"
    );
}

#[test]
fn thumbnail_targets_are_matched_by_type() {
    let mut targets = vec![
        target(None, Some(2), "preview"),
        target(None, Some(1), "tiny"),
    ];

    assert_eq!(
        take_thumbnail_target(&mut targets, 1)
            .expect("target for type 1")
            .token,
        "tiny"
    );
    assert_eq!(
        take_thumbnail_target(&mut targets, 2)
            .expect("target for type 2")
            .token,
        "preview"
    );
}

#[test]
fn expired_upload_tokens_are_recognized_by_status_or_code() {
    assert!(is_expired_upload_token(&api_error(
        ResponseCode::Success,
        404
    )));
    assert!(is_expired_upload_token(&api_error(
        ResponseCode::DoesNotExist,
        422
    )));

    // Anything else is a plain failure: retried, but against the same token.
    assert!(!is_expired_upload_token(&api_error(
        ResponseCode::Success,
        500
    )));
    assert!(!is_expired_upload_token(&ProtonError::invalid_operation(
        "boom"
    )));
    assert!(!is_upload_timeout(&api_error(ResponseCode::Success, 504)));
}

#[test]
fn photos_attributes_content_hash_and_tags() {
    let hash_key = b"parent-folder-hash-key-bytes".to_vec();
    let written = BlockWriteResult {
        manifest: Vec::new(),
        block_sizes: vec![10],
        total_size: 10,
        sha1_hex: "0123456789abcdef0123456789abcdef01234567".to_string(),
    };
    let metadata = PhotoUploadMetadata {
        capture_time: Some(1_700_000_000),
        main_photo_uid: Some(NodeUid::new(
            VolumeId::new("vol-1"),
            LinkId::new("main-link"),
        )),
        tags: vec![PhotoTag::Video, PhotoTag::Selfie],
    };

    let attrs = build_photos_attributes(&hash_key, &written, &metadata);

    // The HMAC-SHA256 over the SHA-1, both in hex.
    assert_eq!(
        attrs.content_hash,
        "972774cb7ba8e453a71a871883a2f0717680bbc580e29c058d483f7fff7033f4"
    );
    assert_eq!(attrs.capture_time, 1_700_000_000);
    assert_eq!(attrs.main_photo_link_id, Some(LinkId::new("main-link")));
    assert_eq!(
        attrs.tags,
        vec![PhotoTag::Video.as_i32(), PhotoTag::Selfie.as_i32()]
    );
}

#[test]
fn photos_attributes_default_capture_time_and_empty_tags() {
    let written = BlockWriteResult {
        manifest: Vec::new(),
        block_sizes: Vec::new(),
        total_size: 0,
        sha1_hex: "da39a3ee5e6b4b0d3255bfef95601890afd80709".to_string(),
    };
    let attrs = build_photos_attributes(b"k", &written, &PhotoUploadMetadata::default());

    // Unset capture time defaults to the (positive) upload time; no main
    // photo; no tags.
    assert!(attrs.capture_time > 0);
    assert_eq!(attrs.main_photo_link_id, None);
    assert!(attrs.tags.is_empty());

    let at = photos_attributes_at(b"k", &written, &PhotoUploadMetadata::default(), 77);
    assert_eq!(at.capture_time, 77);
}

#[test]
fn the_verification_token_covers_the_code_with_the_ciphertext() {
    let code = [1u8, 2, 3, 4, 5, 6, 7, 8];
    let token = verification_token(&code, b"hello");
    assert_eq!(token, vec![105, 103, 111, 104, 106, 6, 7, 8]);
    assert_eq!(verification_token(&code, b"hello world"), {
        let mut long = verification_token(&code, b"hello wo");
        long.truncate(8);
        long
    });
    // The token over the code gives the start of the ciphertext back.
    let prefix = verification_token(&token, &code);
    assert_eq!(prefix, b"hello\0\0\0".to_vec());
}

#[test]
fn what_is_read_is_tallied_in_order() {
    let mut tally = PlaintextTally::new();
    assert_eq!(tally.absorb(b"abc"), 1);
    assert_eq!(tally.absorb(b"de"), 2);
    let (sizes, total, sha1) = tally.finish();
    assert_eq!(sizes, vec![3, 2]);
    assert_eq!(total, 5);
    assert_eq!(sha1, "03de6c570bfe24bfc328ccd7ca46b76eadaf4334");
}

#[test]
fn a_content_block_carries_its_digest_and_token() {
    let code = [1u8, 2, 3, 4, 5, 6, 7, 8];
    let block = encrypt_content_block(4, b"hello".to_vec(), &code, "signature".to_string());
    assert_eq!(block.digest[0], 0x2c);
    assert_eq!(block.digest[31], 0x24);
    assert_eq!(block.request.index, 4);
    assert_eq!(block.request.size, 5);
    assert_eq!(block.request.encrypted_signature, "signature");
    assert_eq!(
        block.request.hash,
        "LPJNul+wow4m6DsqxbninhsWHlwfp0JecwQzYpOLmCQ="
    );
    assert_eq!(block.request.verifier.token, "aWdvaGoGBwg=");

    let thumbnail = encrypt_thumbnail_block(ThumbnailType::Preview, b"hello".to_vec());
    assert_eq!(thumbnail.thumbnail_type, 2);
    assert_eq!(thumbnail.request.size, 5);
    assert_eq!(thumbnail.request.thumbnail_type, 2);
    assert_eq!(thumbnail.request.hash, block.request.hash);
    assert_eq!(thumbnail.digest, block.digest);
}

#[test]
fn thumbnails_are_taken_by_type_and_otherwise_as_given() {
    let thumbnail = |kind, byte| Thumbnail::new(kind, vec![byte]).expect("small enough");
    let ordered = order_thumbnails(vec![
        thumbnail(ThumbnailType::Preview, 1),
        thumbnail(ThumbnailType::Thumbnail, 2),
        thumbnail(ThumbnailType::Preview, 3),
        thumbnail(ThumbnailType::Thumbnail, 4),
    ]);
    let bytes: Vec<u8> = ordered.iter().map(|t| t.content[0]).collect();
    assert_eq!(bytes, vec![2, 4, 1, 3]);
}

#[test]
fn the_verification_input_is_decoded() {
    let input = |packet: &str, code: &str| BlockVerificationInputResponse {
        verification_code: code.to_string(),
        content_key_packet: packet.to_string(),
    };
    let good = input(" AQID\n", "AQID");
    assert_eq!(verification_packet(&good).expect("packet"), vec![1, 2, 3]);
    assert_eq!(verification_code(&good).expect("code"), vec![1, 2, 3]);

    let bad = input("?", "?");
    assert!(message(verification_packet(&bad).expect_err("packet"))
        .starts_with("decode verification packet: "));
    assert!(message(verification_code(&bad).expect_err("code"))
        .starts_with("decode verification code: "));
}

fn prepared(
    blocks: Vec<BlockUploadTarget>,
    thumbnails: Vec<BlockUploadTarget>,
) -> BlockUploadPreparationResponse {
    BlockUploadPreparationResponse {
        upload_targets: blocks,
        thumbnail_upload_targets: thumbnails,
    }
}

#[test]
fn thumbnails_are_stored_before_blocks_each_at_its_target() {
    let block = |index| encrypt_content_block(index, b"x".to_vec(), &[0; 4], String::new());
    let thumbnail = encrypt_thumbnail_block(ThumbnailType::Thumbnail, b"y".to_vec());

    let (requests, thumbnail_requests) = batch_requests(&vec![block(1), block(2)], &Vec::new());
    assert_eq!(requests.len(), 2);
    assert_eq!(requests[1].index, 2);
    assert!(thumbnail_requests.is_empty());

    let jobs = upload_jobs(
        vec![block(1), block(2)],
        vec![thumbnail],
        prepared(
            vec![target(Some(2), None, "b2"), target(Some(1), None, "b1")],
            vec![target(None, Some(1), "t1")],
        ),
    )
    .expect("every blob has a target");
    let tokens: Vec<&str> = jobs.iter().map(|job| job.target.token.as_str()).collect();
    assert_eq!(tokens, vec!["t1", "b1", "b2"]);
    assert_eq!(jobs[0].index, None);
    assert!(jobs[0].request.is_none());
    assert_eq!(jobs[2].index, Some(2));

    let missing = upload_jobs(
        vec![block(1), block(2)],
        Vec::new(),
        prepared(vec![target(Some(1), None, "b1")], Vec::new()),
    );
    assert_eq!(
        message(missing.expect_err("no target")),
        "block upload preparation returned no target for block 2"
    );
    let missing = upload_jobs(
        Vec::new(),
        vec![encrypt_thumbnail_block(ThumbnailType::Preview, Vec::new())],
        prepared(Vec::new(), vec![target(None, Some(1), "t1")]),
    );
    assert_eq!(
        message(missing.expect_err("no target")),
        "thumbnail upload preparation returned no target for type 2"
    );
}

fn upload_of(with_request: bool) -> BlockUpload {
    let block = encrypt_content_block(7, b"x".to_vec(), &[0; 4], String::new());
    let mut jobs = upload_jobs(
        vec![block],
        Vec::new(),
        prepared(vec![target(Some(7), None, "old")], Vec::new()),
    )
    .expect("a target");
    let mut job = jobs.remove(0);
    if !with_request {
        job.request = None;
    }
    BlockUpload::start(job)
}

#[test]
fn a_block_is_tried_three_times() {
    let timeout = || ProtonError::Transport {
        timeout: true,
        message: "slow".to_string(),
    };

    let mut upload = upload_of(true);
    assert_eq!(
        upload.failed(timeout()),
        UploadStep::Retry { serialize: true }
    );
    assert_eq!(
        upload.failed(api_error(ResponseCode::Success, 500)),
        UploadStep::Retry { serialize: false }
    );
    assert_eq!(upload.failed(timeout()), UploadStep::Fail(timeout()));

    // An expired target is replaced, where it can be asked for.
    let mut upload = upload_of(true);
    match upload.failed(api_error(ResponseCode::Success, 404)) {
        UploadStep::Renew(request) => assert_eq!(request.index, 7),
        other => panic!("expected to renew, got {other:?}"),
    }
    assert_eq!(
        message(
            upload
                .renewed(prepared(Vec::new(), Vec::new()))
                .expect_err("no target")
        ),
        "block upload preparation returned no target"
    );
    upload
        .renewed(prepared(vec![target(Some(7), None, "new")], Vec::new()))
        .expect("a target");
    assert_eq!(upload.job.target.token, "new");
    let digest = upload.job.digest;
    assert_eq!(upload.stored(), Some((7, digest)));

    let mut thumbnail = upload_of(false);
    thumbnail.job.index = None;
    assert_eq!(
        thumbnail.failed(api_error(ResponseCode::DoesNotExist, 422)),
        UploadStep::Retry { serialize: false }
    );
    assert_eq!(thumbnail.stored(), None);

    assert_eq!(slots_wanted(false), 1);
    assert_eq!(slots_wanted(true), MAX_CONCURRENT_BLOCK_UPLOADS as u32);
}

#[test]
fn thumbnails_ride_with_the_first_batch_only() {
    let thumbnail = encrypt_thumbnail_block(ThumbnailType::Thumbnail, b"y".to_vec());
    let mut run = BatchRun::start(vec![thumbnail]);
    assert_eq!(run.thumbnails_for_batch().len(), 1);
    assert!(run.thumbnails_for_batch().is_empty());
    run.stored_batch(vec![None, Some((2, digest(2))), Some((1, digest(1)))]);
    assert_eq!(run.stored, vec![(2, digest(2)), (1, digest(1))]);
}

#[test]
fn a_write_is_whole_or_refused() {
    let read = || (vec![3, 2], 5, "sha".to_string());
    let written = write_result(&[digest(9)], vec![(2, digest(2)), (1, digest(1))], read())
        .expect("all stored");
    assert_eq!(written.manifest.len(), 96);
    assert_eq!(written.manifest[32], 1);
    assert_eq!(written.block_sizes, vec![3, 2]);
    assert_eq!(written.total_size, 5);
    assert_eq!(written.sha1_hex, "sha");

    let short = write_result(&[], vec![(1, digest(1))], read());
    assert_eq!(
        message(short.expect_err("one is missing")),
        "upload stored 1 of 2 content blocks"
    );
}

#[test]
fn recorded_block_sizes_are_what_a_reader_uses() {
    let mut tally = PlaintextTally::new();
    tally.absorb(b"abc");
    tally.absorb(b"de");
    let (sizes, total, _) = tally.finish();
    let common = DecryptedCommonExtendedAttributes {
        size: Some(total),
        modification_time: None,
        block_sizes: Some(sizes.iter().map(|&size| size as i64).collect()),
        digests: None,
    };
    assert_eq!(
        rank_block_sizes(Some(&common), "rev", 2).expect("sizes"),
        vec![3, 2]
    );
}

fn draft() -> RevisionDraft {
    RevisionDraft {
        volume_id: VolumeId::new("vol"),
        link_id: LinkId::new("link"),
        revision_id: "rev".to_string(),
        node_key: "node".to_string(),
        content_key: "content".to_string(),
        address_id: "address".to_string(),
        email: "me@example.org".to_string(),
        signing_key: "signing".to_string(),
        parent_hash_key: Vec::new(),
    }
}

#[test]
fn a_revision_is_sealed_with_what_was_written() {
    let written = BlockWriteResult {
        manifest: vec![1],
        block_sizes: vec![3, 2],
        total_size: 5,
        sha1_hex: "sha".to_string(),
    };
    let attributes = sealed_attributes(&written, Some(0));
    assert_eq!(attributes.common.size, Some(5));
    assert_eq!(attributes.common.block_sizes, Some(vec![3, 2]));
    assert_eq!(
        attributes.common.modification_time,
        Some("1970-01-01T00:00:00Z".to_string())
    );
    assert_eq!(attributes.common.digests.expect("digests").sha1, "sha");
    assert_eq!(
        file_attributes(1, vec![1], String::new(), None)
            .common
            .modification_time,
        None
    );

    let request = seal_request(&draft(), "sig".to_string(), "xattr".to_string(), None);
    assert_eq!(request.manifest_signature, "sig");
    assert_eq!(request.signature_address, "me@example.org");
    assert!(!request.checksum_verified);
    assert_eq!(request.extended_attributes, Some("xattr".to_string()));
    assert_eq!(request.photos_attributes, None);

    assert_eq!(seal_path(&draft()), "v2/volumes/vol/files/link/revisions/rev");
    assert_eq!(
        verification_path(&draft()),
        "v2/volumes/vol/links/link/revisions/rev/verification"
    );

    let context = UploadContext::from_draft(&draft());
    let request = context.preparation_request(Vec::new(), Vec::new());
    assert_eq!(request.address_id, "address");
    assert_eq!(request.revision_id, "rev");
}

#[test]
fn a_folder_records_its_time_only_where_one_is_given() {
    assert_eq!(folder_attributes(None), None);
    let attributes = folder_attributes(Some(1_709_208_000)).expect("a time");
    assert_eq!(
        attributes.common.modification_time,
        Some("2024-02-29T12:00:00Z".to_string())
    );
    assert_eq!(attributes.common.size, None);
    assert_eq!(attributes.common.block_sizes, None);
}

#[test]
fn a_small_file_goes_in_one_request() {
    let packet: Vec<u8> = (0..40).collect();
    let content = small_content(
        b"hi",
        &packet,
        Some((b"hello".to_vec(), "signature".to_string())),
    )
    .expect("the packet is long enough");
    assert_eq!(content.manifest.len(), 32);
    assert_eq!(content.manifest[0], 0x2c);
    assert_eq!(content.block_sizes, vec![2]);
    assert_eq!(content.encrypted_signature, Some("signature".to_string()));
    assert_eq!(
        content.verification_token,
        Some("YGxmZ2MNDg8QERITFBUWFxgZGhscHR4fICEiIyQlJic=".to_string())
    );
    assert_eq!(
        content.parts,
        vec![("ContentBlock".to_string(), b"hello".to_vec())]
    );

    let attributes = small_attributes(b"hi", content.block_sizes.clone(), None);
    assert_eq!(attributes.common.size, Some(2));
    assert_eq!(
        attributes.common.digests.expect("digests").sha1,
        "c22b5f9178342609428d6f51b2c5af4c0bde6a42"
    );

    let metadata = small_file_metadata(
        &uid("parent"),
        "report.txt",
        "text/plain",
        b"key",
        secrets(packet.clone()),
        &content,
        "manifest signature".to_string(),
        "me@example.org".to_string(),
        "xattr".to_string(),
    );
    assert_eq!(
        metadata.name_hash,
        "f54ce8d61676da97d8ff34c7a9e6eb21498dd8696755ca0460075682d2e08489"
    );
    assert_eq!(
        metadata.content_key_packet,
        "AAECAwQFBgcICQoLDA0ODxAREhMUFRYXGBkaGxwdHh8gISIjJCUmJw=="
    );
    assert_eq!(metadata.parent_link_id, LinkId::new("parent"));
    assert_eq!(metadata.media_type, "text/plain");

    let metadata = small_revision_metadata(
        "current".to_string(),
        &content,
        "manifest signature".to_string(),
        "me@example.org".to_string(),
        "xattr".to_string(),
    );
    assert_eq!(metadata.current_revision_id, "current");
    assert_eq!(
        metadata.content_block_verification_token,
        content.verification_token
    );

    let empty = small_content(b"", &Vec::new(), None).expect("nothing to verify");
    assert!(empty.manifest.is_empty());
    assert!(empty.parts.is_empty());
    assert_eq!(empty.verification_token, None);

    let short = small_content(b"hi", &vec![0; 31], Some((Vec::new(), String::new())));
    assert_eq!(
        message(short.expect_err("too short")),
        "content key packet has no verification code"
    );

    assert_eq!(small_file_path(&VolumeId::new("vol")), "v2/volumes/vol/files/small");
    assert_eq!(
        small_revision_path(&uid("link")),
        "v2/volumes/vol/files/link/revisions/small"
    );
}

fn secrets(packet: Vec<u8>) -> FileSecrets {
    FileSecrets {
        encrypted_name: "name".to_string(),
        passphrase: "passphrase".to_string(),
        passphrase_signature: "passphrase signature".to_string(),
        key: "key".to_string(),
        content_key_packet: packet,
        content_key_signature: "content signature".to_string(),
    }
}

#[test]
fn a_new_file_is_asked_for_with_its_name_hash() {
    let spec = FileDraftSpec {
        parent_uid: uid("parent"),
        name: "report.txt".to_string(),
        media_type: "text/plain".to_string(),
        intended_upload_size: 12,
        aead: false,
        for_photos: false,
        override_existing_draft: false,
    };
    let request = file_creation_request(
        &spec,
        secrets(vec![1, 2, 3]),
        b"key",
        "me@example.org",
        "session",
    );
    assert_eq!(
        request.name_hash,
        "f54ce8d61676da97d8ff34c7a9e6eb21498dd8696755ca0460075682d2e08489"
    );
    assert_eq!(request.content_key_packet, "AQID");
    assert_eq!(request.client_uid, Some("session".to_string()));
    assert_eq!(request.intended_upload_size, 12);

    let folder = folder_creation_request(
        &uid("parent"),
        "report.txt",
        b"key",
        FolderSecrets {
            encrypted_name: "name".to_string(),
            passphrase: "passphrase".to_string(),
            passphrase_signature: "passphrase signature".to_string(),
            key: "key".to_string(),
            node_hash_key: "hash key".to_string(),
        },
        "me@example.org".to_string(),
        None,
    );
    assert_eq!(folder.name_hash, request.name_hash);
    assert_eq!(folder.parent_link_id, LinkId::new("parent"));
    assert_eq!(folder.node_hash_key, "hash key");
    assert_eq!(folder.extended_attributes, None);

    let revision = revision_creation_request("active".to_string(), "session", 3);
    assert_eq!(revision.current_revision_id, "active");
    assert_eq!(revision.client_uid, Some("session".to_string()));

    let volume = VolumeId::new("vol");
    assert_eq!(files_path(&volume), "v2/volumes/vol/files");
    assert_eq!(folders_path(&volume), "v2/volumes/vol/folders");
    assert_eq!(delete_drafts_path(&volume), "v2/volumes/vol/delete_multiple");
}

fn conflict(
    revision_id: Option<&str>,
    draft_revision_id: Option<&str>,
    owner: Option<&str>,
) -> ProtonError {
    ProtonError::Api(ProtonApiError {
        code: ResponseCode::AlreadyExists,
        http_status: 422,
        message: "exists".to_string(),
        details: Some(RevisionConflict {
            link_id: Some(LinkId::new("stale")),
            revision_id: revision_id.map(str::to_string),
            draft_revision_id: draft_revision_id.map(str::to_string),
            draft_client_uid: owner.map(str::to_string),
        }),
    })
}

#[test]
fn only_an_unfinished_draft_is_cleared_out_of_the_way() {
    // Our own draft.
    let mut run = FileDraftRun::start("me", false);
    assert_eq!(
        run.answered(Err(conflict(None, Some("draft"), Some("me")))),
        FileDraftStep::Clear(LinkId::new("stale"))
    );
    assert_eq!(run.cleared(Ok(())), FileDraftStep::Create);
    assert_eq!(
        run.answered(Ok(FileCreationResponse {
            file: FileCreationIdentifiers {
                link_id: LinkId::new("new"),
                revision_id: "rev".to_string(),
            },
        })),
        FileDraftStep::Open {
            link_id: LinkId::new("new"),
            revision_id: "rev".to_string(),
        }
    );

    // Somebody else's, which is replaced on request only.
    let other = || conflict(None, Some("draft"), Some("other"));
    let mut run = FileDraftRun::start("me", false);
    assert_eq!(run.answered(Err(other())), FileDraftStep::Fail(other()));
    let mut run = FileDraftRun::start("me", true);
    assert_eq!(
        run.answered(Err(other())),
        FileDraftStep::Clear(LinkId::new("stale"))
    );

    // A finished file, never.
    let finished = || conflict(Some("rev"), Some("draft"), Some("me"));
    let mut run = FileDraftRun::start("me", true);
    assert_eq!(run.answered(Err(finished())), FileDraftStep::Fail(finished()));
}

#[test]
fn a_draft_that_keeps_conflicting_is_given_up() {
    let mut run = FileDraftRun::start("me", false);
    for _ in 0..2 {
        run.answered(Err(conflict(None, Some("draft"), Some("me"))));
        assert_eq!(run.cleared(Ok(())), FileDraftStep::Create);
    }
    run.answered(Err(conflict(None, Some("draft"), Some("me"))));
    match run.cleared(Ok(())) {
        FileDraftStep::Fail(error) => assert_eq!(
            message(error),
            "file draft creation kept conflicting after retries"
        ),
        other => panic!("expected to give up, got {other:?}"),
    }
    match run.cleared(Err(ProtonError::invalid_operation("no"))) {
        FileDraftStep::Fail(error) => assert_eq!(message(error), "no"),
        other => panic!("expected to fail, got {other:?}"),
    }

    let mut run = RevisionDraftRun::start("me");
    for _ in 0..3 {
        assert_eq!(
            run.answered(Err(conflict(Some("rev"), Some("draft"), Some("me")))),
            RevisionDraftStep::Clear("draft".to_string())
        );
    }
    match run.cleared(Ok(())) {
        RevisionDraftStep::Fail(error) => assert_eq!(
            message(error),
            "revision draft creation kept conflicting after retries"
        ),
        other => panic!("expected to give up, got {other:?}"),
    }
}

#[test]
fn a_revision_draft_of_another_client_is_left_alone() {
    let failure = |answer| match RevisionDraftRun::start("me").answered(Err(answer)) {
        RevisionDraftStep::Fail(error) => message(error),
        other => panic!("expected to fail, got {other:?}"),
    };
    assert_eq!(
        failure(conflict(None, Some("draft"), Some("other"))),
        "revision draft is held by another client"
    );
    assert_eq!(
        failure(conflict(None, Some("draft"), None)),
        "revision draft already exists and cannot be recovered"
    );
    assert_eq!(
        failure(api_error(ResponseCode::AlreadyExists, 409)),
        "revision draft already exists and cannot be recovered"
    );
    assert_eq!(
        RevisionDraftRun::start("me").answered(Ok(RevisionCreationResponse {
            revision: RevisionCreationIdentity {
                revision_id: "rev".to_string(),
            },
        })),
        RevisionDraftStep::Open("rev".to_string())
    );
    let refused = || api_error(ResponseCode::Success, 500);
    assert_eq!(
        RevisionDraftRun::start("me").answered(Err(refused())),
        RevisionDraftStep::Fail(refused())
    );
}

#[test]
fn drafts_that_are_gone_count_as_deleted() {
    let pair = |link: &str, code| LinkIdResponsePair {
        link_id: LinkId::new(link),
        response: ApiResponse {
            code,
            error_message: None,
            details: None,
        },
    };
    let answer = AggregateLinksResponse {
        responses: vec![
            pair("a", ResponseCode::Success),
            pair("b", ResponseCode::DoesNotExist),
            pair("c", ResponseCode::Other(2000)),
        ],
    };
    assert_eq!(
        undeleted_drafts(&answer),
        vec![(LinkId::new("c"), ResponseCode::Other(2000))]
    );
    assert!(draft_deletion(&Vec::new()).is_ok());
    let told = vec!["c (Other)".to_string(), "d (Unknown)".to_string()];
    assert_eq!(
        message(draft_deletion(&told).expect_err("two are left")),
        "delete draft failed for 2 link(s): c (Other), d (Unknown)"
    );
}

#[test]
fn a_block_is_filled_from_short_reads() {
    let mut fill = BlockFill::start(10);
    assert_eq!(fill.wanted(), Some((0, 10)));
    fill.read(4);
    assert_eq!(fill.wanted(), Some((4, 6)));
    fill.read(6);
    assert_eq!(fill.wanted(), None);

    let mut fill = BlockFill::start(10);
    fill.read(3);
    fill.read(0);
    assert_eq!(fill.wanted(), None);
    assert_eq!(fill.filled, 3);
}

#[test]
fn every_block_but_the_last_is_full() {
    let mut left = 2 * DEFAULT_BLOCK_SIZE + 5;
    let mut tally = PlaintextTally::new();
    loop {
        let mut fill = BlockFill::start(DEFAULT_BLOCK_SIZE);
        while let Some((_, wanted)) = fill.wanted() {
            let count = wanted.min(left).min(1_000_000);
            left -= count;
            fill.read(count);
        }
        if fill.filled == 0 {
            break;
        }
        tally.absorb(&vec![7; fill.filled]);
    }
    let (sizes, total, _) = tally.finish();
    assert_eq!(total, 2 * DEFAULT_BLOCK_SIZE as i64 + 5);
    let full = DEFAULT_BLOCK_SIZE as i32;
    assert_eq!(sizes, vec![full, full, 5]);
}

#[test]
fn an_upload_never_waits_for_a_permit_that_it_holds() {
    let mut window = EncryptWindow::start();
    assert_eq!(window.next(), WindowStep::Acquire { wait: true });
    window.read(5);
    assert_eq!(window.next(), WindowStep::Acquire { wait: false });
    window.no_permit();
    assert_eq!(window.next(), WindowStep::Drain);
    window.handed_on();
    assert_eq!(window.next(), WindowStep::Acquire { wait: true });

    for _ in 0..MAX_CONCURRENT_BLOCK_ENCRYPTS {
        window.read(1);
    }
    assert_eq!(window.next(), WindowStep::Drain);
    window.handed_on();
    window.read(0);
    for _ in 1..MAX_CONCURRENT_BLOCK_ENCRYPTS {
        assert_eq!(window.next(), WindowStep::Drain);
        window.handed_on();
    }
    assert_eq!(window.next(), WindowStep::End);
}
