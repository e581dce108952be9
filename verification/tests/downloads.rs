//! Downloading: blocks of a revision, its manifest, thumbnails and history.

use proton_drive_rs::content::{
    append_block_digest, build_revision, decode_field, file_content, first_link,
    is_listable_revision_state, listable_revisions, manifest_check, parent_hash_key, restore_outcome,
    restore_path, revision_lookup, revision_metadata_path, revision_path, revisions_path,
    thumbnail_manifest, thumbnail_of_type, ContentKind, ManifestCheck, RevisionCopy,
};
use proton_drive_rs::dtos::{
    ActiveRevisionDto, AlbumDto, BlockDto, DecryptedCommonExtendedAttributes,
    DecryptedFileContentDigests, FileDto, FolderDto, LinkDetailsDto, LinkDto, PhotoDto,
    RevisionDto, RevisionListItemDto, ThumbnailBlock, ThumbnailBlockError,
    ThumbnailBlockListResponse, ThumbnailDto,
};
use proton_drive_rs::error::{
    is_expired_block_url, is_not_found, ProtonApiError, ProtonError, ResponseCode,
};
use proton_drive_rs::ids::{LinkId, NodeUid, VolumeId};
use proton_drive_rs::node::RevisionState;
use proton_drive_rs::revision::RevisionReader;
use proton_drive_rs::thumbnails::{thumbnail_block, thumbnails_path, ThumbnailRun};
use proton_drive_rs::transport::{
    block_page_path, retries_after_renewal, BlockListing, SessionGeneration, BLOCK_PAGE_SIZE,
    DEFAULT_BLOCK_SIZE,
};
use proton_drive_rs::upload::assemble_manifest;

fn message(error: ProtonError) -> String {
    match error {
        ProtonError::InvalidOperation(message) => message,
        other => panic!("expected an invalid operation, got {other:?}"),
    }
}

fn api_error(code: ResponseCode, http_status: u16) -> ProtonError {
    ProtonError::Api(ProtonApiError {
        code,
        http_status,
        message: String::new(),
        details: None,
    })
}

fn uid(link: &str) -> NodeUid {
    NodeUid::new(VolumeId::new("vol"), LinkId::new(link))
}

fn link(id: &str) -> LinkDto {
    LinkDto {
        id: LinkId::new(id),
        link_type: 2,
        parent_id: None,
        state: 1,
        creation_time: 0,
        modification_time: 0,
        trash_time: None,
        name: String::new(),
        name_hash: None,
        key: String::new(),
        passphrase: String::new(),
        passphrase_signature: None,
        signature_email: None,
        name_signature_email: None,
    }
}

fn details(id: &str) -> LinkDetailsDto {
    LinkDetailsDto {
        link: link(id),
        folder: None,
        file: None,
        photo: None,
        sharing: None,
        membership: None,
        album: None,
    }
}

fn file(packet: Option<&str>, revision: Option<&str>) -> FileDto {
    FileDto {
        media_type: "text/plain".to_string(),
        total_size_on_storage: 0,
        content_key_packet: packet.map(str::to_string),
        content_key_signature: None,
        active_revision: revision.map(|id| ActiveRevisionDto {
            id: id.to_string(),
            creation_time: 0,
            state: None,
            encrypted_size: 0,
            signature_email: None,
            extended_attributes: None,
        }),
    }
}

#[test]
fn only_sealed_revisions_are_listable() {
    assert!(is_listable_revision_state(Some(1)), "active");
    assert!(is_listable_revision_state(Some(2)), "superseded");
    // A draft has no readable content, and `RevisionState::from_raw` would
    // map it to Active — the exact trap this predicate exists to avoid.
    assert!(!is_listable_revision_state(Some(0)), "draft");
    assert!(!is_listable_revision_state(None), "unstated");
    assert!(!is_listable_revision_state(Some(99)), "unknown");
    assert_eq!(RevisionState::from_raw(Some(0)), RevisionState::Active);
}

fn item(id: &str, state: Option<i32>, email: Option<&str>) -> RevisionListItemDto {
    RevisionListItemDto {
        id: id.to_string(),
        state,
        creation_time: 5,
        size: 6,
        manifest_signature: None,
        signature_email: email.map(str::to_string),
        extended_attributes: None,
        thumbnails: Vec::new(),
    }
}

#[test]
fn drafts_are_left_out_of_the_history() {
    let listed = listable_revisions(vec![
        item("draft", Some(0), None),
        item("active", Some(1), None),
        item("old", Some(2), None),
        item("odd", None, None),
    ]);
    let ids: Vec<&str> = listed.iter().map(|item| item.id.as_str()).collect();
    assert_eq!(ids, vec!["active", "old"]);

    let common = DecryptedCommonExtendedAttributes {
        size: Some(7),
        modification_time: Some("then".to_string()),
        block_sizes: None,
        digests: Some(DecryptedFileContentDigests {
            sha1: Some("sha".to_string()),
        }),
    };
    let revision = build_revision(&uid("f"), item("old", Some(2), Some("a@b")), Some(common));
    assert_eq!(revision.state, RevisionState::Superseded);
    assert!(!revision.is_active());
    assert_eq!(revision.claimed_size, Some(7));
    assert_eq!(revision.claimed_sha1, Some("sha".to_string()));
    assert_eq!(revision.signature_email, Some("a@b".to_string()));

    // Attributes that cannot be read leave the revision with its other fields.
    let revision = build_revision(&uid("f"), item("r", Some(1), Some("")), None);
    assert!(revision.is_active());
    assert_eq!(revision.signature_email, None);
    assert_eq!(revision.claimed_size, None);
    assert_eq!(revision.size_on_storage, 6);
}

#[test]
fn a_missing_revision_is_no_failure_and_a_restore_is_accepted_later() {
    assert_eq!(revision_lookup(Ok(1)), Ok(Some(1)));
    assert_eq!(
        revision_lookup::<i32>(Err(api_error(ResponseCode::Success, 404))),
        Ok(None)
    );
    assert_eq!(
        revision_lookup::<i32>(Err(api_error(ResponseCode::DoesNotExist, 422))),
        Ok(None)
    );
    assert!(revision_lookup::<i32>(Err(api_error(ResponseCode::Success, 500))).is_err());

    assert!(restore_outcome(Ok(())).is_ok());
    assert!(restore_outcome(Err(api_error(ResponseCode::Other(1002), 202))).is_ok());
    assert!(restore_outcome(Err(api_error(ResponseCode::Success, 500))).is_err());

    assert!(is_not_found(&api_error(ResponseCode::DoesNotExist, 422)));
    assert!(!is_not_found(&ProtonError::invalid_operation("x")));

    assert_eq!(revisions_path(&uid("f")), "v2/volumes/vol/files/f/revisions");
    assert_eq!(
        revision_path(&uid("f"), "r"),
        "v2/volumes/vol/files/f/revisions/r"
    );
    assert_eq!(
        revision_metadata_path(&uid("f"), "r"),
        "v2/volumes/vol/files/f/revisions/r?NoBlockUrls=true"
    );
    assert_eq!(
        restore_path(&uid("f"), "r"),
        "v2/volumes/vol/files/f/revisions/r/restore"
    );
}

#[test]
fn a_file_is_read_by_its_packet_and_revision() {
    let mut detail = details("f");
    detail.file = Some(file(Some(" AQID "), Some("rev")));
    let found = file_content(ContentKind::File, &uid("f"), &vec![detail], None).expect("a file");
    assert_eq!(found.content_key_packet, vec![1, 2, 3]);
    assert_eq!(found.revision_id, "rev");
    assert_eq!(found.link.id, LinkId::new("f"));

    // A photo's file counts, except where it is to be written.
    let photo = || {
        let mut detail = details("p");
        detail.photo = Some(PhotoDto {
            file: file(Some("AQID"), Some("rev")),
            capture_time: 0,
            content_hash: None,
            main_photo_link_id: None,
            related_photo_link_ids: Vec::new(),
            tags: Vec::new(),
            album_inclusions: Vec::new(),
        });
        detail
    };
    assert!(file_content(ContentKind::Photo, &uid("p"), &vec![photo()], None).is_ok());
    assert_eq!(
        message(
            file_content(ContentKind::Writable, &uid("p"), &vec![photo()], None)
                .expect_err("not a plain file")
        ),
        "node vol~p is not a file"
    );
}

#[test]
fn a_file_without_what_is_needed_is_refused() {
    let refusal = |kind, data: Option<FileDto>, named: Option<&str>| {
        let mut detail = details("f");
        detail.file = data;
        message(file_content(kind, &uid("f"), &vec![detail], named).expect_err("refused"))
    };
    assert_eq!(
        message(
            file_content(ContentKind::Photo, &uid("f"), &Vec::new(), None).expect_err("missing")
        ),
        "photo vol~f not found"
    );
    assert_eq!(
        refusal(ContentKind::File, None, None),
        "node vol~f is not a file"
    );
    assert_eq!(
        refusal(ContentKind::File, Some(file(None, Some("r"))), None),
        "file is missing its content key packet"
    );
    assert!(refusal(ContentKind::File, Some(file(Some("?"), Some("r"))), None)
        .starts_with("decode content key packet: "));
    assert_eq!(
        refusal(ContentKind::Photo, Some(file(Some("AQID"), None)), None),
        "photo has no active revision"
    );
    // A revision that is named needs no active one.
    let mut detail = details("f");
    detail.file = Some(file(Some("AQID"), None));
    let found = file_content(ContentKind::File, &uid("f"), &vec![detail], Some("old"));
    assert_eq!(found.expect("named").revision_id, "old");

    assert_eq!(
        message(first_link("folder", &uid("x"), &Vec::new()).expect_err("missing")),
        "folder vol~x not found"
    );
    assert!(message(decode_field("?", "decode it").expect_err("no base64"))
        .starts_with("decode it: "));
}

#[test]
fn folders_and_albums_have_hash_keys() {
    let mut folder = details("d");
    folder.folder = Some(FolderDto {
        hash_key: "folder key".to_string(),
        extended_attributes: None,
    });
    assert_eq!(parent_hash_key(&vec![folder]), Ok("folder key".to_string()));
    let mut album = details("a");
    album.album = Some(AlbumDto {
        hash_key: "album key".to_string(),
        photo_count: 0,
        cover_link_id: None,
        last_activity_time: 0,
    });
    assert_eq!(parent_hash_key(&vec![album]), Ok("album key".to_string()));
    assert_eq!(
        message(parent_hash_key(&vec![details("f")]).expect_err("a file")),
        "parent node is not a folder"
    );
    assert!(parent_hash_key(&Vec::new()).is_err());
}

fn thumbnail(kind: i32, id: Option<&str>, digest: Option<&str>) -> ThumbnailDto {
    ThumbnailDto {
        id: id.map(str::to_string),
        thumbnail_type: kind,
        hash_digest: digest.map(str::to_string),
    }
}

#[test]
fn a_download_builds_the_manifest_that_the_upload_signed() {
    let thumbnails = vec![
        thumbnail(2, None, Some("AgI=")),
        thumbnail(1, None, Some(" AQE= ")),
        thumbnail(3, None, None),
    ];
    let mut manifest = thumbnail_manifest(&thumbnails).expect("digests");
    assert_eq!(manifest, vec![1, 1, 2, 2]);
    append_block_digest(&mut manifest, b"hello");
    assert_eq!(manifest.len(), 36);
    assert_eq!(manifest[4], 0x2c);

    let mut again = Vec::new();
    append_block_digest(&mut again, b"hello");
    append_block_digest(&mut again, b"world");
    let mut first = [0u8; 32];
    first.copy_from_slice(&again[..32]);
    let mut second = [0u8; 32];
    second.copy_from_slice(&again[32..]);
    assert_eq!(again, assemble_manifest(&[], vec![(2, second), (1, first)]));

    assert!(
        message(thumbnail_manifest(&vec![thumbnail(1, None, Some("?"))]).expect_err("bad"))
            .starts_with("decode thumbnail digest: ")
    );
    assert_eq!(
        thumbnail_of_type(&vec![thumbnail(1, Some("a"), None), thumbnail(2, Some("b"), None)], 2),
        Some("b".to_string())
    );
    assert_eq!(thumbnail_of_type(&vec![thumbnail(1, None, None)], 1), None);
}

#[test]
fn a_manifest_is_checked_against_its_signer() {
    let revision = |signature: Option<&str>, email: Option<&str>| RevisionDto {
        id: "rev".to_string(),
        manifest_signature: signature.map(str::to_string),
        signature_email: email.map(str::to_string),
        extended_attributes: None,
        thumbnails: Vec::new(),
        blocks: Vec::new(),
    };
    assert_eq!(
        manifest_check(&revision(None, Some("a@b"))),
        ManifestCheck::NotSigned
    );
    let by_node = ManifestCheck::ByNode {
        signature: "sig".to_string(),
    };
    assert_eq!(manifest_check(&revision(Some("sig"), None)), by_node);
    assert_eq!(manifest_check(&revision(Some("sig"), Some(""))), by_node);
    assert_eq!(
        manifest_check(&revision(Some("sig"), Some("a@b"))),
        ManifestCheck::ByAuthor {
            signature: "sig".to_string(),
            email: "a@b".to_string(),
        }
    );
}

#[test]
fn a_revision_is_copied_block_by_block() {
    let size = DEFAULT_BLOCK_SIZE as u64 + 5;
    let mut copy = RevisionCopy::start(size);
    assert_eq!(copy.next(), Some((0, DEFAULT_BLOCK_SIZE as u64)));
    copy.read(DEFAULT_BLOCK_SIZE as u64);
    assert_eq!(
        copy.next(),
        Some((DEFAULT_BLOCK_SIZE as u64, DEFAULT_BLOCK_SIZE as u64))
    );
    copy.read(5);
    assert_eq!(copy.next(), None);

    let mut cut_short = RevisionCopy::start(size);
    cut_short.read(0);
    assert_eq!(cut_short.next(), None);
}

fn block(index: i32) -> BlockDto {
    BlockDto {
        index,
        bare_url: format!("url {index}"),
        token: format!("token {index}"),
    }
}

fn reader() -> RevisionReader {
    RevisionReader::new(
        uid("f"),
        "rev".to_string(),
        vec![block(1), block(2)],
        vec![4, 3],
    )
}

#[test]
fn a_reader_fetches_the_blocks_that_a_range_touches() {
    let reader = reader();
    assert_eq!(reader.size(), 7);
    assert_eq!(reader.block_sizes(), &vec![4, 3]);
    assert_eq!(reader.uid(), &uid("f"));
    assert_eq!(reader.revision_id(), "rev");
    assert_eq!(reader.plan_read(0, 4), vec![(0, 0)]);
    assert_eq!(reader.plan_read(3, 2), vec![(0, 0), (1, 4)]);
    assert!(reader.plan_read(7, 1).is_empty());
    assert!(reader.plan_read(0, 0).is_empty());

    let fetched = vec![b"abcd".to_vec(), b"efg".to_vec()];
    assert_eq!(reader.read_at(3, 2, &fetched), b"de".to_vec());
    assert_eq!(reader.read_at(2, 100, &fetched), b"cdefg".to_vec());
    assert_eq!(reader.read_at(9, 1, &Vec::new()), Vec::<u8>::new());
    // Two reads side by side are one read of both.
    let mut joined = reader.read_at(0, 4, &vec![b"abcd".to_vec()]);
    joined.extend(reader.read_at(4, 3, &vec![b"efg".to_vec()]));
    assert_eq!(joined, reader.read_at(0, 7, &fetched));
}

#[test]
fn expired_block_addresses_are_fetched_again_once() {
    let mut reader = reader();
    let (url, token, generation) = reader.block_location(1).expect("block");
    assert_eq!((url.as_str(), token.as_str()), ("url 2", "token 2"));
    assert!(message(reader.block_location(2).expect_err("no block")).contains("rev"));

    assert!(reader.needs_refresh(generation));
    reader
        .refresh_blocks(vec![block(1), block(2)])
        .expect("the same blocks");
    assert!(!reader.needs_refresh(generation));
    let error = message(reader.refresh_blocks(vec![block(1)]).expect_err("fewer"));
    assert!(error.contains("rev"), "{error}");

    for status in [401, 403, 404] {
        let expired = api_error(ResponseCode::Success, status);
        assert!(is_expired_block_url(&expired));
        assert!(RevisionReader::retries_block(&expired, false));
        assert!(!RevisionReader::retries_block(&expired, true));
    }
    let broken = api_error(ResponseCode::Success, 500);
    assert!(!RevisionReader::retries_block(&broken, false));
}

#[test]
fn block_pages_are_listed_in_growing_windows() {
    let page = |from: i32, count: usize| -> Vec<BlockDto> {
        (0..count as i32).map(|i| block(from + i)).collect()
    };
    let full = BLOCK_PAGE_SIZE;
    let mut listing = BlockListing::start(page(1, full));
    assert!(!listing.complete);
    assert_eq!(listing.next_batch().len(), 2);
    assert_eq!(listing.next_batch().len(), 4);
    assert_eq!(listing.next_batch().len(), 6);
    assert_eq!(listing.next_batch().len(), 6);
    listing.absorb(page(1 + full as i32, 3));
    assert!(listing.complete);
    // A page behind the last one is not taken.
    listing.absorb(page(1, 1));
    let blocks = listing.finish().expect("contiguous");
    assert_eq!(blocks.len(), full + 3);
    assert_eq!(blocks[full + 2].index, full as i32 + 3);

    let gap = BlockListing::start(vec![block(1), block(3)]);
    assert_eq!(
        message(gap.finish().expect_err("a gap")),
        "file contents are incomplete (non-contiguous blocks)"
    );
    let shuffled = BlockListing::start(vec![block(2), block(1)]);
    assert_eq!(shuffled.finish().expect("sorted")[0].index, 1);

    let path = block_page_path(&VolumeId::new("vol"), &LinkId::new("f"), "rev", 2);
    assert!(path.starts_with("v2/volumes/vol/files/f/revisions/rev?"), "{path}");
}

#[test]
fn concurrent_renewals_of_one_generation_run_a_single_handshake() {
    let mut session = SessionGeneration::new();
    let mut handshakes = 0;
    for _ in 0..8 {
        if session.must_renew(0) {
            handshakes += 1;
            session.replaced();
        }
    }
    assert_eq!(handshakes, 1, "eight callers, one handshake");
    assert_eq!(session.current, 1);
}

#[test]
fn renewing_a_generation_that_was_already_replaced_is_a_no_op() {
    let mut session = SessionGeneration::new();
    assert!(session.must_renew(0));
    session.replaced();
    assert!(
        !session.must_renew(0),
        "the stale caller did not re-handshake"
    );
    assert!(session.must_renew(1));

    let expired = api_error(ResponseCode::Success, 401);
    assert!(retries_after_renewal(&expired, false));
    assert!(!retries_after_renewal(&expired, true));
    assert!(!retries_after_renewal(
        &api_error(ResponseCode::Success, 403),
        false
    ));
}

fn found(id: &str) -> ThumbnailBlock {
    ThumbnailBlock {
        thumbnail_id: id.to_string(),
        bare_url: format!("url {id}"),
        token: String::new(),
    }
}

fn denied(id: &str, error: &str) -> ThumbnailBlockError {
    ThumbnailBlockError {
        thumbnail_id: id.to_string(),
        error: error.to_string(),
        code: 1,
    }
}

#[test]
fn every_file_is_reported_whatever_became_of_its_thumbnail() {
    let mut run = ThumbnailRun::new();
    for name in ["a", "b", "c"] {
        run.resolved(
            uid(name),
            Ok((format!("key {name}"), Some(format!("id {name}")))),
        );
    }
    run.resolved(uid("none"), Ok(("key".to_string(), None)));
    run.resolved(uid("lost"), Err(ProtonError::invalid_operation("gone")));
    let chunks = run.chunks();
    assert_eq!(chunks.len(), 1);
    assert_eq!(chunks[0], vec!["id a", "id b", "id c"]);

    let fetches = run.to_fetch(vec![found("id b"), found("id x")]);
    assert_eq!(fetches.len(), 1);
    assert_eq!(fetches[0].0.uid, uid("b"));
    assert_eq!(fetches[0].0.content_key, "key b");
    assert_eq!(fetches[0].1.bare_url, "url id b");
    run.fetched(uid("b"), Ok(vec![1]));
    run.refused(vec![denied("id a", "too old"), denied("id b", "late")]);
    run.finish_chunk(&chunks[0]);

    let outcome = |name: &str| {
        run.results
            .iter()
            .find(|result| result.file_uid == uid(name))
            .map(|result| result.result.clone())
            .expect("reported")
    };
    assert_eq!(run.results.len(), 5);
    assert_eq!(outcome("b"), Ok(vec![1]));
    assert_eq!(message(outcome("a").expect_err("denied")), "too old");
    assert_eq!(
        message(outcome("c").expect_err("unanswered")),
        "thumbnail not found"
    );
    assert_eq!(
        message(outcome("none").expect_err("none")),
        "node vol~none has no thumbnail of the requested type"
    );
    assert_eq!(message(outcome("lost").expect_err("lost")), "gone");
    assert!(run.targets.is_empty());
}

#[test]
fn a_failed_request_is_charged_to_its_files_only() {
    let mut run = ThumbnailRun::new();
    for i in 0..31 {
        run.resolved(uid(&format!("f{i}")), Ok((String::new(), Some(format!("t{i}")))));
    }
    let chunks = run.chunks();
    assert_eq!((chunks[0].len(), chunks[1].len()), (30, 1));
    run.chunk_failed(&chunks[0], "timed out");
    assert_eq!(run.results.len(), 30);
    assert_eq!(run.targets.len(), 1);
    assert_eq!(
        message(run.results[0].result.clone().expect_err("failed")),
        "resolve thumbnail blocks: timed out"
    );
    assert_eq!(thumbnails_path(&VolumeId::new("vol")), "volumes/vol/thumbnails");
}

#[test]
fn one_thumbnail_is_found_or_its_refusal_told() {
    let response = |blocks, errors| ThumbnailBlockListResponse { blocks, errors };
    assert_eq!(
        thumbnail_block("b", response(vec![found("a"), found("b")], Vec::new()))
            .expect("found")
            .bare_url,
        "url b"
    );
    assert_eq!(
        message(
            thumbnail_block("b", response(vec![found("a")], vec![denied("b", "no access")]))
                .expect_err("denied")
        ),
        "resolve thumbnail block: no access"
    );
    assert_eq!(
        message(thumbnail_block("b", response(Vec::new(), Vec::new())).expect_err("silent")),
        "resolve thumbnail block: thumbnail block not returned"
    );
}
