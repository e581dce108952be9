//! Nodes: listing, walking, moving, and what is kept of them.

use proton_drive_rs::batching::{
    aggregate_outcomes, chunked, group_by_volume, NodeAction, MAX_BATCH_COUNT,
};
use proton_drive_rs::cache::NodeCache;
use proton_drive_rs::drive_cache::{
    must_create_volume, DriveCache, EntityEffect, RootShare, CONTEXT_SHARE_CACHE_CAP,
    FOLDER_KEY_CACHE_CAP,
};
use proton_drive_rs::dtos::{
    AggregateLinksResponse, AlbumDto, AlbumItemDto, AlbumItemListResponse, AlbumListItemDto,
    AlbumListResponse, ApiResponse, DecryptedCommonExtendedAttributes,
    DecryptedExtendedAttributes, FileDto, FolderChildrenResponse, InvitationListItemDto,
    InvitationsListResponse, LinkDetailsDto, LinkDto, LinkIdResponsePair, LinkType,
    MyFilesShareResponse, ShareDto, ShareTrashDto, ShareVolumeDto, SharedAlbumDto,
    SharedAlbumsResponse, SharedByMeLinkDto, SharedByMeResponse, SharedWithMeLinkDto,
    SharedWithMeResponse, TimelinePhotoDto, TimelinePhotoListResponse, VolumeEventDto,
    VolumeEventLinkDto, VolumeEventListResponse, VolumeTrashResponse,
};
use proton_drive_rs::enumerate::{collect_built, link_batches, ActionRun, ActionStep, ParentKeys};
use proton_drive_rs::error::{ProtonApiError, ProtonError, ResponseCode};
use proton_drive_rs::event_manager::{
    resolve_start_cursor, EventManager, EventManagerConfig, MemoryCursorStore, StartCursor,
    RETRY_MIN,
};
use proton_drive_rs::events::{
    latest_event_path, seed_events, to_drive_event, DriveEvent, EventDrain,
};
use proton_drive_rs::ids::{DriveEventId, LinkId, NodeUid, ShareId, VolumeId};
use proton_drive_rs::key_walk::{
    link_details_path, parent_key_target, AncestorRun, KeyStep, KeyWalk, WalkBase,
};
use proton_drive_rs::moves::{
    batch_outcomes, build_move_parts, cached_original_name_hash, check_same_volume, found_links,
    move_batches, move_multiple_path, move_multiple_request, move_outcomes, move_path,
    move_request, move_source, move_targets, rename_parent, rename_path, rename_request, MoveParts,
};
use proton_drive_rs::names::{name_availability_path, NameSearch};
use proton_drive_rs::node::{
    Node, NodeKind, NodeVerification, Thumbnail, ThumbnailType, VerificationStatus,
};
use proton_drive_rs::node_build::{
    build_node, content_key_packet, encrypted_attributes, wants_node_key, DecryptedLink, NodeDetail,
};
use proton_drive_rs::paging::{
    album_children_path, album_items, album_uids, albums_path, drive_items, invitation_ids,
    invitations_path, photos_items, shared_album_uids, shared_albums_path, shared_by_me_path,
    shared_by_me_uids, shared_with_me_path, trash_path, AnchoredListing, ChildrenListing,
    TimelineListing, TrashListing,
};
use proton_drive_rs::photos::PhotoTag;
use proton_drive_rs::sharing::SharedWithMeItem;
use proton_drive_rs::single_flight::{shared_error, Flight, SingleFlight};
use proton_drive_rs::tree::{
    find_child_by_name, find_existing_folder, hierarchy_path, AncestorStep, AncestorWalk,
    FolderPath, FolderStep, PathStep, PathWalk,
};

fn message(error: ProtonError) -> String {
    match error {
        ProtonError::InvalidOperation(message) => message,
        other => panic!("expected an invalid operation, got {other:?}"),
    }
}

fn api_error(code: ResponseCode, http_status: u16) -> ProtonError {
    ProtonError::Api(ProtonApiError {
        code,
        http_status,
        message: "gone".to_string(),
        details: None,
    })
}

fn uid_on(volume: &str, link: &str) -> NodeUid {
    NodeUid::new(VolumeId::new(volume), LinkId::new(link))
}

fn uid(link: &str) -> NodeUid {
    uid_on("vol", link)
}

fn links(ids: &[&str]) -> Vec<LinkId> {
    ids.iter().map(|id| LinkId::new(id)).collect()
}

fn link(id: &str, parent: Option<&str>) -> LinkDto {
    LinkDto {
        id: LinkId::new(id),
        link_type: 1,
        parent_id: parent.map(LinkId::new),
        state: 1,
        creation_time: 1,
        modification_time: 2,
        trash_time: None,
        name: format!("name of {id}"),
        name_hash: None,
        key: String::new(),
        passphrase: String::new(),
        passphrase_signature: None,
        signature_email: None,
        name_signature_email: None,
    }
}

fn details(id: &str, parent: Option<&str>) -> LinkDetailsDto {
    LinkDetailsDto {
        link: link(id, parent),
        folder: None,
        file: None,
        photo: None,
        sharing: None,
        membership: None,
        album: None,
    }
}

fn node(id: &str, parent: Option<&str>, name: &str, folder: bool) -> Node {
    Node {
        uid: uid(id),
        parent_uid: parent.map(uid),
        kind: if folder {
            NodeKind::Folder
        } else {
            NodeKind::File {
                media_type: String::new(),
                total_size_on_storage: 0,
                active_revision_state: None,
                active_revision_id: None,
                claimed_size: None,
                claimed_modification_time: None,
                content_sha1: None,
            }
        },
        name: name.to_string(),
        creation_time: 0,
        modification_time: 0,
        trashed: false,
        is_shared: false,
        is_shared_publicly: false,
        signature_email: None,
        membership: None,
        photo: None,
        album: None,
        verification: NodeVerification::default(),
    }
}

// A batch envelope with one successful link and one that failed with `code`.
fn mixed_aggregate(code: ResponseCode) -> AggregateLinksResponse {
    AggregateLinksResponse {
        responses: vec![
            LinkIdResponsePair {
                link_id: LinkId::new("ok-link"),
                response: ApiResponse {
                    code: ResponseCode::Success,
                    error_message: None,
                    details: None,
                },
            },
            LinkIdResponsePair {
                link_id: LinkId::new("bad-link"),
                response: ApiResponse {
                    code,
                    error_message: Some("nope".to_string()),
                    details: None,
                },
            },
        ],
    }
}

#[test]
fn node_action_routes_match_upstream() {
    let volume = VolumeId::new("vol-1");
    assert_eq!(
        NodeAction::Trash.path(&volume),
        "v2/volumes/vol-1/trash_multiple"
    );
    assert_eq!(
        NodeAction::Restore.path(&volume),
        "v2/volumes/vol-1/trash/restore_multiple"
    );
    assert_eq!(
        NodeAction::Delete.path(&volume),
        "v2/volumes/vol-1/trash/delete_multiple"
    );
}

#[test]
fn aggregate_outcomes_keeps_per_link_codes() {
    let outcomes = aggregate_outcomes(mixed_aggregate(ResponseCode::DoesNotExist));

    assert_eq!(outcomes.len(), 2, "one outcome per link, in response order");
    assert_eq!(outcomes[0].0, LinkId::new("ok-link"));
    assert!(outcomes[0].1.is_ok());
    assert_eq!(outcomes[1].0, LinkId::new("bad-link"));
    // A failed link keeps the machine-readable code — the whole point of
    // reporting per-node move outcomes instead of one formatted message.
    match outcomes[1].1.as_ref().expect_err("bad-link must fail") {
        ProtonError::Api(e) => {
            assert_eq!(e.code, ResponseCode::DoesNotExist);
            assert_eq!(e.message, "nope");
            assert_eq!(e.http_status, 200, "the batch request itself succeeded");
        }
        other => panic!("expected an API error, got {other:?}"),
    }
}

#[test]
fn shared_with_me_items_keep_share_ids_order_and_drive_targets() {
    let link = |link_id: &str, share_id: &str, target_type| SharedWithMeLinkDto {
        volume_id: VolumeId::new("shared-volume"),
        share_id: ShareId::new(share_id),
        link_id: LinkId::new(link_id),
        share_target_type: target_type,
    };
    let page = SharedWithMeResponse {
        links: vec![
            link("folder", "share-folder", 1),
            link("album", "share-album", 3),
            link("file", "share-file", 2),
            link("root", "share-root", 0),
            link("vendor", "share-vendor", 5),
            link("future", "share-future", 99),
        ],
        anchor_id: None,
        more: false,
    };

    let items = drive_items(&page);
    assert_eq!(items.len(), 3);
    assert_eq!(items[0].uid.link_id, LinkId::new("folder"));
    assert_eq!(items[0].share_id, ShareId::new("share-folder"));
    assert_eq!(items[1].uid.link_id, LinkId::new("file"));
    assert_eq!(items[1].share_id, ShareId::new("share-file"));
    assert_eq!(items[2].uid.link_id, LinkId::new("vendor"));
    assert_eq!(items[2].share_id, ShareId::new("share-vendor"));

    let photos = photos_items(&page);
    assert_eq!(photos, vec![uid_on("shared-volume", "album")]);
}

#[test]
fn folder_key_cache_is_bounded() {
    let cache = DriveCache::default();
    assert_eq!(cache.folder_keys.cap(), FOLDER_KEY_CACHE_CAP);
}

#[test]
fn context_share_cache_is_bounded_and_promotes_hits() {
    let mut cache = DriveCache::default();
    assert_eq!(cache.context_share_ids.cap(), CONTEXT_SHARE_CACHE_CAP);

    for index in 0..CONTEXT_SHARE_CACHE_CAP {
        cache.context_share_ids.put(
            &NodeUid::new(
                VolumeId::new("volume-1"),
                LinkId::new(&format!("link-{index}")),
            ),
            format!("share-{index}"),
        );
    }

    let oldest = NodeUid::new(VolumeId::new("volume-1"), LinkId::new("link-0"));
    assert_eq!(
        cache.context_share_ids.get(&oldest),
        Some("share-0".to_string())
    );
    cache.context_share_ids.put(
        &NodeUid::new(VolumeId::new("volume-1"), LinkId::new("overflow")),
        "overflow-share".to_string(),
    );

    assert!(
        cache.context_share_ids.peek(&oldest).is_some(),
        "a hit must promote the entry"
    );
    assert!(
        cache
            .context_share_ids
            .peek(&NodeUid::new(
                VolumeId::new("volume-1"),
                LinkId::new("link-1")
            ))
            .is_none(),
        "the least-recently-used entry must be evicted"
    );
}

#[test]
fn what_is_put_is_read_back_and_what_is_popped_is_gone() {
    let mut cache = NodeCache::new(2);
    cache.put(&uid("a"), "1".to_string());
    cache.put(&uid("b"), "2".to_string());
    cache.put(&uid("a"), "3".to_string());
    assert_eq!(cache.peek(&uid("a")), Some("3".to_string()));
    assert_eq!(cache.peek(&uid("b")), Some("2".to_string()));
    cache.pop(&uid("a"));
    assert_eq!(cache.get(&uid("a")), None);
    assert_eq!(cache.get(&uid("b")), Some("2".to_string()));
    cache.clear();
    assert_eq!(cache.get(&uid("b")), None);
    assert_eq!(cache.cap(), 2);
}

#[test]
fn forgotten_context_shares_are_gone_each_time() {
    let mut cache = DriveCache::default();
    let node = uid("link-1");
    cache.learn_context_share(&node, &ShareId::new("before-move"));
    assert_eq!(cache.context_share(&node), Some(ShareId::new("before-move")));
    cache.forget_context_shares();
    assert_eq!(cache.context_share(&node), None);
    cache.learn_context_share(&node, &ShareId::new("request-completed"));
    cache.forget_context_shares();
    assert_eq!(cache.context_share(&node), None);
}

fn event(event_type: i32, parent: Option<&str>) -> VolumeEventDto {
    VolumeEventDto {
        id: DriveEventId::new("evt-1"),
        event_type,
        link: VolumeEventLinkDto {
            id: LinkId::new("link-1"),
            parent_id: parent.map(LinkId::new),
            is_shared: true,
            is_trashed: true,
        },
    }
}

#[test]
fn maps_update_event_to_node_updated() {
    let vid = VolumeId::new("vol-1");
    // 1 = Create, 2 = Update, 3 = UpdateMetadata all map to NodeUpdated.
    for ty in [1, 2, 3] {
        let mapped = to_drive_event(&vid, &event(ty, Some("parent-1"))).unwrap();
        match mapped {
            DriveEvent::NodeUpdated {
                node_uid,
                parent_node_uid,
                is_trashed,
                is_shared,
                ..
            } => {
                assert_eq!(node_uid.link_id, LinkId::new("link-1"));
                assert_eq!(
                    parent_node_uid.map(|p| p.link_id),
                    Some(LinkId::new("parent-1"))
                );
                assert!(is_trashed && is_shared);
            }
            other => panic!("expected NodeUpdated, got {other:?}"),
        }
    }
}

#[test]
fn maps_delete_event_to_node_deleted() {
    let vid = VolumeId::new("vol-1");
    let mapped = to_drive_event(&vid, &event(0, None)).unwrap();
    match mapped {
        DriveEvent::NodeDeleted {
            node_uid,
            parent_node_uid,
            ..
        } => {
            assert_eq!(node_uid.link_id, LinkId::new("link-1"));
            assert!(parent_node_uid.is_none());
        }
        other => panic!("expected NodeDeleted, got {other:?}"),
    }
}

#[test]
fn rejects_unknown_event_type() {
    let vid = VolumeId::new("vol-1");
    assert!(to_drive_event(&vid, &event(99, None)).is_err());
    assert_eq!(
        message(to_drive_event(&vid, &event(-1, None)).expect_err("unknown")),
        "unknown volume event type -1"
    );
}

fn event_page(last: &str, events: Vec<VolumeEventDto>, more: bool) -> VolumeEventListResponse {
    VolumeEventListResponse {
        last_event_id: DriveEventId::new(last),
        events,
        more_entries_exist: more,
        refresh_required: false,
    }
}

#[test]
fn events_are_drained_page_by_page() {
    let volume = VolumeId::new("vol");
    assert_eq!(latest_event_path(&volume), "volumes/vol/events/latest");
    assert_eq!(
        seed_events(DriveEventId::new("head")),
        vec![DriveEvent::CursorAdvanced {
            id: DriveEventId::new("head")
        }]
    );

    let mut drain = EventDrain::start(&volume, &DriveEventId::new("a"));
    assert_eq!(drain.path(), "v2/volumes/vol/events/a");
    drain
        .absorb(event_page("b", vec![event(1, None)], true))
        .expect("known kinds");
    assert!(!drain.done);
    assert_eq!(drain.path(), "v2/volumes/vol/events/b");
    drain
        .absorb(event_page("c", vec![event(0, None)], false))
        .expect("known kinds");
    assert!(drain.done);
    assert_eq!(drain.events.len(), 2);
    assert_eq!(drain.events[1].id(), &DriveEventId::new("evt-1"));

    // An empty page tells of a position only when it has moved.
    let mut still = EventDrain::start(&volume, &DriveEventId::new("a"));
    still.absorb(event_page("a", Vec::new(), false)).expect("ok");
    assert!(still.done && still.events.is_empty());
    let mut moved = EventDrain::start(&volume, &DriveEventId::new("a"));
    moved.absorb(event_page("z", Vec::new(), false)).expect("ok");
    assert_eq!(
        moved.events,
        vec![DriveEvent::CursorAdvanced {
            id: DriveEventId::new("z")
        }]
    );

    // An empty page leads on like any other.
    let mut gap = EventDrain::start(&volume, &DriveEventId::new("c"));
    gap.absorb(event_page("d", Vec::new(), true)).expect("ok");
    assert!(!gap.done);
    assert_eq!(gap.path(), "v2/volumes/vol/events/d");
    gap.absorb(event_page("e", vec![event(2, None)], false))
        .expect("known kinds");
    assert!(gap.done);
    assert_eq!(gap.events.len(), 2);
    assert!(matches!(gap.events[0], DriveEvent::CursorAdvanced { .. }));
    assert!(matches!(gap.events[1], DriveEvent::NodeUpdated { .. }));

    // A gap ends it.
    let mut lost = EventDrain::start(&volume, &DriveEventId::new("a"));
    let mut page = event_page("z", vec![event(1, None)], true);
    page.refresh_required = true;
    lost.absorb(page).expect("ok");
    assert!(lost.done);
    assert_eq!(
        lost.events,
        vec![DriveEvent::ContinuityLost {
            id: DriveEventId::new("z")
        }]
    );
    let mut odd = EventDrain::start(&volume, &DriveEventId::new("a"));
    assert!(odd.absorb(event_page("b", vec![event(9, None)], false)).is_err());
}

#[test]
fn events_drop_what_they_make_stale() {
    let fill = || {
        let mut cache = DriveCache::default();
        cache.learn_node_key(&uid("a"), LinkType::Folder, &Some("key a".to_string()));
        cache.learn_node_key(&uid("b"), LinkType::Album, &Some("key b".to_string()));
        cache.learn_node_key(&uid("f"), LinkType::File, &Some("key f".to_string()));
        cache.learn_context_share(&uid("a"), &ShareId::new("s"));
        cache
    };
    assert_eq!(fill().folder_keys.peek(&uid("f")), None);

    let id = || DriveEventId::new("e");
    let mut cache = fill();
    let effect = cache.invalidate_caches_for_event(&DriveEvent::NodeUpdated {
        id: id(),
        node_uid: uid("a"),
        parent_node_uid: None,
        is_trashed: false,
        is_shared: false,
    });
    assert_eq!(effect, EntityEffect::Remove(uid("a")));
    assert_eq!(cache.folder_keys.peek(&uid("a")), None);
    assert_eq!(cache.folder_keys.peek(&uid("b")), Some("key b".to_string()));
    assert_eq!(cache.context_share(&uid("a")), None);

    let mut cache = fill();
    let effect = cache.invalidate_caches_for_event(&DriveEvent::NodeDeleted {
        id: id(),
        node_uid: uid("b"),
        parent_node_uid: None,
    });
    assert_eq!(effect, EntityEffect::Remove(uid("b")));
    assert_eq!(cache.folder_keys.peek(&uid("b")), None);

    for event in [
        DriveEvent::ContinuityLost { id: id() },
        DriveEvent::ScopeAccessLost { id: id() },
    ] {
        let mut cache = fill();
        assert_eq!(
            cache.invalidate_caches_for_event(&event),
            EntityEffect::Clear
        );
        assert_eq!(cache.folder_keys.peek(&uid("b")), None);
        assert_eq!(cache.context_share(&uid("a")), None);
    }

    let mut cache = fill();
    cache.invalidate_caches_for_event(&DriveEvent::CursorAdvanced { id: id() });
    assert_eq!(cache.context_share(&uid("a")), Some(ShareId::new("s")));
    cache.invalidate_caches_for_event(&DriveEvent::SharedWithMeUpdated { id: id() });
    assert_eq!(cache.context_share(&uid("a")), None);
    assert_eq!(cache.folder_keys.peek(&uid("a")), Some("key a".to_string()));
}

#[test]
fn memory_cursor_store_roundtrips() {
    let mut store = MemoryCursorStore::default();
    assert!(store.load().is_none());

    let id = DriveEventId::new("evt-42");
    store.save(&id);
    assert_eq!(store.load(), Some(id));
}

#[test]
fn polling_backs_off_and_resumes_where_it_was() {
    assert_eq!(
        resolve_start_cursor(Ok(Some(DriveEventId::new("kept")))),
        StartCursor::Resume(DriveEventId::new("kept"))
    );
    assert_eq!(resolve_start_cursor(Ok(None)), StartCursor::Seed);
    assert_eq!(
        resolve_start_cursor(Err(ProtonError::invalid_operation("unreadable"))),
        StartCursor::Seed
    );

    let mut manager = EventManager::with_config(EventManagerConfig {
        foreground_interval: 5 * RETRY_MIN,
        background_interval: 600 * RETRY_MIN,
        channel_capacity: 4,
    });
    assert_eq!(manager.channel_capacity(), 4);
    assert_eq!(EventManager::new().channel_capacity(), 256);
    manager.set_foreground(true);
    assert!(manager.is_foreground());
    assert_eq!(manager.current_interval(), 5 * RETRY_MIN);
    for wait in [1, 2, 4, 5, 5] {
        assert_eq!(manager.retry_wait(), wait * RETRY_MIN);
        manager.waited();
    }
    assert_eq!(manager.next_seed_delay(400 * RETRY_MIN), 600 * RETRY_MIN);

    manager.started(Some(DriveEventId::new("start")));
    assert_eq!(manager.polled(&Vec::new()), None);
    assert_eq!(manager.cursor(), &Some(DriveEventId::new("start")));
    assert_eq!(manager.retry_wait(), RETRY_MIN, "a success starts over");
    let events = vec![
        DriveEvent::CursorAdvanced { id: DriveEventId::new("x") },
        DriveEvent::CursorAdvanced { id: DriveEventId::new("y") },
    ];
    assert_eq!(manager.polled(&events), Some(DriveEventId::new("y")));
    assert_eq!(manager.cursor(), &Some(DriveEventId::new("y")));
    manager.set_foreground(false);
    assert_eq!(manager.current_interval(), 600 * RETRY_MIN);
}

#[test]
fn nodes_are_batched_by_volume() {
    let uids = vec![
        uid_on("v1", "a"),
        uid_on("v2", "b"),
        uid_on("v1", "c"),
    ];
    let groups = group_by_volume(&uids);
    assert_eq!(
        groups,
        vec![
            (VolumeId::new("v1"), links(&["a", "c"])),
            (VolumeId::new("v2"), links(&["b"])),
        ]
    );
    let many: Vec<LinkId> = (0..MAX_BATCH_COUNT + 1)
        .map(|i| LinkId::new(&format!("l{i}")))
        .collect();
    let batches = chunked(&many, MAX_BATCH_COUNT);
    assert_eq!((batches[0].len(), batches[1].len()), (MAX_BATCH_COUNT, 1));
    assert_eq!(batches.concat(), many);
    assert_eq!(link_batches(&uids).len(), 2);
    assert!(link_batches(&Vec::new()).is_empty());
}

#[test]
fn an_action_reports_each_answered_link_and_stops_at_a_failed_request() {
    let uids = vec![uid("ok-link"), uid("bad-link"), uid_on("other", "x")];
    let mut run = ActionRun::start(NodeAction::Restore, &uids);
    match run.next() {
        ActionStep::Send { path, by_put, body } => {
            assert_eq!(path, "v2/volumes/vol/trash/restore_multiple");
            assert!(by_put);
            assert_eq!(body.link_ids, links(&["ok-link", "bad-link"]));
        }
        other => panic!("expected to send, got {other:?}"),
    }
    assert_eq!(
        run.answered(Ok(mixed_aggregate(ResponseCode::DoesNotExist))),
        None
    );
    assert_eq!(run.next(), ActionStep::Report(uid("ok-link"), Ok(())));
    match run.next() {
        ActionStep::Report(node, outcome) => {
            assert_eq!(node, uid("bad-link"));
            assert!(outcome.is_err());
        }
        other => panic!("expected a report, got {other:?}"),
    }
    assert!(matches!(run.next(), ActionStep::Send { .. }));
    let failure = api_error(ResponseCode::Success, 500);
    assert_eq!(
        run.answered(Err(failure.clone())),
        Some(ActionStep::Fail(failure))
    );
    assert_eq!(run.next(), ActionStep::End);
}

#[test]
fn a_node_without_its_parents_key_is_left_out() {
    let mut keys = ParentKeys::new();
    let inside = details("a", Some("p"));
    let lost = details("b", Some("q"));
    assert!(keys.is_missing(&inside.link));
    keys.resolved(&inside.link, Ok("key p".to_string()));
    assert!(!keys.is_missing(&inside.link));
    keys.resolved(&lost.link, Err(ProtonError::invalid_operation("no key")));
    assert!(keys.is_missing(&lost.link));
    let built = keys.buildable(vec![inside, lost, details("c", Some("p"))]);
    let ids: Vec<&str> = built.iter().map(|(d, _)| d.link.id.as_str()).collect();
    assert_eq!(ids, vec!["a", "c"]);
    assert_eq!(built[0].1, "key p");

    let mut nodes = vec![node("x", None, "x", true)];
    collect_built(
        &mut nodes,
        vec![
            Err(ProtonError::invalid_operation("undecryptable")),
            Ok(node("y", None, "y", true)),
        ],
    );
    assert_eq!(nodes.len(), 2);
    assert_eq!(nodes[1].uid, uid("y"));
}

#[test]
fn children_are_listed_over_pages() {
    let page = |ids: &[&str], anchor: Option<&str>, more| FolderChildrenResponse {
        link_ids: links(ids),
        anchor_id: anchor.map(LinkId::new),
        more_results_exist: more,
    };
    let mut listing = ChildrenListing::new(&uid("d"));
    assert_eq!(listing.path(), "v2/volumes/vol/folders/d/children");
    listing.absorb(page(&["a"], Some("next"), true));
    assert_eq!(
        listing.path(),
        "v2/volumes/vol/folders/d/children?AnchorID=next"
    );
    listing.absorb(page(&["b"], None, true));
    assert!(listing.done, "no anchor, no further page");
    assert_eq!(listing.uids, vec![uid("a"), uid("b")]);

    let mut empty = ChildrenListing::new(&uid("d"));
    empty.absorb(page(&[], Some("next"), true));
    assert!(empty.done);
}

#[test]
fn a_full_page_of_trash_or_photos_leads_on() {
    let volume = VolumeId::new("vol");
    let group = |count: usize| ShareTrashDto {
        share_id: ShareId::new("s"),
        link_ids: (0..count).map(|i| LinkId::new(&format!("l{i}"))).collect(),
        parent_ids: Vec::new(),
    };
    let mut trash = TrashListing::new(&volume);
    assert_eq!(trash.path(), "volumes/vol/trash?pageSize=500&page=0");
    trash.absorb(VolumeTrashResponse {
        trash_by_share: vec![group(499), group(1)],
    });
    assert!(!trash.done);
    assert_eq!(trash.path(), "volumes/vol/trash?pageSize=500&page=1");
    trash.absorb(VolumeTrashResponse {
        trash_by_share: vec![group(2)],
    });
    assert!(trash.done);
    assert_eq!(trash.uids.len(), 502);
    assert_eq!(trash_path(&volume), "volumes/vol/trash");

    let photo = |i: usize| TimelinePhotoDto {
        id: LinkId::new(&format!("p{i}")),
        capture_time: i as i64,
        name_hash: None,
        content_hash: None,
    };
    let mut timeline = TimelineListing::new(&volume);
    assert_eq!(timeline.path(), "volumes/vol/photos");
    timeline.absorb(TimelinePhotoListResponse {
        photos: (0..500).map(photo).collect(),
    });
    assert!(!timeline.done);
    assert_eq!(
        timeline.path(),
        "volumes/vol/photos?PreviousPageLastLinkID=p499"
    );
    timeline.absorb(TimelinePhotoListResponse { photos: Vec::new() });
    assert!(timeline.done);
    assert_eq!(timeline.items.len(), 500);
    assert_eq!(timeline.items[3].capture_time, 3);
}

#[test]
fn anchored_pages_end_without_an_anchor() {
    let mut listing: AnchoredListing<i32> = AnchoredListing::new();
    listing.absorb(vec![1], Some("next".to_string()), true);
    assert!(!listing.done);
    assert_eq!(shared_with_me_path(&listing.anchor), "v2/sharedwithme?AnchorID=next");
    listing.absorb(vec![2], Some(String::new()), true);
    assert!(listing.done);
    assert_eq!(listing.items, vec![1, 2]);

    let volume = VolumeId::new("vol");
    assert_eq!(shared_by_me_path(&volume, &None), "v2/volumes/vol/shares");
    assert_eq!(albums_path(&volume, &None), "photos/volumes/vol/albums");
    assert_eq!(
        album_children_path(&uid("a"), &Some("x".to_string())),
        "photos/volumes/vol/albums/a/children?Sort=Captured&Desc=1&AnchorID=x"
    );
    assert_eq!(shared_albums_path(&None), "photos/albums/shared-with-me");
    assert_eq!(
        invitations_path(&Some("x".to_string())),
        "v2/shares/invitations?AnchorID=x"
    );
}

#[test]
fn pages_of_what_is_shared_become_nodes() {
    let volume = VolumeId::new("vol");
    let page = SharedByMeResponse {
        links: vec![SharedByMeLinkDto {
            share_id: ShareId::new("s"),
            link_id: LinkId::new("a"),
        }],
        anchor_id: None,
        more: false,
    };
    assert_eq!(shared_by_me_uids(&volume, &page), vec![uid("a")]);
    let albums = AlbumListResponse {
        albums: vec![AlbumListItemDto {
            id: LinkId::new("b"),
        }],
        anchor_id: None,
        more: false,
    };
    assert_eq!(album_uids(&volume, &albums), vec![uid("b")]);
    let items = AlbumItemListResponse {
        photos: vec![AlbumItemDto {
            id: LinkId::new("p"),
            capture_time: 9,
        }],
        anchor_id: None,
        more: false,
    };
    let items = album_items(&uid("b"), &items);
    assert_eq!((items[0].uid.clone(), items[0].capture_time), (uid("p"), 9));
    let shared = SharedAlbumsResponse {
        albums: vec![SharedAlbumDto {
            volume_id: VolumeId::new("theirs"),
            link_id: LinkId::new("c"),
        }],
        anchor_id: None,
        more: false,
    };
    assert_eq!(shared_album_uids(&shared), vec![uid_on("theirs", "c")]);
    let invitations = InvitationsListResponse {
        invitations: vec![InvitationListItemDto {
            invitation_id: "i".to_string(),
            share_id: "s".to_string(),
            share_target_type: 1,
        }],
        more: false,
        anchor_id: None,
    };
    assert_eq!(invitation_ids(&invitations), vec!["i"]);
}

#[test]
fn a_hierarchy_is_walked_to_the_root_and_loops_are_refused() {
    let mut walk = AncestorWalk::start(&uid("c"), node("c", Some("b"), "c", false));
    assert_eq!(walk.next(), Ok(AncestorStep::Fetch(uid("b"))));
    walk.found(&uid("b"), Some(node("b", Some("a"), "b", true)))
        .expect("there");
    assert_eq!(walk.next(), Ok(AncestorStep::Fetch(uid("a"))));
    walk.found(&uid("a"), Some(node("a", None, "root", true)))
        .expect("there");
    assert_eq!(walk.next(), Ok(AncestorStep::Done));
    let hierarchy = walk.finish();
    assert_eq!(hierarchy[0].uid, uid("a"));
    assert_eq!(hierarchy_path(&hierarchy), "/b/c");
    assert_eq!(hierarchy_path(&vec![node("a", None, "root", true)]), "/");

    let mut looped = AncestorWalk::start(&uid("x"), node("x", Some("y"), "x", true));
    assert!(looped.next().is_ok());
    looped
        .found(&uid("y"), Some(node("y", Some("x"), "y", true)))
        .expect("there");
    assert_eq!(
        message(looped.next().expect_err("a loop")),
        "Folder structure loop detected at vol~x"
    );

    let mut broken = AncestorWalk::start(&uid("x"), node("x", Some("y"), "x", true));
    assert!(broken.next().is_ok());
    assert_eq!(
        message(broken.found(&uid("y"), None).expect_err("missing")),
        "Node hierarchy is broken: parent vol~y does not exist"
    );
}

#[test]
fn a_path_leads_to_the_first_child_of_each_name() {
    let mut walk = PathWalk::start(&uid("root"), "//docs/a.txt/");
    assert_eq!(
        walk.next(),
        PathStep::Look {
            parent: uid("root"),
            name: "docs".to_string(),
        }
    );
    let children = vec![
        node("1", None, "Docs", true),
        node("2", None, "docs", true),
        node("3", None, "docs", true),
    ];
    assert_eq!(find_child_by_name(&children, "docs"), Some(uid("2")));
    assert_eq!(
        walk.looked(&children),
        PathStep::Look {
            parent: uid("2"),
            name: "a.txt".to_string(),
        }
    );
    assert_eq!(
        walk.looked(&vec![node("4", None, "a.txt", false)]),
        PathStep::Reached(uid("4"))
    );
    assert_eq!(
        PathWalk::start(&uid("root"), "/").next(),
        PathStep::Reached(uid("root"))
    );
    let mut lost = PathWalk::start(&uid("root"), "x");
    assert_eq!(lost.looked(&Vec::new()), PathStep::Missing);
}

#[test]
fn missing_folders_are_made_and_races_are_adopted() {
    let mut making = FolderPath::start(&uid("root"), "a/b");
    let look = |parent: &str, name: &str| FolderStep::Look {
        parent: uid(parent),
        name: name.to_string(),
    };
    assert_eq!(making.next(), look("root", "a"));
    assert_eq!(making.looked(Some(uid("1"))), look("1", "b"));
    assert_eq!(
        making.looked(None),
        FolderStep::Make {
            parent: uid("1"),
            name: "b".to_string(),
        }
    );
    // Somebody else made it in between.
    let refused = api_error(ResponseCode::AlreadyExists, 422);
    assert_eq!(making.made(Err(refused.clone())), look("1", "b"));
    assert_eq!(making.looked(Some(uid("2"))), FolderStep::Done(uid("2")));

    let mut failing = FolderPath::start(&uid("root"), "a");
    failing.looked(None);
    failing.made(Err(refused.clone()));
    assert_eq!(failing.looked(None), FolderStep::Failed(refused));

    let children = vec![node("f", None, "a", false)];
    assert_eq!(
        message(find_existing_folder(&children, "a").expect_err("a file")),
        "Cannot create folder path: a exists as a file (vol~f)"
    );
    assert_eq!(find_existing_folder(&children, "b"), Ok(None));
}

#[test]
fn keys_are_found_by_climbing_and_unlocking_back_down() {
    let mut cache = DriveCache::default();
    let volume = VolumeId::new("vol");
    let mut walk = KeyWalk::start(&volume, &link("leaf", Some("b")), false);
    assert_eq!(walk.next(&mut cache), KeyStep::Climb(LinkId::new("b")));
    walk.climbed(
        &links(&["b", "a"]),
        &vec![link("a", None), link("b", Some("a"))],
    )
    .expect("both are there");
    assert_eq!(
        walk.next(&mut cache),
        KeyStep::Top(WalkBase::Root(LinkId::new("a")))
    );
    assert_eq!(walk.to_unlock().expect("a").id, LinkId::new("a"));
    walk.unlocked(&"key a".to_string(), &mut cache);
    assert_eq!(walk.to_unlock().expect("b").id, LinkId::new("b"));
    walk.unlocked(&"key b".to_string(), &mut cache);
    assert!(walk.to_unlock().is_none());

    // The keys are kept: the next walk ends at once.
    let walk = KeyWalk::start(&volume, &link("other", Some("b")), false);
    assert_eq!(
        walk.next(&mut cache),
        KeyStep::Top(WalkBase::Known("key b".to_string()))
    );
    let mut lost = KeyWalk::start(&volume, &link("leaf", Some("z")), false);
    assert_eq!(
        message(lost.climbed(&links(&["z"]), &Vec::new()).expect_err("gone")),
        "ancestor vol~z not found"
    );
    let photos = KeyWalk::start(&volume, &link("leaf", None), true);
    assert_eq!(photos.next(&mut cache), KeyStep::Top(WalkBase::Photos));

    assert_eq!(parent_key_target(&volume, &link("leaf", Some("p"))), uid("p"));
    assert_eq!(parent_key_target(&volume, &link("leaf", None)), uid("leaf"));
    assert_eq!(link_details_path(&volume, false), "v2/volumes/vol/links");
    assert_eq!(link_details_path(&volume, true), "photos/volumes/vol/links");
}

#[test]
fn known_ancestors_are_fetched_together() {
    let mut cache = DriveCache::default();
    cache.learn_node_key(&uid("c"), LinkType::Folder, &Some("key c".to_string()));
    let mut run = AncestorRun::start(&VolumeId::new("vol"), &LinkId::new("a"));
    assert_eq!(run.next(), Some(uid("a")));
    run.looked(Some(uid("b")), &mut cache);
    assert_eq!(run.next(), Some(uid("b")));
    run.looked(Some(uid("c")), &mut cache);
    assert_eq!(run.next(), None);
    assert_eq!(run.run, links(&["a", "b"]));
}

#[test]
fn roots_are_unlocked_by_the_share_that_owns_them() {
    let mut cache = DriveCache::default();
    let response = MyFilesShareResponse {
        volume: ShareVolumeDto {
            id: VolumeId::new("vol"),
        },
        share: ShareDto {
            id: ShareId::new("mine"),
            key: String::new(),
            passphrase: String::new(),
            passphrase_signature: None,
            address_id: "address".to_string(),
        },
        link: details("root", None),
    };
    cache.learn_my_files(&response, "share key".to_string(), "root key".to_string());
    assert_eq!(cache.main_volume_id, Some(VolumeId::new("vol")));
    assert_eq!(cache.my_files_root, Some(uid("root")));
    assert_eq!(cache.membership_share(false), Some(ShareId::new("mine")));
    assert_eq!(cache.membership_share(true), None);
    assert_eq!(
        cache.folder_keys.peek(&uid("root")),
        Some("root key".to_string())
    );

    let volume = VolumeId::new("vol");
    assert_eq!(
        cache.root_share(&volume, &LinkId::new("root"), &None, &None),
        RootShare::MyFiles
    );
    let shared = Some(ShareId::new("theirs"));
    assert_eq!(
        cache.root_share(&volume, &LinkId::new("x"), &None, &shared),
        RootShare::Share(ShareId::new("theirs"))
    );
    assert_eq!(
        cache.root_share(&volume, &LinkId::new("x"), &None, &None),
        RootShare::MyFiles
    );

    // What was listed is looked at first, and listed again on a miss.
    assert_eq!(cache.shared_share(&uid("x")), (None, true));
    cache.learn_shared_with_me(vec![
        SharedWithMeItem {
            uid: uid("x"),
            share_id: ShareId::new("one"),
        },
        SharedWithMeItem {
            uid: uid("x"),
            share_id: ShareId::new("two"),
        },
    ]);
    assert_eq!(
        cache.shared_share(&uid("x")),
        (Some(ShareId::new("two")), false)
    );
    assert_eq!(cache.shared_share(&uid("y")), (None, true));

    assert_eq!(
        message(cache.photos_share_key().expect_err("not resolved")),
        "account has no photos volume"
    );
    assert_eq!(
        cache.photos_unavailable(api_error(ResponseCode::DoesNotExist, 422)),
        None
    );
    assert_eq!(cache.photos_volume_exists, Some(false));
    let broken = api_error(ResponseCode::Success, 500);
    assert_eq!(cache.photos_unavailable(broken.clone()), Some(broken.clone()));
    cache.learn_photos(&response, "photos key".to_string(), "k".to_string());
    assert_eq!(cache.photos_share_key(), Ok("photos key".to_string()));
    assert!(must_create_volume(&api_error(ResponseCode::DoesNotExist, 422)));
    assert!(!must_create_volume(&broken));
}

#[test]
fn concurrent_loads_of_the_same_key_run_once() {
    let mut flight = SingleFlight::default();
    let mut runs = 0;
    for _ in 0..8 {
        match flight.begin(&uid("node")) {
            Flight::Start(_) => runs += 1,
            Flight::Join(number) => assert_eq!(number, 0),
        }
    }
    assert_eq!(runs, 1);
    assert_eq!(flight.begin(&uid("another")), Flight::Start(1));
}

#[test]
fn a_later_load_is_not_served_the_previous_result() {
    let mut flight = SingleFlight::default();
    assert_eq!(flight.begin(&uid("node")), Flight::Start(0));
    flight.finish(&uid("node"));
    assert_eq!(flight.begin(&uid("node")), Flight::Start(1));
    assert_eq!(flight.begin(&uid("node")), Flight::Join(1));
}

#[test]
fn a_shared_api_failure_keeps_its_response_code() {
    let error = api_error(ResponseCode::DoesNotExist, 422);
    match shared_error(&error, "not used") {
        ProtonError::Api(e) => {
            assert!(matches!(e.code, ResponseCode::DoesNotExist));
            assert_eq!(e.http_status, 422);
            assert_eq!(e.message, "gone");
        }
        other => panic!("expected an api error, got {other:?}"),
    }
    let lost = ProtonError::Transport {
        timeout: true,
        message: "slow".to_string(),
    };
    assert_eq!(message(shared_error(&lost, "it was slow")), "it was slow");
}

fn parts(name: &str) -> MoveParts {
    MoveParts {
        passphrase: "p".to_string(),
        encrypted_name: name.to_string(),
        name_hash: "h".to_string(),
        original_hash: "o".to_string(),
    }
}

#[test]
fn each_node_is_moved_once_and_reported_at_every_mention() {
    let parent = uid("parent");
    let uids = vec![uid("a"), uid_on("other", "x"), uid("b"), uid("a")];
    assert_eq!(move_targets(&uids, &parent), links(&["a", "b"]));
    let batch = move_batches(&uids, &parent).remove(0);
    let found = found_links(&batch, &vec![link("a", Some("old"))]);
    assert_eq!(found[0].as_ref().expect("a").id, LinkId::new("a"));
    assert!(found[1].is_none());

    let prepared = || vec![Some(Ok(parts("a"))), None];
    let request = move_multiple_request(&parent, &batch, &prepared(), &"me".to_string())
        .expect("one node is carried");
    assert_eq!(request.links.len(), 1);
    assert_eq!(request.links[0].link_id, LinkId::new("a"));
    assert_eq!(request.links[0].passphrase_signature, None);
    assert_eq!(request.parent_link_id, LinkId::new("parent"));
    assert_eq!(
        move_multiple_request(&parent, &links(&["b"]), &vec![None], &String::new()),
        None
    );

    let silent = AggregateLinksResponse {
        responses: Vec::new(),
    };
    let outcomes = batch_outcomes(&parent, &batch, prepared(), Ok(silent));
    let told = vec!["no answer for a".to_string(), "no b".to_string()];
    let reported = move_outcomes(&uids, &parent, &outcomes, &told);
    assert_eq!(reported.len(), 4);
    assert_eq!(
        message(reported[0].1.clone().expect_err("unanswered")),
        "move returned no response for link a"
    );
    assert_eq!(
        message(reported[1].1.clone().expect_err("elsewhere")),
        "cross-volume move is not supported"
    );
    assert_eq!(
        message(reported[2].1.clone().expect_err("missing")),
        "node vol~b not found"
    );
    assert_eq!(
        message(reported[3].1.clone().expect_err("again")),
        "no answer for a"
    );

    let failed = batch_outcomes(&parent, &batch, prepared(), Err("it broke".to_string()));
    let broken = failed
        .iter()
        .find(|(id, _)| *id == LinkId::new("a"))
        .expect("charged to what was sent");
    assert_eq!(message(broken.1.clone().expect_err("failed")), "it broke");
}

#[test]
fn every_carried_link_has_an_outcome() {
    let parent = uid("parent");
    let uids: Vec<NodeUid> = (0..151).map(|i| uid(&format!("n{i}"))).collect();
    let batches = move_batches(&uids, &parent);
    assert_eq!(batches.len(), 2);
    let mut outcomes = Vec::new();
    for batch in &batches {
        let prepared = batch.iter().map(|_| None).collect();
        outcomes.extend(batch_outcomes(&parent, batch, prepared, Err(String::new())));
    }
    let told: Vec<String> = outcomes.iter().map(|_| String::new()).collect();
    for (moved, outcome) in move_outcomes(&uids, &parent, &outcomes, &told) {
        assert_eq!(
            message(outcome.expect_err("none is there")),
            format!("node vol~{} not found", moved.link_id.as_str())
        );
    }
}

#[test]
fn a_move_carries_the_hash_under_the_new_parent() {
    let moved = build_move_parts(
        b"report.txt",
        b"key",
        "rewrapped".to_string(),
        "name".to_string(),
        "original".to_string(),
    );
    assert_eq!(
        moved.name_hash,
        "f54ce8d61676da97d8ff34c7a9e6eb21498dd8696755ca0460075682d2e08489"
    );
    let request = move_request(&uid("parent"), moved, "me@example.org".to_string());
    assert_eq!(request.passphrase_signature, None);
    assert_eq!(request.original_hash, "original");

    assert!(check_same_volume(&uid("a"), &uid("b")).is_ok());
    assert!(check_same_volume(&uid("a"), &uid_on("other", "b")).is_err());
    assert_eq!(move_source(&uid("a"), &link("a", Some("p"))), Ok(uid("p")));
    assert_eq!(
        message(move_source(&uid("a"), &link("a", None)).expect_err("root")),
        "cannot move the root node"
    );
    assert_eq!(move_path(&uid("a")), "v2/volumes/vol/links/a/move");
    assert_eq!(
        move_multiple_path(&VolumeId::new("vol")),
        "volumes/vol/links/move-multiple"
    );
}

#[test]
fn a_rename_needs_a_parent_and_the_current_hash() {
    assert_eq!(
        rename_parent(&uid("a"), &vec![details("a", Some("p"))]),
        Ok(uid("p"))
    );
    assert_eq!(
        message(rename_parent(&uid("a"), &vec![details("a", None)]).expect_err("root")),
        "cannot rename the root node"
    );
    assert_eq!(
        message(rename_parent(&uid("a"), &Vec::new()).expect_err("missing")),
        "node vol~a not found"
    );
    let request = rename_request(
        "report.txt",
        b"key",
        "name".to_string(),
        "me".to_string(),
        None,
        "original".to_string(),
    );
    assert_eq!(
        request.name_hash,
        "f54ce8d61676da97d8ff34c7a9e6eb21498dd8696755ca0460075682d2e08489"
    );
    assert_eq!(rename_path(&uid("a")), "v2/volumes/vol/links/a/rename");

    let mut hashed = link("a", None);
    hashed.name_hash = Some("from link".to_string());
    assert_eq!(
        cached_original_name_hash(Some("stored".to_string()), &hashed),
        Some("stored".to_string())
    );
    assert_eq!(
        cached_original_name_hash(Some(String::new()), &hashed),
        Some("from link".to_string())
    );
    assert_eq!(cached_original_name_hash(None, &link("a", None)), None);
}

#[test]
fn names_are_tried_in_batches_until_one_is_free() {
    let mut search = NameSearch::new("report.txt");
    let batch = search.next_batch(b"key");
    assert_eq!(batch.names.len(), 10);
    assert_eq!(batch.names[0], "report.txt");
    assert_eq!(batch.names[1], "report (1).txt");
    assert_eq!(
        batch.hashes[1],
        "ba39318089b2733d108489e4062178fc98f6f019cd9099a3410f63dbe79fcfa0"
    );
    let request = batch.request("session");
    assert_eq!(request.name_hashes, batch.hashes);
    assert_eq!(request.client_uid, vec!["session"]);
    assert_eq!(batch.first_free(&Vec::new()), Ok(None));
    assert_eq!(
        batch.first_free(&vec![batch.hashes[1].clone(), batch.hashes[0].clone()]),
        Ok(Some("report.txt".to_string()))
    );
    assert_eq!(
        batch.first_free(&vec![
            "unknown".to_string(),
            batch.hashes[4].clone(),
            batch.hashes[2].clone(),
        ]),
        Ok(Some("report (2).txt".to_string()))
    );
    assert_eq!(
        message(
            batch
                .first_free(&vec!["unknown".to_string()])
                .expect_err("not ours")
        ),
        "server returned an unknown name hash digest"
    );
    assert_eq!(search.next_batch(b"key").names[0], "report (10).txt");
    assert_eq!(
        name_availability_path(&uid("p")),
        "v2/volumes/vol/links/p/checkAvailableHashes"
    );
}

fn decrypted(node_key: Option<&str>) -> DecryptedLink {
    DecryptedLink {
        name: "decrypted".to_string(),
        node_key: node_key.map(str::to_string),
        name_status: VerificationStatus::Verified,
        passphrase_status: VerificationStatus::Verified,
        content_key_status: None,
        attributes: None,
    }
}

#[test]
fn a_link_becomes_a_node() {
    let volume = VolumeId::new("vol");
    let mut folder = details("d", Some("p"));
    folder.album = Some(AlbumDto {
        hash_key: String::new(),
        photo_count: 3,
        cover_link_id: Some(LinkId::new("cover")),
        last_activity_time: 0,
    });
    folder.link.link_type = 3;
    let album = build_node(&volume, &folder, decrypted(Some("key"))).expect("an album");
    assert!(album.is_folder());
    assert_eq!(album.name, "decrypted");
    assert_eq!(album.parent_uid, Some(uid("p")));
    let properties = album.album.expect("album properties");
    assert_eq!(properties.photo_count, 3);
    assert_eq!(properties.cover_photo_uid, Some(uid("cover")));
    assert_eq!(properties.last_activity_time, None);
    assert_eq!(
        message(build_node(&volume, &folder, decrypted(None)).expect_err("no key")),
        "folder node built without its key"
    );

    let mut file = details("f", None);
    file.link.link_type = 2;
    assert_eq!(
        message(build_node(&volume, &file, decrypted(None)).expect_err("no data")),
        "file node missing file properties"
    );
    file.file = Some(FileDto {
        media_type: "text/plain".to_string(),
        total_size_on_storage: 8,
        content_key_packet: Some("AQID".to_string()),
        content_key_signature: None,
        active_revision: None,
    });
    let built = build_node(&volume, &file, decrypted(None)).expect("a file");
    assert!(built.is_file());
    assert_eq!(built.tree_event_scope_id().volume_id(), &volume);
    assert_eq!(content_key_packet(&file, true), Some(vec![1, 2, 3]));
    assert_eq!(content_key_packet(&file, false), None);
    assert_eq!(encrypted_attributes(&file, true), None);
    assert!(!wants_node_key(NodeDetail::Light, &file.link));
    assert!(wants_node_key(NodeDetail::Full, &file.link));
    assert!(wants_node_key(NodeDetail::Light, &folder.link));

    let mut odd = details("o", None);
    odd.link.link_type = 9;
    assert_eq!(
        message(build_node(&volume, &odd, decrypted(Some("k"))).expect_err("unknown")),
        "unsupported link type 9"
    );
}

#[test]
fn a_light_node_lacks_only_what_the_file_key_unlocks() {
    let volume = VolumeId::new("vol");
    let mut file = details("f", Some("p"));
    file.link.link_type = 2;
    file.file = Some(FileDto {
        media_type: "text/plain".to_string(),
        total_size_on_storage: 8,
        content_key_packet: None,
        content_key_signature: None,
        active_revision: None,
    });
    let read = |key: Option<&str>| {
        let mut link = decrypted(key);
        link.content_key_status = Some(VerificationStatus::Verified);
        link.attributes = Some((
            DecryptedExtendedAttributes {
                common: Some(DecryptedCommonExtendedAttributes {
                    size: Some(5),
                    modification_time: Some("then".to_string()),
                    block_sizes: None,
                    digests: None,
                }),
            },
            VerificationStatus::Failed,
        ));
        link
    };
    let mut full = build_node(&volume, &file, read(Some("key"))).expect("a file");
    let light = build_node(&volume, &file, read(None)).expect("a file");
    assert_eq!(
        full.verification.content_key,
        Some(VerificationStatus::Verified)
    );
    assert_eq!(
        full.verification.extended_attributes,
        Some(VerificationStatus::Failed)
    );
    full.verification.content_key = None;
    full.verification.extended_attributes = None;
    match &mut full.kind {
        NodeKind::File {
            claimed_size,
            claimed_modification_time,
            ..
        } => {
            assert_eq!(claimed_size.take(), Some(5));
            assert_eq!(claimed_modification_time.take(), Some("then".to_string()));
        }
        NodeKind::Folder => panic!("a file"),
    }
    assert_eq!(light, full);
}

#[test]
fn tags_and_thumbnails_know_their_wire_values() {
    assert_eq!(PhotoTag::from_raw(9), Some(PhotoTag::Raw));
    assert_eq!(PhotoTag::from_raw(10), None);
    assert_eq!(ThumbnailType::Preview.as_i32(), 2);
    assert_eq!(
        message(Thumbnail::new(ThumbnailType::Preview, Vec::new()).expect_err("empty")),
        "Thumbnail content must not be empty."
    );
}
